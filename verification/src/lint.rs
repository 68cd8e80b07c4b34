//! Lint rules over the compact flow form: the start node exists, and each
//! adapter operation that a node names is in the adapter catalog.
use vstd::prelude::*;
use crate::assoc::kseq;
use crate::ir::{FlowIR, FlowIRV, NodeIRV, NodeKind, NodeKindV, classify_v, classify_node_type, node_irs_v};
use crate::model::{strs_v, lemma_strs_push};
use crate::registry::{AdapterCatalog, AdapterCatalogV, offers};
use crate::text::{dec, u64_to_dec, is_ascii_alnum};

verus! {

/// A text that `greentic_types::NodeId` accepts: not empty, and only ASCII
/// letters, digits, `.`, `_` and `-`.
pub open spec fn valid_node_id(s: Seq<char>) -> bool {
    s.len() > 0 && forall|i: int| 0 <= i < s.len() ==> is_ascii_alnum(#[trigger] s[i]) || s[i] == '.' || s[i] == '_' || s[i] == '-'
}

/// How `greentic_types` reports an identifier that it refuses.
pub open spec fn node_id_error(s: Seq<char>) -> Seq<char> {
    if s.len() == 0 {
        "InvalidInput: NodeId must not be empty"@
    } else {
        "InvalidInput: NodeId must contain only ASCII letters, digits, '.', '-', or '_'"@
    }
}

/// Checks a node identifier with `greentic_types::NodeId::new` and renders a
/// refusal with its `Display`; as the crate's source shows, it accepts
/// exactly the texts of `valid_node_id` and words its two refusals so.
#[verifier::external_body]
pub(crate) fn check_node_id(s: &str) -> (r: Result<(), String>)
    ensures
        r is Ok <==> valid_node_id(s@),
        r matches Err(m) ==> m@ == node_id_error(s@),
{
    match greentic_types::NodeId::new(s) {
        Ok(_) => Ok(()),
        Err(e) => Err(e.to_string()),
    }
}

/// Findings of the rules that need nothing but the flow: the start node is
/// a valid identifier and names a node.
pub open spec fn builtin_findings_v(flow: FlowIRV) -> Seq<Seq<char>> {
    match flow.start {
        Some(s) => if !valid_node_id(s) {
            seq!["start_node_exists: invalid start node '"@ + s + "' ("@ + node_id_error(s) + ")"@]
        } else if !kseq(flow.nodes).contains(s) {
            seq!["start_node_exists: start node '"@ + s + "' not found in nodes"@]
        } else {
            Seq::empty()
        },
        None => Seq::empty(),
    }
}

/// Runs the rules that need nothing but the flow. The start node stands for
/// the flow's `default` entry point.
pub fn lint_builtin_rules(flow: &FlowIR) -> (r: Vec<String>)
    ensures
        strs_v(r@) == builtin_findings_v(flow@),
{
    let mut errors: Vec<String> = Vec::new();
    match &flow.start {
        Some(s) => {
            match check_node_id(s.as_str()) {
                Ok(()) => {
                    proof {
                        crate::ir::lemma_node_irs_keys(flow.nodes@);
                    }
                    if !crate::assoc::has_key(&flow.nodes, s.as_str()) {
                        let mut m = String::from_str("start_node_exists: start node '");
                        m.append(s.as_str());
                        m.append("' not found in nodes");
                        errors.push(m);
                    }
                },
                Err(e) => {
                    let mut m = String::from_str("start_node_exists: invalid start node '");
                    m.append(s.as_str());
                    m.append("' (");
                    m.append(e.as_str());
                    m.append(")");
                    errors.push(m);
                },
            }
        },
        None => {},
    }
    assert(strs_v(errors@) =~= builtin_findings_v(flow@));
    errors
}

/// The finding on one node, if it names an adapter operation that the
/// catalog lacks.
pub open spec fn adapter_finding(idx: nat, id: Seq<char>, component: Seq<char>, cat: AdapterCatalogV) -> Option<Seq<char>> {
    match classify_v(component) {
        NodeKindV::Adapter { namespace, adapter, operation } => if !offers(cat, namespace + "."@ + adapter, operation) {
            Some(
                "adapter_resolvable: node #"@ + dec(idx) + " ('"@ + id + "') component '"@ + component
                    + "' missing adapter '"@ + namespace + "."@ + adapter + "' operation '"@ + operation + "'"@,
            )
        } else {
            None
        },
        NodeKindV::Builtin(_) => None,
    }
}

/// Findings on each node in turn, numbered from 0.
pub open spec fn adapter_findings_v(nodes: Seq<(Seq<char>, NodeIRV)>, cat: AdapterCatalogV) -> Seq<Seq<char>>
    decreases nodes.len(),
{
    if nodes.len() == 0 {
        Seq::empty()
    } else {
        let prev = adapter_findings_v(nodes.drop_last(), cat);
        match adapter_finding((nodes.len() - 1) as nat, nodes.last().0, nodes.last().1.component, cat) {
            Some(m) => prev.push(m),
            None => prev,
        }
    }
}

/// Every adapter operation that a node names is in the catalog.
#[derive(Debug)]
pub struct AdapterResolvableRule;

impl AdapterResolvableRule {
    pub fn check(flow: &FlowIR, catalog: &AdapterCatalog) -> (r: Vec<String>)
        ensures
            strs_v(r@) == adapter_findings_v(flow@.nodes, catalog@),
    {
        let ghost nv = flow@.nodes;
        let mut errors: Vec<String> = Vec::new();
        let mut i: usize = 0;
        proof {
            assert(nv.subrange(0, 0) =~= Seq::<(Seq<char>, NodeIRV)>::empty());
            assert(strs_v(errors@) =~= Seq::<Seq<char>>::empty());
        }
        while i < flow.nodes.len()
            invariant
                i <= flow.nodes.len(),
                nv == flow@.nodes,
                nv == node_irs_v(flow.nodes@),
                strs_v(errors@) == adapter_findings_v(nv.subrange(0, i as int), catalog@),
            decreases flow.nodes.len() - i,
        {
            let ghost cur = nv.subrange(0, i + 1);
            proof {
                assert(cur.drop_last() =~= nv.subrange(0, i as int));
                assert(cur.last() == (flow.nodes@[i as int].0@, flow.nodes@[i as int].1@));
            }
            let node_id = &flow.nodes[i].0;
            let component = &flow.nodes[i].1.component;
            match classify_node_type(component.as_str()) {
                NodeKind::Adapter { namespace, adapter, operation } => {
                    if !catalog.contains(namespace.as_str(), adapter.as_str(), operation.as_str()) {
                        let mut m = String::from_str("adapter_resolvable: node #");
                        m.append(u64_to_dec(i as u64).as_str());
                        m.append(" ('");
                        m.append(node_id.as_str());
                        m.append("') component '");
                        m.append(component.as_str());
                        m.append("' missing adapter '");
                        m.append(namespace.as_str());
                        m.append(".");
                        m.append(adapter.as_str());
                        m.append("' operation '");
                        m.append(operation.as_str());
                        m.append("'");
                        let ghost before = errors@;
                        errors.push(m);
                        proof {
                            lemma_strs_push(before, errors@.last());
                        }
                    }
                },
                NodeKind::Builtin(_) => {},
            }
            i = i + 1;
        }
        proof {
            assert(nv.subrange(0, flow.nodes.len() as int) =~= nv);
        }
        errors
    }
}

/// Runs all rules: the built-in ones, then adapter resolution.
pub fn lint_with_registry(flow: &FlowIR, catalog: &AdapterCatalog) -> (r: Vec<String>)
    ensures
        strs_v(r@) == builtin_findings_v(flow@) + adapter_findings_v(flow@.nodes, catalog@),
{
    let mut errors = lint_builtin_rules(flow);
    let more = AdapterResolvableRule::check(flow, catalog);
    let mut i: usize = 0;
    let ghost base = strs_v(errors@);
    let ghost mv = strs_v(more@);
    proof {
        assert(mv.subrange(0, 0) =~= Seq::<Seq<char>>::empty());
        assert(strs_v(errors@) =~= base + mv.subrange(0, 0));
    }
    while i < more.len()
        invariant
            i <= more.len(),
            mv == strs_v(more@),
            strs_v(errors@) == base + mv.subrange(0, i as int),
        decreases more.len() - i,
    {
        let ghost before = errors@;
        errors.push(more[i].clone());
        proof {
            lemma_strs_push(before, errors@.last());
            assert(base + mv.subrange(0, i + 1) =~= (base + mv.subrange(0, i as int)).push(more@[i as int]@));
        }
        i = i + 1;
    }
    proof {
        assert(mv.subrange(0, more.len() as int) =~= mv);
    }
    errors
}

} // verus!
