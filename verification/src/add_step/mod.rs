//! Inserting a step after an anchor node.
pub mod id;
pub mod modes;
pub mod normalize;
pub mod rewire;

use vstd::prelude::*;
use crate::assoc::{aget, ains, kseq, keys_of, kv, find_key, get_key, insert_key, lemma_key_index, lemma_kv_keys, lemma_ains_map, lemma_aget_map, map_vals};
use crate::component_catalog::{CatalogV, MemoryCatalog};
use crate::error::{FlowError, FlowErrorLocation, opt_str, opt_ref, clone_opt_string, suffix_v, flow_error_text};
use crate::flow_ir::{
    ComponentRef, FlowIr, FlowIrV, NodeIr, NodeIrV, NodeKind, NodeKindV, ir_nodes_v, str_pairs_v,
    clone_nodes, clone_node, clone_str_pairs, lemma_ir_nodes_v, lemma_str_pairs_v,
};
use crate::json::{JsonValue, JsonV, get_v};
use crate::loader::{load_v, load_err_is, doc_json_v, doc_to_json, load_from_value};
use crate::flow_ir::to_doc_v;
use crate::model::{strs_v, clone_opt_json, lemma_strs_push, opt_jv};
use crate::step_edit::{wizard_node_value, wizard_node_v};
use crate::flow_meta::{check_contract_drift, contract_drift_v, stored_describe_hash_v};
use crate::route::{Route, RouteV, routes_v, clone_routes};
use crate::text::{concat, concat3, str_eq};
use self::id::{generate_node_id, gen_id_v, base_id_v};
use self::normalize::{NormalizedNodeV, NormErr, normalize_node_map, normalize_v, norm_err_matches};
use self::rewire::{rewrite_v, rewrite_placeholder_routes, apply_threaded_routing, targets, threaded_cycle_msg};

verus! {

/// What to insert, and after which node.
#[derive(Debug)]
pub struct AddStepSpec {
    pub after: Option<String>,
    pub node_id_hint: Option<String>,
    pub node: JsonValue,
    pub allow_cycles: bool,
}

/// A checked insertion, ready to apply.
#[derive(Debug)]
pub struct AddStepPlan {
    pub anchor: String,
    pub new_node: NodeIr,
    pub anchor_old_routing: Vec<Route>,
}

/// A finding about a flow or an insertion.
#[derive(Debug)]
pub struct Diagnostic {
    pub code: String,
    pub message: String,
    pub location: Option<String>,
}

pub struct DiagV {
    pub code: Seq<char>,
    pub message: Seq<char>,
    pub location: Option<Seq<char>>,
}

impl View for Diagnostic {
    type V = DiagV;

    open spec fn view(&self) -> DiagV {
        DiagV { code: self.code@, message: self.message@, location: opt_str(self.location) }
    }
}

pub open spec fn diags_v(d: Seq<Diagnostic>) -> Seq<DiagV> {
    d.map_values(|x: Diagnostic| x@)
}

pub struct PlanV {
    pub anchor: Seq<char>,
    pub new_node: NodeIrV,
    pub anchor_old_routing: Seq<RouteV>,
}

impl View for AddStepPlan {
    type V = PlanV;

    open spec fn view(&self) -> PlanV {
        PlanV {
            anchor: self.anchor@,
            new_node: self.new_node@,
            anchor_old_routing: routes_v(self.anchor_old_routing@),
        }
    }
}

pub open spec fn dg(code: Seq<char>, message: Seq<char>, location: Seq<char>) -> DiagV {
    DiagV { code, message, location: Some(location) }
}

fn diag(code: &str, message: String, location: String) -> (d: Diagnostic)
    ensures
        d@ == dg(code@, message@, location@),
{
    Diagnostic { code: String::from_str(code), message, location: Some(location) }
}

// ---------------------------------------------------------------------------
// Choosing the anchor
// ---------------------------------------------------------------------------

/// The anchor: the node named by `after`; else, in a flow without nodes,
/// none (the empty id: the new step becomes the first one); else the target
/// of the first entry point, else the first node.
pub open spec fn resolve_anchor_v(flow: FlowIrV, after: Option<Seq<char>>) -> Result<Seq<char>, Seq<char>> {
    match after {
        Some(id) => if kseq(flow.nodes).contains(id) {
            Ok(id)
        } else {
            Err("anchor node '"@ + id + "' not found"@)
        },
        None => if flow.nodes.len() == 0 {
            Ok(Seq::empty())
        } else if flow.entrypoints.len() > 0 {
            Ok(flow.entrypoints[0].1)
        } else {
            Ok(flow.nodes[0].0)
        },
    }
}

fn resolve_anchor(flow: &FlowIr, after: Option<&str>) -> (r: Result<String, String>)
    ensures
        match r {
            Ok(a) => resolve_anchor_v(flow@, match after { Some(s) => Some(s@), None => None }) == Ok::<Seq<char>, Seq<char>>(a@),
            Err(m) => resolve_anchor_v(flow@, match after { Some(s) => Some(s@), None => None }) == Err::<Seq<char>, Seq<char>>(m@),
        },
{
    proof {
        lemma_ir_nodes_v(flow.nodes@);
        lemma_str_pairs_v(flow.entrypoints@);
    }
    match after {
        Some(id) => {
            if crate::assoc::has_key(&flow.nodes, id) {
                Ok(String::from_str(id))
            } else {
                Err(concat3("anchor node '", id, "' not found"))
            }
        },
        None => {
            if flow.nodes.len() == 0 {
                let e = String::new();
                assert(e@ =~= Seq::<char>::empty());
                Ok(e)
            } else if flow.entrypoints.len() > 0 {
                assert(flow@.entrypoints[0].1 == flow.entrypoints@[0].1@);
                Ok(flow.entrypoints[0].1.clone())
            } else {
                assert(flow@.nodes[0].0 == flow.nodes@[0].0@);
                Ok(flow.nodes[0].0.clone())
            }
        },
    }
}

/// `keys` without the occurrences of `e`, in order.
pub open spec fn without(keys: Seq<Seq<char>>, e: Seq<char>) -> Seq<Seq<char>>
    decreases keys.len(),
{
    if keys.len() == 0 {
        keys
    } else {
        let p = without(keys.drop_last(), e);
        if keys.last() != e {
            p.push(keys.last())
        } else {
            p
        }
    }
}

/// Candidate anchors: the target of the first entry point, then the other
/// nodes in order.
pub open spec fn anchor_candidates_v(flow: FlowIrV) -> Seq<Seq<char>> {
    let keys = kseq(flow.nodes);
    if flow.entrypoints.len() > 0 && keys.contains(flow.entrypoints[0].1) {
        let e = flow.entrypoints[0].1;
        seq![e] + without(keys, e)
    } else {
        keys
    }
}

pub fn anchor_candidates(flow: &FlowIr) -> (r: Vec<String>)
    ensures
        strs_v(r@) == anchor_candidates_v(flow@),
{
    proof {
        lemma_ir_nodes_v(flow.nodes@);
        lemma_str_pairs_v(flow.entrypoints@);
        lemma_kv_keys(flow.nodes@);
    }
    let ghost keys = kseq(flow@.nodes);
    let mut out: Vec<String> = Vec::new();
    let first: Option<&String> = if flow.entrypoints.len() > 0 && crate::assoc::has_key(&flow.nodes, flow.entrypoints[0].1.as_str()) {
        assert(flow@.entrypoints[0].1 == flow.entrypoints@[0].1@);
        Some(&flow.entrypoints[0].1)
    } else {
        None
    };
    let mut i: usize = 0;
    match first {
        Some(e) => {
            out.push(e.clone());
            proof {
                assert(keys.subrange(0, 0) =~= Seq::<Seq<char>>::empty());
                assert(strs_v(out@) =~= seq![e@] + without(keys.subrange(0, 0), e@));
            }
            while i < flow.nodes.len()
                invariant
                    i <= flow.nodes.len(),
                    keys == keys_of(flow.nodes@),
                    strs_v(out@) == seq![e@] + without(keys.subrange(0, i as int), e@),
                decreases flow.nodes.len() - i,
            {
                let ghost before = out@;
                let ghost cur = keys.subrange(0, i + 1);
                proof {
                    assert(cur.drop_last() =~= keys.subrange(0, i as int));
                    assert(cur.last() == flow.nodes@[i as int].0@);
                }
                if !str_eq(flow.nodes[i].0.as_str(), e.as_str()) {
                    out.push(flow.nodes[i].0.clone());
                    proof {
                        lemma_strs_push(before, out@.last());
                        assert(without(cur, e@) == without(keys.subrange(0, i as int), e@).push(cur.last()));
                        assert(strs_v(out@) =~= seq![e@] + without(cur, e@));
                    }
                }
                i = i + 1;
            }
            proof {
                assert(keys.subrange(0, flow.nodes.len() as int) =~= keys);
            }
        },
        None => {
            while i < flow.nodes.len()
                invariant
                    i <= flow.nodes.len(),
                    keys == keys_of(flow.nodes@),
                    strs_v(out@) == keys.subrange(0, i as int),
                decreases flow.nodes.len() - i,
            {
                let ghost before = out@;
                out.push(flow.nodes[i].0.clone());
                proof {
                    lemma_strs_push(before, out@.last());
                    assert(strs_v(out@) =~= keys.subrange(0, i + 1));
                }
                i = i + 1;
            }
            assert(keys.subrange(0, flow.nodes.len() as int) =~= keys);
        },
    }
    out
}

// ---------------------------------------------------------------------------
// Planning
// ---------------------------------------------------------------------------

/// A refusal of `normalize_node_map` as its message reads.
pub open spec fn norm_err_text(x: NormErr) -> Seq<char> {
    match x {
        NormErr::Internal(m, p) => "Internal error"@ + suffix_v(Some(p), None, None) + ": "@ + m,
        NormErr::BadKey(k) => "Invalid component key '"@ + k + "' in node '"@ + "add_step"@
            + "' (must match ^[A-Za-z][\\w.-]*\\.[\\w.-]+$)"@ + suffix_v(Some("node"@), None, None),
    }
}

proof fn lemma_norm_err_text(x: NormErr, e: FlowError)
    requires
        norm_err_matches(x, e),
    ensures
        flow_error_text(e) == norm_err_text(x),
{
}

/// One diagnostic per required field that the payload lacks.
pub open spec fn required_diags_v(cid: Seq<char>, payload: JsonV, req: Seq<Seq<char>>, at: Seq<char>) -> Seq<DiagV>
    decreases req.len(),
{
    if req.len() == 0 {
        Seq::empty()
    } else {
        let prev = required_diags_v(cid, payload, req.drop_last(), at);
        let r = req.last();
        if get_v(payload, r) is None {
            prev.push(
                dg(
                    "COMPONENT_CONFIG_REQUIRED"@,
                    "component '"@ + cid + "' missing required config '"@ + r + "'"@,
                    "nodes."@ + at + "."@ + r,
                ),
            )
        } else {
            prev
        }
    }
}

fn required_diags(cid: &String, payload: &JsonValue, req: &Vec<String>, at: &String, out: &mut Vec<Diagnostic>)
    ensures
        diags_v(final(out)@) == diags_v(old(out)@) + required_diags_v(cid@, payload@, strs_v(req@), at@),
{
    let ghost base = diags_v(out@);
    let ghost rs = strs_v(req@);
    let mut i: usize = 0;
    proof {
        assert(rs.subrange(0, 0) =~= Seq::<Seq<char>>::empty());
        assert(diags_v(out@) =~= base + Seq::<DiagV>::empty());
    }
    while i < req.len()
        invariant
            i <= req.len(),
            rs == strs_v(req@),
            diags_v(out@) == base + required_diags_v(cid@, payload@, rs.subrange(0, i as int), at@),
        decreases req.len() - i,
    {
        let r = &req[i];
        let ghost cur = rs.subrange(0, i + 1);
        proof {
            assert(cur.drop_last() =~= rs.subrange(0, i as int));
            assert(cur.last() == r@);
        }
        if payload.get(r.as_str()).is_none() {
            let mut m = String::from_str("component '");
            m.append(cid.as_str());
            m.append("' missing required config '");
            m.append(r.as_str());
            m.append("'");
            let mut l = String::from_str("nodes.");
            l.append(at.as_str());
            l.append(".");
            l.append(r.as_str());
            let ghost before = out@;
            out.push(diag("COMPONENT_CONFIG_REQUIRED", m, l));
            proof {
                assert(diags_v(out@) =~= diags_v(before).push(out@.last()@));
                assert(get_v(payload@, r@) is None);
            }
        } else {
            proof {
                assert(get_v(payload@, r@) is Some);
            }
        }
        i = i + 1;
    }
    proof {
        assert(rs.subrange(0, req.len() as int) =~= rs);
    }
}

/// Catalog findings for a component: its missing required fields, or that
/// the catalog does not know it.
pub open spec fn catalog_diags_v(cat: CatalogV, cid: Seq<char>, payload: JsonV) -> Seq<DiagV> {
    match aget(cat, cid) {
        Some(req) => required_diags_v(cid, payload, req, cid),
        None => seq![dg("ADD_STEP_COMPONENT_UNKNOWN"@, "component '"@ + cid + "' not found in catalog"@, "add_step.component"@)],
    }
}

/// The result of planning an insertion.
pub open spec fn plan_v(
    flow: FlowIrV,
    after: Option<Seq<char>>,
    hint: Option<Seq<char>>,
    node: JsonV,
    allow_cycles: bool,
    cat: CatalogV,
) -> Result<PlanV, Seq<DiagV>> {
    match resolve_anchor_v(flow, after) {
        Err(m) => Err(seq![dg("ADD_STEP_ANCHOR_MISSING"@, m, "nodes"@)]),
        Ok(anchor) => match normalize_v(node) {
            Err(x) => Err(seq![dg("ADD_STEP_NODE_INVALID"@, norm_err_text(x), "add_step.node"@)]),
            Ok(nn) => {
                let ds = catalog_diags_v(cat, nn.component_id, nn.payload);
                if ds.len() > 0 {
                    Err(ds)
                } else {
                    let old = match aget(flow.nodes, anchor) {
                        Some(a) => a.routing,
                        None => Seq::empty(),
                    };
                    let id = gen_id_v(kseq(flow.nodes), base_id_v(hint, nn.component_id, anchor));
                    match rewrite_v(nn.routing, old, allow_cycles, anchor, false) {
                        Err(m) => Err(seq![dg("ADD_STEP_ROUTING_INVALID"@, m, "nodes."@ + id + ".routing"@)]),
                        Ok(r) => Ok(
                            PlanV {
                                anchor,
                                new_node: NodeIrV {
                                    id,
                                    kind: NodeKindV::Component {
                                        component_id: nn.component_id,
                                        pack_alias: nn.pack_alias,
                                        operation: nn.operation,
                                        payload: nn.payload,
                                    },
                                    routing: r,
                                },
                                anchor_old_routing: old,
                            },
                        ),
                    }
                }
            },
        },
    }
}

/// Node keys as a list of texts.
fn node_keys(nodes: &Vec<(String, NodeIr)>) -> (r: Vec<String>)
    ensures
        strs_v(r@) == keys_of(nodes@),
{
    let mut r: Vec<String> = Vec::new();
    let mut i: usize = 0;
    while i < nodes.len()
        invariant
            i <= nodes.len(),
            strs_v(r@) == keys_of(nodes@).subrange(0, i as int),
        decreases nodes.len() - i,
    {
        let ghost before = r@;
        r.push(nodes[i].0.clone());
        proof {
            lemma_strs_push(before, r@.last());
            assert(strs_v(r@) =~= keys_of(nodes@).subrange(0, i + 1));
        }
        i = i + 1;
    }
    assert(keys_of(nodes@).subrange(0, nodes.len() as int) =~= keys_of(nodes@));
    r
}

/// The anchor that planning would use names a node of the flow: planning
/// reads the anchor's routes, so it is defined only for such flows.
pub open spec fn anchor_exists(flow: FlowIrV, after: Option<Seq<char>>) -> bool {
    resolve_anchor_v(flow, after) matches Ok(a) ==> (flow.nodes.len() == 0 || kseq(flow.nodes).contains(a))
}

/// Whether planning an insertion after `after` may go ahead: the anchor it
/// would resolve to, if any, names a node of the flow.
pub fn anchor_exists_for(flow: &FlowIr, after: Option<&str>) -> (r: bool)
    ensures
        r == anchor_exists(flow@, match after { Some(s) => Some(s@), None => None }),
{
    proof {
        lemma_ir_nodes_v(flow.nodes@);
    }
    match resolve_anchor(flow, after) {
        Ok(a) => flow.nodes.len() == 0 || crate::assoc::has_key(&flow.nodes, a.as_str()),
        Err(_) => true,
    }
}

/// Plans the insertion of a node after an anchor: checks the anchor, the
/// node's shape and the catalog, picks a fresh identifier, and threads the
/// anchor's former routes through the new node.
pub fn plan_add_step(flow: &FlowIr, spec: AddStepSpec, catalog: &MemoryCatalog) -> (r: Result<AddStepPlan, Vec<Diagnostic>>)
    requires
        anchor_exists(flow@, opt_str(spec.after)),
        flow.nodes@.len() + 3 <= u64::MAX,
    ensures
        match r {
            Ok(p) => plan_v(flow@, opt_str(spec.after), opt_str(spec.node_id_hint), spec.node@, spec.allow_cycles, catalog@)
                == Ok::<PlanV, Seq<DiagV>>(p@),
            Err(d) => plan_v(flow@, opt_str(spec.after), opt_str(spec.node_id_hint), spec.node@, spec.allow_cycles, catalog@)
                == Err::<PlanV, Seq<DiagV>>(diags_v(d@)),
        },
{
    let ghost sv = spec.node@;
    let AddStepSpec { after, node_id_hint, node, allow_cycles } = spec;
    let mut diags: Vec<Diagnostic> = Vec::new();
    let after_ref: Option<&str> = match &after {
        Some(a) => Some(a.as_str()),
        None => None,
    };
    let anchor = match resolve_anchor(flow, after_ref) {
        Ok(a) => a,
        Err(msg) => {
            diags.push(diag("ADD_STEP_ANCHOR_MISSING", msg, String::from_str("nodes")));
            assert(diags_v(diags@) =~= seq![diags@[0]@]);
            return Err(diags);
        },
    };
    let normalized = match normalize_node_map(node) {
        Ok(n) => n,
        Err(e) => {
            proof {
                let x = normalize_v(sv)->Err_0;
                lemma_norm_err_text(x, e);
            }
            diags.push(diag("ADD_STEP_NODE_INVALID", e.message(), String::from_str("add_step.node")));
            assert(diags_v(diags@) =~= seq![diags@[0]@]);
            return Err(diags);
        },
    };
    proof {
        assert(diags_v(diags@) =~= Seq::<DiagV>::empty());
    }
    match catalog.resolve(normalized.component_id.as_str()) {
        Some(meta) => {
            required_diags(&normalized.component_id, &normalized.payload, &meta.required_fields, &normalized.component_id, &mut diags);
        },
        None => {
            diags.push(diag(
                "ADD_STEP_COMPONENT_UNKNOWN",
                concat3("component '", normalized.component_id.as_str(), "' not found in catalog"),
                String::from_str("add_step.component"),
            ));
            assert(diags_v(diags@) =~= seq![diags@[0]@]);
        },
    }
    if diags.len() > 0 {
        return Err(diags);
    }
    proof {
        lemma_ir_nodes_v(flow.nodes@);
    }
    let anchor_node = get_key(&flow.nodes, anchor.as_str());
    let anchor_old_routing = match anchor_node {
        Some(n) => clone_routes(&n.routing),
        None => {
            proof {
                lemma_aget_map(kv(flow.nodes@), anchor@, |x: NodeIr| x@);
                lemma_key_index(kseq(flow@.nodes), anchor@);
            }
            let v: Vec<Route> = Vec::new();
            assert(routes_v(v@) =~= Seq::<RouteV>::empty());
            v
        },
    };
    proof {
        lemma_aget_map(kv(flow.nodes@), anchor@, |x: NodeIr| x@);
        lemma_key_index(kseq(flow@.nodes), anchor@);
    }
    let existing = node_keys(&flow.nodes);
    let hint_ref: Option<&str> = match &node_id_hint {
        Some(h) => Some(h.as_str()),
        None => None,
    };
    let op_ref: Option<&str> = match &normalized.operation {
        Some(o) => Some(o.as_str()),
        None => None,
    };
    let alias_ref: Option<&str> = match &normalized.pack_alias {
        Some(a) => Some(a.as_str()),
        None => None,
    };
    let new_node_id = generate_node_id(
        hint_ref,
        normalized.component_id.as_str(),
        op_ref,
        alias_ref,
        anchor.as_str(),
        &existing,
    );
    proof {
        assert(match hint_ref { Some(h) => Some(h@), None => None } == opt_str(node_id_hint));
    }
    let crate::add_step::normalize::NormalizedNode { component_id, pack_alias, operation, payload, routing } = normalized;
    let routing = match rewrite_placeholder_routes(routing, &anchor_old_routing, allow_cycles, anchor.as_str(), false) {
        Ok(r) => r,
        Err(msg) => {
            let mut ds: Vec<Diagnostic> = Vec::new();
            ds.push(diag("ADD_STEP_ROUTING_INVALID", msg, concat3("nodes.", new_node_id.as_str(), ".routing")));
            assert(diags_v(ds@) =~= seq![ds@[0]@]);
            return Err(ds);
        },
    };
    let new_node = NodeIr {
        id: new_node_id,
        kind: NodeKind::Component(ComponentRef { component_id, pack_alias, operation, payload }),
        routing,
    };
    Ok(AddStepPlan { anchor, new_node, anchor_old_routing })
}


// ---------------------------------------------------------------------------
// Applying a plan
// ---------------------------------------------------------------------------

/// `e` is an internal error with this message at this path.
pub open spec fn is_internal(e: FlowError, message: Seq<char>, path: Seq<char>) -> bool {
    &&& e matches FlowError::Internal { message: m, location: l }
    &&& m@ == message
    &&& l.path_v() == Some(path)
    &&& l.line is None
    &&& l.column is None
}

/// Some former route of the anchor leads back to it.
pub open spec fn routes_back(prior: Seq<RouteV>, anchor: Seq<char>) -> bool {
    exists|k: int| 0 <= k < prior.len() && targets(#[trigger] prior[k], anchor)
}

/// The single route that leads to a node.
pub open spec fn route_to_v(id: Seq<char>) -> RouteV {
    RouteV { to: Some(id), out: false, status: None, reply: false }
}

/// The nodes after a successful application: the anchor keeps its place and
/// now routes to the new node, which goes last.
pub open spec fn applied_nodes_v(nodes: Seq<(Seq<char>, NodeIrV)>, plan: PlanV) -> Seq<(Seq<char>, NodeIrV)> {
    let a = aget(nodes, plan.anchor)->0;
    let a2 = NodeIrV { id: a.id, kind: a.kind, routing: seq![route_to_v(plan.new_node.id)] };
    ains(ains(nodes, plan.anchor, a2), plan.new_node.id, plan.new_node)
}

/// Why a plan cannot be applied.
pub enum ApplyErr {
    IdTaken,
    AnchorMissing,
    Cycle,
}

/// The result of applying a plan; in a flow without nodes the new step is
/// the only one.
pub open spec fn apply_v(flow: FlowIrV, plan: PlanV, allow_cycles: bool) -> Result<FlowIrV, ApplyErr> {
    if kseq(flow.nodes).contains(plan.new_node.id) {
        Err(ApplyErr::IdTaken)
    } else if flow.nodes.len() == 0 {
        Ok(FlowIrV { nodes: seq![(plan.new_node.id, plan.new_node)], ..flow })
    } else if !kseq(flow.nodes).contains(plan.anchor) {
        Err(ApplyErr::AnchorMissing)
    } else if !allow_cycles && routes_back(plan.anchor_old_routing, plan.anchor) {
        Err(ApplyErr::Cycle)
    } else {
        Ok(FlowIrV { nodes: applied_nodes_v(flow.nodes, plan), ..flow })
    }
}

/// The error that each refusal is reported as.
pub open spec fn apply_err_is(x: ApplyErr, e: FlowError, plan: PlanV) -> bool {
    match x {
        ApplyErr::IdTaken => is_internal(
            e,
            "node '"@ + plan.new_node.id + "' already exists"@,
            "nodes."@ + plan.new_node.id,
        ),
        ApplyErr::AnchorMissing => is_internal(e, "anchor '"@ + plan.anchor + "' not found"@, "nodes."@ + plan.anchor),
        ApplyErr::Cycle => {
            &&& e matches FlowError::Routing { node_id, message, location }
            &&& node_id@ == plan.anchor
            &&& message@ == threaded_cycle_msg()
            &&& location.path_v() == Some("nodes."@ + plan.anchor + ".routing"@)
            &&& location.line is None
            &&& location.column is None
        },
    }
}

/// Applies a plan: the anchor routes to the new node, and the new node
/// carries the anchor's former routes.
pub fn apply_plan(flow: &FlowIr, plan: AddStepPlan, allow_cycles: bool) -> (r: Result<FlowIr, FlowError>)
    ensures
        match r {
            Ok(f) => apply_v(flow@, plan@, allow_cycles) == Ok::<FlowIrV, ApplyErr>(f@),
            Err(e) => (apply_v(flow@, plan@, allow_cycles) matches Err(x) && apply_err_is(x, e, plan@)),
        },
        flow.wf() ==> (r matches Ok(f) ==> f.wf()),
{
    proof {
        lemma_ir_nodes_v(flow.nodes@);
        lemma_str_pairs_v(flow.entrypoints@);
    }
    let ghost pv = plan@;
    let AddStepPlan { anchor, new_node, anchor_old_routing } = plan;
    if crate::assoc::has_key(&flow.nodes, new_node.id.as_str()) {
        return Err(FlowError::internal(
            concat3("node '", new_node.id.as_str(), "' already exists"),
            concat("nodes.", new_node.id.as_str()),
        ));
    }
    if flow.nodes.len() == 0 {
        let mut nodes: Vec<(String, NodeIr)> = Vec::new();
        let ghost nn = new_node@;
        let key = new_node.id.clone();
        nodes.push((key, new_node));
        proof {
            assert(ir_nodes_v(nodes@) =~= seq![(pv.new_node.id, nn)]);
            lemma_ir_nodes_v(nodes@);
        }
        let entrypoints = clone_str_pairs(&flow.entrypoints);
        return Ok(FlowIr { id: flow.id.clone(), kind: flow.kind.clone(), entrypoints, nodes, meta: clone_opt_json(&flow.meta) });
    }
    let anchor_node = match get_key(&flow.nodes, anchor.as_str()) {
        Some(n) => clone_node(n),
        None => {
            proof {
                lemma_aget_map(kv(flow.nodes@), anchor@, |x: NodeIr| x@);
                lemma_key_index(kseq(flow@.nodes), anchor@);
            }
            return Err(FlowError::internal(
                concat3("anchor '", anchor.as_str(), "' not found"),
                concat("nodes.", anchor.as_str()),
            ));
        },
    };
    proof {
        lemma_aget_map(kv(flow.nodes@), anchor@, |x: NodeIr| x@);
        lemma_key_index(kseq(flow@.nodes), anchor@);
    }
    let anchor_routing = match apply_threaded_routing(new_node.id.as_str(), &anchor_old_routing, allow_cycles, anchor.as_str()) {
        Ok(r) => r,
        Err(e) => {
            proof {
                let k = choose|k: int| 0 <= k < anchor_old_routing@.len() && targets(#[trigger] anchor_old_routing@[k]@, anchor@);
                assert(routes_v(anchor_old_routing@)[k] == anchor_old_routing@[k]@);
                assert(routes_back(pv.anchor_old_routing, pv.anchor));
            }
            return Err(e);
        },
    };
    proof {
        if routes_back(pv.anchor_old_routing, pv.anchor) && !allow_cycles {
            let k = choose|k: int| 0 <= k < pv.anchor_old_routing.len() && targets(#[trigger] pv.anchor_old_routing[k], pv.anchor);
            assert(routes_v(anchor_old_routing@)[k] == anchor_old_routing@[k]@);
        }
    }
    let NodeIr { id: a_id, kind: a_kind, routing: _ } = anchor_node;
    let updated_anchor = NodeIr { id: a_id, kind: a_kind, routing: anchor_routing };
    let mut nodes = clone_nodes(&flow.nodes);
    let ghost n0 = nodes@;
    let ghost ua = updated_anchor@;
    let ghost nn = new_node@;
    let new_key = new_node.id.clone();
    insert_key(&mut nodes, anchor, updated_anchor);
    let ghost n1 = nodes@;
    insert_key(&mut nodes, new_key, new_node);
    proof {
        lemma_ir_nodes_v(n0);
        lemma_ir_nodes_v(n1);
        lemma_ir_nodes_v(nodes@);
        lemma_ains_map(kv(n0), pv.anchor, updated_anchor, |x: NodeIr| x@);
        lemma_ains_map(kv(n1), pv.new_node.id, new_node, |x: NodeIr| x@);
        assert(ir_nodes_v(nodes@) == applied_nodes_v(flow@.nodes, pv));
        if crate::assoc::unique(kseq(flow@.nodes)) {
            let a = aget(flow@.nodes, pv.anchor)->0;
            let a2 = NodeIrV { id: a.id, kind: a.kind, routing: seq![route_to_v(pv.new_node.id)] };
            crate::assoc::lemma_ains_unique(flow@.nodes, pv.anchor, a2);
            crate::assoc::lemma_ains_unique(ains(flow@.nodes, pv.anchor, a2), pv.new_node.id, pv.new_node);
        }
    }
    Ok(FlowIr {
        id: flow.id.clone(),
        kind: flow.kind.clone(),
        entrypoints: clone_str_pairs(&flow.entrypoints),
        nodes,
        meta: clone_opt_json(&flow.meta),
    })
}


// ---------------------------------------------------------------------------
// Validation
// ---------------------------------------------------------------------------

/// Findings on the first entry point.
pub open spec fn entry_diags_v(flow: FlowIrV) -> Seq<DiagV> {
    if flow.entrypoints.len() > 0 && !kseq(flow.nodes).contains(flow.entrypoints[0].1) {
        let name = flow.entrypoints[0].0;
        let target = flow.entrypoints[0].1;
        seq![dg(
            "ENTRYPOINT_MISSING"@,
            "entrypoint '"@ + name + "' targets unknown node '"@ + target + "'"@,
            "entrypoints."@ + name,
        )]
    } else {
        Seq::empty()
    }
}

/// Findings on routes whose target is not a node.
pub open spec fn route_diags_v(id: Seq<char>, routes: Seq<RouteV>, keys: Seq<Seq<char>>) -> Seq<DiagV>
    decreases routes.len(),
{
    if routes.len() == 0 {
        Seq::empty()
    } else {
        let prev = route_diags_v(id, routes.drop_last(), keys);
        match routes.last().to {
            Some(t) => if !keys.contains(t) {
                prev.push(dg(
                    "ROUTE_TARGET_MISSING"@,
                    "node '"@ + id + "' routes to unknown node '"@ + t + "'"@,
                    "nodes."@ + id + ".routing"@,
                ))
            } else {
                prev
            },
            None => prev,
        }
    }
}

/// Findings on what a node does.
pub open spec fn kind_diags_v(id: Seq<char>, kind: NodeKindV, cat: CatalogV) -> Seq<DiagV> {
    match kind {
        NodeKindV::Component { component_id, payload, .. } => {
            let null_d: Seq<DiagV> = if payload is Null {
                seq![dg(
                    "COMPONENT_PAYLOAD_REQUIRED"@,
                    "component '"@ + component_id + "' payload must not be null"@,
                    "nodes."@ + id,
                )]
            } else {
                Seq::empty()
            };
            null_d + match aget(cat, component_id) {
                Some(req) => required_diags_v(component_id, payload, req, id),
                None => seq![dg(
                    "COMPONENT_NOT_FOUND"@,
                    "component '"@ + component_id + "' not found in catalog"@,
                    "nodes."@ + id,
                )],
            }
        },
        NodeKindV::Questions { fields } => if get_v(fields, "fields"@) is None {
            seq![dg("QUESTIONS_FIELDS_REQUIRED"@, "questions node missing fields"@, "nodes."@ + id + ".questions.fields"@)]
        } else {
            Seq::empty()
        },
        NodeKindV::Template { template } => if template.len() == 0 {
            seq![dg("TEMPLATE_EMPTY"@, "template node payload is empty"@, "nodes."@ + id + ".template"@)]
        } else {
            Seq::empty()
        },
        NodeKindV::Other { .. } => Seq::empty(),
    }
}

/// Findings on each node in turn.
pub open spec fn nodes_diags_v(nodes: Seq<(Seq<char>, NodeIrV)>, keys: Seq<Seq<char>>, cat: CatalogV) -> Seq<DiagV>
    decreases nodes.len(),
{
    if nodes.len() == 0 {
        Seq::empty()
    } else {
        let (id, n) = nodes.last();
        nodes_diags_v(nodes.drop_last(), keys, cat) + route_diags_v(id, n.routing, keys) + kind_diags_v(id, n.kind, cat)
    }
}

/// All findings on a flow.
pub open spec fn validate_v(flow: FlowIrV, cat: CatalogV) -> Seq<DiagV> {
    entry_diags_v(flow) + nodes_diags_v(flow.nodes, kseq(flow.nodes), cat)
}

fn route_diags(id: &String, routes: &Vec<Route>, nodes: &Vec<(String, NodeIr)>, out: &mut Vec<Diagnostic>)
    ensures
        diags_v(final(out)@) == diags_v(old(out)@) + route_diags_v(id@, routes_v(routes@), keys_of(nodes@)),
{
    let ghost base = diags_v(out@);
    let ghost rs = routes_v(routes@);
    let ghost keys = keys_of(nodes@);
    let mut i: usize = 0;
    proof {
        assert(rs.subrange(0, 0) =~= Seq::<RouteV>::empty());
        assert(diags_v(out@) =~= base + Seq::<DiagV>::empty());
    }
    while i < routes.len()
        invariant
            i <= routes.len(),
            rs == routes_v(routes@),
            keys == keys_of(nodes@),
            diags_v(out@) == base + route_diags_v(id@, rs.subrange(0, i as int), keys),
        decreases routes.len() - i,
    {
        let ghost cur = rs.subrange(0, i + 1);
        proof {
            assert(cur.drop_last() =~= rs.subrange(0, i as int));
            assert(cur.last() == routes@[i as int]@);
        }
        match &routes[i].to {
            Some(t) => {
                if !crate::assoc::has_key(nodes, t.as_str()) {
                    let mut m = String::from_str("node '");
                    m.append(id.as_str());
                    m.append("' routes to unknown node '");
                    m.append(t.as_str());
                    m.append("'");
                    let ghost before = out@;
                    out.push(diag("ROUTE_TARGET_MISSING", m, concat3("nodes.", id.as_str(), ".routing")));
                    proof {
                        assert(diags_v(out@) =~= diags_v(before).push(out@.last()@));
                    }
                }
            },
            None => {},
        }
        i = i + 1;
    }
    proof {
        assert(rs.subrange(0, routes.len() as int) =~= rs);
    }
}

fn kind_diags(id: &String, kind: &NodeKind, catalog: &MemoryCatalog, out: &mut Vec<Diagnostic>)
    ensures
        diags_v(final(out)@) == diags_v(old(out)@) + kind_diags_v(id@, kind@, catalog@),
{
    let ghost base = diags_v(out@);
    match kind {
        NodeKind::Component(comp) => {
            if comp.payload.is_null() {
                let ghost before = out@;
                out.push(diag(
                    "COMPONENT_PAYLOAD_REQUIRED",
                    concat3("component '", comp.component_id.as_str(), "' payload must not be null"),
                    concat("nodes.", id.as_str()),
                ));
                proof {
                    assert(diags_v(out@) =~= diags_v(before).push(out@.last()@));
                }
            }
            let ghost mid = diags_v(out@);
            match catalog.resolve(comp.component_id.as_str()) {
                Some(meta) => {
                    required_diags(&comp.component_id, &comp.payload, &meta.required_fields, id, out);
                },
                None => {
                    let ghost before = out@;
                    out.push(diag(
                        "COMPONENT_NOT_FOUND",
                        concat3("component '", comp.component_id.as_str(), "' not found in catalog"),
                        concat("nodes.", id.as_str()),
                    ));
                    proof {
                        assert(diags_v(out@) =~= diags_v(before).push(out@.last()@));
                    }
                },
            }
            proof {
                assert(diags_v(out@) =~= base + kind_diags_v(id@, kind@, catalog@));
            }
        },
        NodeKind::Questions { fields } => {
            if fields.get("fields").is_none() {
                let ghost before = out@;
                out.push(diag(
                    "QUESTIONS_FIELDS_REQUIRED",
                    String::from_str("questions node missing fields"),
                    concat3("nodes.", id.as_str(), ".questions.fields"),
                ));
                proof {
                    reveal_strlit("fields");
                    assert(diags_v(out@) =~= diags_v(before).push(out@.last()@));
                }
            } else {
                assert(diags_v(out@) =~= base + Seq::<DiagV>::empty());
            }
        },
        NodeKind::Template { template } => {
            if template.unicode_len() == 0 {
                let ghost before = out@;
                out.push(diag(
                    "TEMPLATE_EMPTY",
                    String::from_str("template node payload is empty"),
                    concat3("nodes.", id.as_str(), ".template"),
                ));
                proof {
                    assert(diags_v(out@) =~= diags_v(before).push(out@.last()@));
                }
            } else {
                assert(diags_v(out@) =~= base + Seq::<DiagV>::empty());
            }
        },
        NodeKind::Other { .. } => {
            assert(diags_v(out@) =~= base + Seq::<DiagV>::empty());
        },
    }
}

/// Checks a flow against itself and a catalog: the first entry point and
/// every route lead to a node, component nodes have a payload and the
/// catalog's required fields, question nodes have fields, and templates are
/// not empty.
pub fn validate_flow(flow: &FlowIr, catalog: &MemoryCatalog) -> (r: Vec<Diagnostic>)
    ensures
        diags_v(r@) == validate_v(flow@, catalog@),
{
    proof {
        lemma_ir_nodes_v(flow.nodes@);
        lemma_str_pairs_v(flow.entrypoints@);
    }
    let mut diags: Vec<Diagnostic> = Vec::new();
    if flow.entrypoints.len() > 0 && !crate::assoc::has_key(&flow.nodes, flow.entrypoints[0].1.as_str()) {
        let name = &flow.entrypoints[0].0;
        let target = &flow.entrypoints[0].1;
        let mut m = String::from_str("entrypoint '");
        m.append(name.as_str());
        m.append("' targets unknown node '");
        m.append(target.as_str());
        m.append("'");
        diags.push(diag("ENTRYPOINT_MISSING", m, concat("entrypoints.", name.as_str())));
        proof {
            assert(flow@.entrypoints[0] == (name@, target@));
            assert(diags_v(diags@) =~= entry_diags_v(flow@));
        }
    } else {
        proof {
            if flow.entrypoints.len() > 0 {
                assert(flow@.entrypoints[0].1 == flow.entrypoints@[0].1@);
            }
            assert(diags_v(diags@) =~= entry_diags_v(flow@));
        }
    }
    let ghost ed = diags_v(diags@);
    let ghost nv = flow@.nodes;
    let ghost keys = kseq(nv);
    let mut i: usize = 0;
    proof {
        assert(nv.subrange(0, 0) =~= Seq::<(Seq<char>, NodeIrV)>::empty());
        assert(diags_v(diags@) =~= ed + Seq::<DiagV>::empty());
    }
    while i < flow.nodes.len()
        invariant
            i <= flow.nodes.len(),
            nv == flow@.nodes,
            nv == ir_nodes_v(flow.nodes@),
            keys == kseq(nv),
            keys == keys_of(flow.nodes@),
            diags_v(diags@) == ed + nodes_diags_v(nv.subrange(0, i as int), keys, catalog@),
        decreases flow.nodes.len() - i,
    {
        let ghost cur = nv.subrange(0, i + 1);
        let ghost d0 = diags_v(diags@);
        proof {
            assert(cur.drop_last() =~= nv.subrange(0, i as int));
            assert(cur.last() == (flow.nodes@[i as int].0@, flow.nodes@[i as int].1@));
        }
        let id = &flow.nodes[i].0;
        let node = &flow.nodes[i].1;
        route_diags(id, &node.routing, &flow.nodes, &mut diags);
        kind_diags(id, &node.kind, catalog, &mut diags);
        proof {
            assert(diags_v(diags@) =~= ed + nodes_diags_v(cur, keys, catalog@));
        }
        i = i + 1;
    }
    proof {
        assert(nv.subrange(0, flow.nodes.len() as int) =~= nv);
    }
    diags
}


/// One finding as `code: message`.
pub open spec fn diag_line(d: DiagV) -> Seq<char> {
    d.code + ": "@ + d.message
}

/// Findings as one line each, joined with `; `.
pub open spec fn join_diags(ds: Seq<DiagV>) -> Seq<char>
    decreases ds.len(),
{
    if ds.len() == 0 {
        Seq::empty()
    } else if ds.len() == 1 {
        diag_line(ds[0])
    } else {
        join_diags(ds.drop_last()) + "; "@ + diag_line(ds.last())
    }
}

/// No findings is success; otherwise one internal error that lists them all.
pub fn diagnostics_to_error(diags: Vec<Diagnostic>) -> (r: Result<(), FlowError>)
    ensures
        r is Ok <==> diags@.len() == 0,
        r matches Err(e) ==> is_internal(e, join_diags(diags_v(diags@)), "add_step"@),
{
    if diags.len() == 0 {
        return Ok(());
    }
    let ghost dv = diags_v(diags@);
    let mut combined = String::new();
    let mut i: usize = 0;
    while i < diags.len()
        invariant
            i <= diags.len(),
            dv == diags_v(diags@),
            combined@ == join_diags(dv.subrange(0, i as int)),
        decreases diags.len() - i,
    {
        let ghost cur = dv.subrange(0, i + 1);
        proof {
            assert(cur.drop_last() =~= dv.subrange(0, i as int));
            assert(cur.last() == diags@[i as int]@);
        }
        if i > 0 {
            combined.append("; ");
        }
        combined.append(diags[i].code.as_str());
        combined.append(": ");
        combined.append(diags[i].message.as_str());
        proof {
            if i == 0 {
                assert(cur.len() == 1);
                assert(cur[0] == cur.last());
                assert(combined@ =~= join_diags(cur));
            } else {
                assert(combined@ =~= join_diags(cur));
            }
        }
        i = i + 1;
    }
    proof {
        assert(dv.subrange(0, diags.len() as int) =~= dv);
    }
    Err(FlowError::internal(combined, String::from_str("add_step")))
}


/// Applying a plan inserts its node after the anchor: the new node is in
/// the flow as planned and comes last, the anchor keeps its place and what it
/// does and now routes only to the new node, every other node, the entry
/// points, the identifier and the kind are unchanged.
pub proof fn law_apply_inserts_after_anchor(flow: FlowIrV, plan: PlanV, allow_cycles: bool, k: Seq<char>)
    requires
        apply_v(flow, plan, allow_cycles) is Ok,
        flow.nodes.len() > 0,
    ensures
        ({
            let f = apply_v(flow, plan, allow_cycles)->Ok_0;
            &&& aget(f.nodes, plan.new_node.id) == Some(plan.new_node)
            &&& aget(f.nodes, plan.anchor) matches Some(a)
            &&& a.routing == seq![route_to_v(plan.new_node.id)]
            &&& a.kind == aget(flow.nodes, plan.anchor)->0.kind
            &&& (k != plan.anchor && k != plan.new_node.id ==> aget(f.nodes, k) == aget(flow.nodes, k))
            &&& kseq(f.nodes) == kseq(flow.nodes).push(plan.new_node.id)
            &&& f.entrypoints == flow.entrypoints
            &&& f.id == flow.id
            &&& f.kind == flow.kind
        }),
{
    let a = aget(flow.nodes, plan.anchor)->0;
    let a2 = NodeIrV { id: a.id, kind: a.kind, routing: seq![route_to_v(plan.new_node.id)] };
    let n1 = ains(flow.nodes, plan.anchor, a2);
    crate::assoc::lemma_ains_aget(flow.nodes, plan.anchor, a2, plan.new_node.id);
    crate::assoc::lemma_ains_aget(flow.nodes, plan.anchor, a2, plan.anchor);
    crate::assoc::lemma_ains_aget(flow.nodes, plan.anchor, a2, k);
    crate::assoc::lemma_ains_aget(n1, plan.new_node.id, plan.new_node, plan.new_node.id);
    crate::assoc::lemma_ains_aget(n1, plan.new_node.id, plan.new_node, plan.anchor);
    crate::assoc::lemma_ains_aget(n1, plan.new_node.id, plan.new_node, k);
}

/// Applying a plan to a flow without nodes makes the planned node the flow's
/// only node; the entry points, the identifier and the kind are unchanged.
pub proof fn law_apply_first_step(flow: FlowIrV, plan: PlanV, allow_cycles: bool)
    requires
        flow.nodes.len() == 0,
    ensures
        apply_v(flow, plan, allow_cycles) matches Ok(f) && f.nodes == seq![(plan.new_node.id, plan.new_node)]
            && f.entrypoints == flow.entrypoints && f.id == flow.id && f.kind == flow.kind,
{
    assert(kseq(flow.nodes) =~= Seq::<Seq<char>>::empty());
}


// ---------------------------------------------------------------------------
// Checking an edited flow
// ---------------------------------------------------------------------------

/// Writes a flow to a document and reads it back by the loading rules.
pub fn reload_check(flow: &FlowIr) -> (r: Result<(), FlowError>)
    ensures
        r is Ok <==> load_v(doc_json_v(to_doc_v(flow@))) is Ok,
        load_v(doc_json_v(to_doc_v(flow@))) matches Err(x) ==> (r matches Err(e) && load_err_is(x, e, "<inline>"@)),
{
    let doc = match flow.to_doc() {
        Ok(d) => d,
        Err(e) => {
            return Err(e);
        },
    };
    let v = doc_to_json(&doc);
    let none: Vec<(String, String)> = Vec::new();
    match load_from_value(&v, &none, "<inline>") {
        Ok(_) => Ok(()),
        Err(e) => Err(e),
    }
}

/// Checks an edited flow: written to a document and read back, it must
/// meet the loading rules, and it must have no findings. The JSON-schema
/// check of the written document is the caller's.
pub fn validate_schema_and_flow(flow: &FlowIr, catalog: &MemoryCatalog) -> (r: Result<(), FlowError>)
    ensures
        r is Ok <==> (load_v(doc_json_v(to_doc_v(flow@))) is Ok && validate_v(flow@, catalog@).len() == 0),
        load_v(doc_json_v(to_doc_v(flow@))) matches Err(x) ==> (r matches Err(e) && load_err_is(x, e, "<inline>"@)),
        load_v(doc_json_v(to_doc_v(flow@))) is Ok && validate_v(flow@, catalog@).len() > 0 ==> (r matches Err(e)
            && is_internal(e, join_diags(validate_v(flow@, catalog@)), "add_step"@)),
{
    let doc = match flow.to_doc() {
        Ok(d) => d,
        Err(e) => {
            return Err(e);
        },
    };
    let v = doc_to_json(&doc);
    let none: Vec<(String, String)> = Vec::new();
    match load_from_value(&v, &none, "<inline>") {
        Ok(_) => {},
        Err(e) => {
            return Err(e);
        },
    }
    let diags = validate_flow(flow, catalog);
    diagnostics_to_error(diags)
}

/// Applies a plan and checks the result.
pub fn apply_and_validate(flow: &FlowIr, plan: AddStepPlan, catalog: &MemoryCatalog, allow_cycles: bool) -> (r: Result<
    FlowIr,
    FlowError,
>)
    ensures
        match apply_v(flow@, plan@, allow_cycles) {
            Err(x) => (r matches Err(e) && apply_err_is(x, e, plan@)),
            Ok(f) => {
                &&& r is Ok <==> (load_v(doc_json_v(to_doc_v(f))) is Ok && validate_v(f, catalog@).len() == 0)
                &&& r matches Ok(g) ==> g@ == f
            },
        },
        flow.wf() ==> (r matches Ok(f) ==> f.wf()),
{
    let updated = apply_plan(flow, plan, allow_cycles)?;
    validate_schema_and_flow(&updated, catalog)?;
    Ok(updated)
}


// ---------------------------------------------------------------------------
// Adding the step a component's wizard configured
// ---------------------------------------------------------------------------

/// Why adding a wizard-configured step failed.
#[derive(Debug)]
pub enum WizardAddFailure {
    /// No anchor was named and the first entry point names no node.
    DanglingEntrypoint,
    /// Planning the insertion found these problems.
    Planning(Vec<Diagnostic>),
    /// The component's description changed since it was recorded.
    Drift(String),
    /// Applying the plan, or checking the result, failed.
    Apply(FlowError),
}

/// The operation a wizard step runs: the given one, else `run`.
pub open spec fn wizard_operation_v(op: Option<Seq<char>>) -> Seq<char> {
    match op {
        Some(o) => o,
        None => "run"@,
    }
}

/// Adds the step that a component's wizard configured: a `component.exec`
/// node with the component and its config, the operation (`run` unless
/// given) and the routing, planned after `after` against `catalog`; the new
/// node's recorded describe hash must agree with `describe_hash` unless a
/// change is allowed; then the plan is applied and the flow checked.
pub fn wizard_add_step(
    flow: &FlowIr,
    component: &str,
    config: JsonValue,
    operation: Option<&str>,
    routing: Option<JsonValue>,
    node_id_hint: Option<String>,
    after: Option<String>,
    allow_cycles: bool,
    describe_hash: &str,
    allow_contract_change: bool,
    catalog: &MemoryCatalog,
) -> (r: Result<FlowIr, WizardAddFailure>)
    requires
        flow.nodes@.len() + 3 <= u64::MAX,
    ensures
        !anchor_exists(flow@, opt_str(after)) <==> r matches Err(WizardAddFailure::DanglingEntrypoint),
        anchor_exists(flow@, opt_str(after)) ==> {
            let node = wizard_node_v(component@, config@, wizard_operation_v(opt_ref(operation)), opt_jv(routing));
            match plan_v(flow@, opt_str(after), opt_str(node_id_hint), node, allow_cycles, catalog@) {
                Err(d) => r matches Err(WizardAddFailure::Planning(ds)) && diags_v(ds@) == d,
                Ok(p) => match contract_drift_v(
                    stored_describe_hash_v(flow@.meta, p.new_node.id),
                    describe_hash@,
                    allow_contract_change,
                    p.new_node.id,
                ) {
                    Err(m) => r matches Err(WizardAddFailure::Drift(x)) && x@ == m,
                    Ok(_) => match apply_v(flow@, p, allow_cycles) {
                        Err(x) => r matches Err(WizardAddFailure::Apply(e)) && apply_err_is(x, e, p),
                        Ok(f) => {
                            &&& r is Ok <==> (load_v(doc_json_v(to_doc_v(f))) is Ok && validate_v(f, catalog@).len() == 0)
                            &&& r matches Ok(g) ==> g@ == f
                            &&& r matches Err(e) ==> e is Apply
                        },
                    },
                },
            }
        },
        flow.wf() ==> (r matches Ok(f) ==> f.wf()),
{
    let after_ref: Option<&str> = match &after {
        Some(a) => Some(a.as_str()),
        None => None,
    };
    proof {
        assert(opt_ref(after_ref) == opt_str(after));
    }
    if !anchor_exists_for(flow, after_ref) {
        return Err(WizardAddFailure::DanglingEntrypoint);
    }
    let op: &str = match operation {
        Some(o) => o,
        None => "run",
    };
    proof {
        reveal_strlit("run");
    }
    let node = wizard_node_value(component, config, op, routing);
    let spec = AddStepSpec { after, node_id_hint, node, allow_cycles };
    let plan = match plan_add_step(flow, spec, catalog) {
        Ok(p) => p,
        Err(d) => {
            return Err(WizardAddFailure::Planning(d));
        },
    };
    match check_contract_drift(&flow.meta, plan.new_node.id.as_str(), describe_hash, allow_contract_change) {
        Ok(()) => {},
        Err(m) => {
            return Err(WizardAddFailure::Drift(m));
        },
    }
    match apply_and_validate(flow, plan, catalog, allow_cycles) {
        Ok(f) => Ok(f),
        Err(e) => Err(WizardAddFailure::Apply(e)),
    }
}

} // verus!
