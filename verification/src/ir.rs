//! The compact flow representation used by the linter: component names
//! classified into adapter operations and built-ins, and flow documents
//! reduced to nodes, payloads and routes.
use vstd::prelude::*;
use crate::assoc::{ains, kv, kseq, keys_of, insert_key, lemma_ains_map, map_vals};
use crate::error::{FlowError, opt_str, clone_opt_string};
use crate::flow_ir::{lemma_doc_nodes_v, node_error_text};
use crate::json::{JsonValue, JsonV, jv, deep_clone};
use crate::model::{FlowDoc, FlowDocV, NodeDocV, doc_nodes_v};
use crate::route::{RouteV, decode_routes, routes_from_json};
use crate::text::{split_once, split_once_v, concat3};

verus! {

/// What a component name names.
#[derive(Debug)]
pub enum NodeKind {
    /// `<namespace>.<adapter>.<operation>`, where the operation may itself
    /// contain dots.
    Adapter { namespace: String, adapter: String, operation: String },
    /// Any other name.
    Builtin(String),
}

pub enum NodeKindV {
    Adapter { namespace: Seq<char>, adapter: Seq<char>, operation: Seq<char> },
    Builtin(Seq<char>),
}

impl View for NodeKind {
    type V = NodeKindV;

    open spec fn view(&self) -> NodeKindV {
        match self {
            NodeKind::Adapter { namespace, adapter, operation } => NodeKindV::Adapter {
                namespace: namespace@,
                adapter: adapter@,
                operation: operation@,
            },
            NodeKind::Builtin(s) => NodeKindV::Builtin(s@),
        }
    }
}

/// A name with at least two dots is an adapter operation: the part before
/// the first dot, the part between the first two, and all the rest.
pub open spec fn classify_v(s: Seq<char>) -> NodeKindV {
    match split_once_v(s, '.') {
        Some((ns, rest)) => match split_once_v(rest, '.') {
            Some((ad, op)) => NodeKindV::Adapter { namespace: ns, adapter: ad, operation: op },
            None => NodeKindV::Builtin(s),
        },
        None => NodeKindV::Builtin(s),
    }
}

pub fn classify_node_type(node_type: &str) -> (r: NodeKind)
    ensures
        r@ == classify_v(node_type@),
{
    match split_once(node_type, '.') {
        Some((namespace, rest)) => match split_once(rest.as_str(), '.') {
            Some((adapter, operation)) => NodeKind::Adapter { namespace, adapter, operation },
            None => NodeKind::Builtin(String::from_str(node_type)),
        },
        None => NodeKind::Builtin(String::from_str(node_type)),
    }
}

/// A route of the compact form.
#[derive(Debug)]
pub struct RouteIR {
    pub to: Option<String>,
    pub out: bool,
}

/// A node of the compact form.
#[derive(Debug)]
pub struct NodeIR {
    pub component: String,
    pub payload_expr: JsonValue,
    pub routes: Vec<RouteIR>,
}

/// A flow of the compact form; `nodes` is in document order.
#[derive(Debug)]
pub struct FlowIR {
    pub id: String,
    pub flow_type: String,
    pub start: Option<String>,
    pub parameters: JsonValue,
    pub nodes: Vec<(String, NodeIR)>,
}

pub struct RouteIRV {
    pub to: Option<Seq<char>>,
    pub out: bool,
}

pub struct NodeIRV {
    pub component: Seq<char>,
    pub payload_expr: JsonV,
    pub routes: Seq<RouteIRV>,
}

pub struct FlowIRV {
    pub id: Seq<char>,
    pub flow_type: Seq<char>,
    pub start: Option<Seq<char>>,
    pub parameters: JsonV,
    pub nodes: Seq<(Seq<char>, NodeIRV)>,
}

impl View for RouteIR {
    type V = RouteIRV;

    open spec fn view(&self) -> RouteIRV {
        RouteIRV { to: opt_str(self.to), out: self.out }
    }
}

pub open spec fn route_irs_v(r: Seq<RouteIR>) -> Seq<RouteIRV> {
    r.map_values(|x: RouteIR| x@)
}

impl View for NodeIR {
    type V = NodeIRV;

    open spec fn view(&self) -> NodeIRV {
        NodeIRV { component: self.component@, payload_expr: jv(self.payload_expr), routes: route_irs_v(self.routes@) }
    }
}

pub open spec fn node_irs_v(n: Seq<(String, NodeIR)>) -> Seq<(Seq<char>, NodeIRV)> {
    n.map_values(|x: (String, NodeIR)| (x.0@, x.1@))
}

impl View for FlowIR {
    type V = FlowIRV;

    open spec fn view(&self) -> FlowIRV {
        FlowIRV {
            id: self.id@,
            flow_type: self.flow_type@,
            start: opt_str(self.start),
            parameters: jv(self.parameters),
            nodes: node_irs_v(self.nodes@),
        }
    }
}

pub proof fn lemma_node_irs_keys(n: Seq<(String, NodeIR)>)
    ensures
        kseq(node_irs_v(n)) == keys_of(n),
{
    assert(kseq(node_irs_v(n)) =~= keys_of(n));
}

proof fn lemma_node_irs_v(n: Seq<(String, NodeIR)>)
    ensures
        node_irs_v(n) == map_vals(kv(n), |x: NodeIR| x@),
        kseq(node_irs_v(n)) == keys_of(n),
{
    assert(node_irs_v(n) =~= map_vals(kv(n), |x: NodeIR| x@));
    assert(kseq(node_irs_v(n)) =~= keys_of(n));
}

pub open spec fn route_ir_of(r: RouteV) -> RouteIRV {
    RouteIRV { to: r.to, out: r.out }
}

/// The compact node of a document node; `None` when its routing does not
/// decode.
pub open spec fn node_compact_of(d: NodeDocV) -> Option<NodeIRV> {
    match decode_routes(d.routing) {
        Some(rs) => Some(
            NodeIRV {
                component: d.component,
                payload_expr: d.payload,
                routes: rs.map_values(|r: RouteV| route_ir_of(r)),
            },
        ),
        None => None,
    }
}

/// All nodes in document order; `Err` names the first node whose routing
/// does not decode.
pub open spec fn nodes_compact_of(nodes: Seq<(Seq<char>, NodeDocV)>) -> Result<Seq<(Seq<char>, NodeIRV)>, Seq<char>>
    decreases nodes.len(),
{
    if nodes.len() == 0 {
        Ok(Seq::empty())
    } else {
        match nodes_compact_of(nodes.drop_last()) {
            Err(id) => Err(id),
            Ok(acc) => match node_compact_of(nodes.last().1) {
                None => Err(nodes.last().0),
                Some(n) => Ok(ains(acc, nodes.last().0, n)),
            },
        }
    }
}

fn route_irs(routes: &Vec<crate::route::Route>) -> (r: Vec<RouteIR>)
    ensures
        route_irs_v(r@) == crate::route::routes_v(routes@).map_values(|x: RouteV| route_ir_of(x)),
{
    let mut out: Vec<RouteIR> = Vec::new();
    let mut i: usize = 0;
    while i < routes.len()
        invariant
            i <= routes.len(),
            out@.len() == i,
            forall|k: int| 0 <= k < i ==> (#[trigger] out@[k])@ == route_ir_of(routes@[k]@),
        decreases routes.len() - i,
    {
        out.push(RouteIR { to: clone_opt_string(&routes[i].to), out: routes[i].out });
        i = i + 1;
    }
    assert(route_irs_v(out@) =~= crate::route::routes_v(routes@).map_values(|x: RouteV| route_ir_of(x)));
    out
}

/// Reduces a document to its compact form.
pub fn to_ir(flow: FlowDoc) -> (r: Result<FlowIR, FlowError>)
    ensures
        match r {
            Ok(ir) => {
                &&& nodes_compact_of(flow@.nodes) == Ok::<_, Seq<char>>(ir@.nodes)
                &&& ir@.id == flow@.id
                &&& ir@.flow_type == flow@.flow_type
                &&& ir@.start == flow@.start
                &&& ir@.parameters == flow@.parameters
            },
            Err(e) => (nodes_compact_of(flow@.nodes) matches Err(id) && e matches FlowError::Internal {
                message,
                location,
            } && message@ == node_error_text(id, true).0 && location.path_v() == Some(node_error_text(id, true).1)),
        },
{
    proof {
        lemma_doc_nodes_v(flow.nodes@);
    }
    let ghost dn = flow@.nodes;
    let mut nodes: Vec<(String, NodeIR)> = Vec::new();
    let mut i: usize = 0;
    proof {
        assert(dn.subrange(0, 0) =~= Seq::<(Seq<char>, NodeDocV)>::empty());
        assert(node_irs_v(nodes@) =~= Seq::<(Seq<char>, NodeIRV)>::empty());
    }
    while i < flow.nodes.len()
        invariant
            i <= flow.nodes.len(),
            dn == doc_nodes_v(flow.nodes@),
            nodes_compact_of(dn.subrange(0, i as int)) == Ok::<_, Seq<char>>(node_irs_v(nodes@)),
        decreases flow.nodes.len() - i,
    {
        let ghost cur = dn.subrange(0, i + 1);
        proof {
            assert(cur.drop_last() =~= dn.subrange(0, i as int));
            assert(cur.last() == (flow.nodes@[i as int].0@, flow.nodes@[i as int].1@));
        }
        let id = &flow.nodes[i].0;
        let node = &flow.nodes[i].1;
        let routes = match routes_from_json(&node.routing) {
            Some(rs) => rs,
            None => {
                proof {
                    lemma_nodes_compact_prefix(dn, i + 1);
                }
                let (m, p) = routing_error(id);
                return Err(FlowError::internal(m, p));
            },
        };
        let n = NodeIR { component: node.component.clone(), payload_expr: deep_clone(&node.payload), routes: route_irs(&routes) };
        let ghost before = nodes@;
        let ghost nv = n@;
        insert_key(&mut nodes, id.clone(), n);
        proof {
            lemma_node_irs_v(before);
            lemma_node_irs_v(nodes@);
            lemma_ains_map(kv(before), id@, n, |x: NodeIR| x@);
        }
        i = i + 1;
    }
    proof {
        assert(dn.subrange(0, flow.nodes.len() as int) =~= dn);
    }
    let FlowDoc { id, flow_type, start, parameters, .. } = flow;
    Ok(FlowIR { id, flow_type, start, parameters, nodes })
}

fn routing_error(id: &String) -> (r: (String, String))
    ensures
        r.0@ == node_error_text(id@, true).0,
        r.1@ == node_error_text(id@, true).1,
{
    (
        concat3("routing decode for node '", id.as_str(), "': routes must be null or an array of route objects"),
        concat3("nodes.", id.as_str(), ".routing"),
    )
}

proof fn lemma_nodes_compact_prefix(nodes: Seq<(Seq<char>, NodeDocV)>, j: int)
    requires
        0 <= j <= nodes.len(),
        nodes_compact_of(nodes.subrange(0, j)) is Err,
    ensures
        nodes_compact_of(nodes) == nodes_compact_of(nodes.subrange(0, j)),
    decreases nodes.len(),
{
    if j < nodes.len() {
        assert(nodes.drop_last().subrange(0, j) =~= nodes.subrange(0, j));
        lemma_nodes_compact_prefix(nodes.drop_last(), j);
    } else {
        assert(nodes.subrange(0, j) =~= nodes);
    }
}

} // verus!
