//! Typed intermediate representation of flows, suitable for planning edits
//! before rendering back into a document.
use vstd::prelude::*;
use crate::assoc::{
    ains, aget, kv, keys_of, kseq, map_vals, sorted, sorted_insert, sorted_insert_v, insert_key,
    get_key, unique, lemma_ains_map, lemma_sorted_insert_map, lemma_kv_keys, lemma_sorted_insert_keys,
};
use crate::error::{FlowError, opt_str, clone_opt_string};
use crate::json::{JsonValue, JsonV, Entries, ev, jv, deep_clone, lemma_jv_entries};
use crate::model::{FlowDoc, FlowDocV, NodeDoc, NodeDocV, doc_nodes_v, opt_jv, clone_opt_json};
use crate::route::{Route, RouteV, routes_v, decode_routes, encode_routes, routes_from_json, routes_to_json, clone_routes, lemma_routes_roundtrip};
use crate::assoc::{seq_lt, key_index, lemma_lt_irrefl, lemma_sorted_insert_last, lemma_key_index};
use crate::text::{concat, concat3};

verus! {

/// A component invocation.
#[derive(Debug)]
pub struct ComponentRef {
    pub component_id: String,
    pub pack_alias: Option<String>,
    pub operation: Option<String>,
    pub payload: JsonValue,
}

/// What a node does.
#[derive(Debug)]
pub enum NodeKind {
    Component(ComponentRef),
    Questions { fields: JsonValue },
    Template { template: String },
    Other { component_id: String, payload: JsonValue },
}

#[derive(Debug)]
pub struct NodeIr {
    pub id: String,
    pub kind: NodeKind,
    pub routing: Vec<Route>,
}

/// A flow: named entry points and nodes, each in insertion order.
#[derive(Debug)]
pub struct FlowIr {
    pub id: String,
    pub kind: String,
    pub entrypoints: Vec<(String, String)>,
    pub nodes: Vec<(String, NodeIr)>,
    pub meta: Option<JsonValue>,
}

pub enum NodeKindV {
    Component {
        component_id: Seq<char>,
        pack_alias: Option<Seq<char>>,
        operation: Option<Seq<char>>,
        payload: JsonV,
    },
    Questions { fields: JsonV },
    Template { template: Seq<char> },
    Other { component_id: Seq<char>, payload: JsonV },
}

pub struct NodeIrV {
    pub id: Seq<char>,
    pub kind: NodeKindV,
    pub routing: Seq<RouteV>,
}

pub struct FlowIrV {
    pub id: Seq<char>,
    pub kind: Seq<char>,
    pub entrypoints: Seq<(Seq<char>, Seq<char>)>,
    pub nodes: Seq<(Seq<char>, NodeIrV)>,
    pub meta: Option<JsonV>,
}

impl View for NodeKind {
    type V = NodeKindV;

    open spec fn view(&self) -> NodeKindV {
        match *self {
            NodeKind::Component(c) => NodeKindV::Component {
                component_id: c.component_id@,
                pack_alias: opt_str(c.pack_alias),
                operation: opt_str(c.operation),
                payload: jv(c.payload),
            },
            NodeKind::Questions { fields } => NodeKindV::Questions { fields: jv(fields) },
            NodeKind::Template { template } => NodeKindV::Template { template: template@ },
            NodeKind::Other { component_id, payload } => NodeKindV::Other {
                component_id: component_id@,
                payload: jv(payload),
            },
        }
    }
}

impl View for NodeIr {
    type V = NodeIrV;

    open spec fn view(&self) -> NodeIrV {
        NodeIrV { id: self.id@, kind: self.kind@, routing: routes_v(self.routing@) }
    }
}

pub open spec fn ir_nodes_v(n: Seq<(String, NodeIr)>) -> Seq<(Seq<char>, NodeIrV)> {
    n.map_values(|x: (String, NodeIr)| (x.0@, x.1@))
}

pub open spec fn str_pairs_v(n: Seq<(String, String)>) -> Seq<(Seq<char>, Seq<char>)> {
    n.map_values(|x: (String, String)| (x.0@, x.1@))
}

impl View for FlowIr {
    type V = FlowIrV;

    open spec fn view(&self) -> FlowIrV {
        FlowIrV {
            id: self.id@,
            kind: self.kind@,
            entrypoints: str_pairs_v(self.entrypoints@),
            nodes: ir_nodes_v(self.nodes@),
            meta: opt_jv(self.meta),
        }
    }
}

impl FlowIr {
    /// Node keys and entry-point names occur once each.
    pub open spec fn wf(&self) -> bool {
        &&& unique(keys_of(self.nodes@))
        &&& unique(keys_of(self.entrypoints@))
    }
}

pub proof fn lemma_ir_nodes_v(n: Seq<(String, NodeIr)>)
    ensures
        ir_nodes_v(n) == map_vals(kv(n), |x: NodeIr| x@),
        kseq(ir_nodes_v(n)) == keys_of(n),
{
    assert(ir_nodes_v(n) =~= map_vals(kv(n), |x: NodeIr| x@));
    assert(kseq(ir_nodes_v(n)) =~= keys_of(n));
}

pub proof fn lemma_str_pairs_v(n: Seq<(String, String)>)
    ensures
        str_pairs_v(n) == map_vals(kv(n), |x: String| x@),
        kseq(str_pairs_v(n)) == keys_of(n),
{
    assert(str_pairs_v(n) =~= map_vals(kv(n), |x: String| x@));
    assert(kseq(str_pairs_v(n)) =~= keys_of(n));
}

pub proof fn lemma_doc_nodes_v(n: Seq<(String, NodeDoc)>)
    ensures
        doc_nodes_v(n) == map_vals(kv(n), |x: NodeDoc| x@),
        kseq(doc_nodes_v(n)) == keys_of(n),
{
    assert(doc_nodes_v(n) =~= map_vals(kv(n), |x: NodeDoc| x@));
    assert(kseq(doc_nodes_v(n)) =~= keys_of(n));
}

// ---------------------------------------------------------------------------
// Copies
// ---------------------------------------------------------------------------

pub fn clone_kind(k: &NodeKind) -> (r: NodeKind)
    ensures
        r@ == k@,
{
    match k {
        NodeKind::Component(c) => NodeKind::Component(
            ComponentRef {
                component_id: c.component_id.clone(),
                pack_alias: clone_opt_string(&c.pack_alias),
                operation: clone_opt_string(&c.operation),
                payload: deep_clone(&c.payload),
            },
        ),
        NodeKind::Questions { fields } => NodeKind::Questions { fields: deep_clone(fields) },
        NodeKind::Template { template } => NodeKind::Template { template: template.clone() },
        NodeKind::Other { component_id, payload } => NodeKind::Other {
            component_id: component_id.clone(),
            payload: deep_clone(payload),
        },
    }
}

pub fn clone_node(n: &NodeIr) -> (r: NodeIr)
    ensures
        r@ == n@,
{
    NodeIr { id: n.id.clone(), kind: clone_kind(&n.kind), routing: clone_routes(&n.routing) }
}

pub fn clone_nodes(n: &Vec<(String, NodeIr)>) -> (r: Vec<(String, NodeIr)>)
    ensures
        ir_nodes_v(r@) == ir_nodes_v(n@),
        keys_of(r@) == keys_of(n@),
{
    let mut r: Vec<(String, NodeIr)> = Vec::new();
    let mut i: usize = 0;
    while i < n.len()
        invariant
            i <= n.len(),
            r@.len() == i,
            forall|k: int|
                0 <= k < i ==> (#[trigger] r@[k]).0@ == n@[k].0@ && r@[k].1@ == n@[k].1@,
        decreases n.len() - i,
    {
        r.push((n[i].0.clone(), clone_node(&n[i].1)));
        i = i + 1;
    }
    assert(ir_nodes_v(r@) =~= ir_nodes_v(n@));
    assert(keys_of(r@) =~= keys_of(n@));
    r
}

pub fn clone_str_pairs(n: &Vec<(String, String)>) -> (r: Vec<(String, String)>)
    ensures
        str_pairs_v(r@) == str_pairs_v(n@),
        keys_of(r@) == keys_of(n@),
{
    let mut r: Vec<(String, String)> = Vec::new();
    let mut i: usize = 0;
    while i < n.len()
        invariant
            i <= n.len(),
            r@.len() == i,
            forall|k: int|
                0 <= k < i ==> (#[trigger] r@[k]).0@ == n@[k].0@ && r@[k].1@ == n@[k].1@,
        decreases n.len() - i,
    {
        r.push((n[i].0.clone(), n[i].1.clone()));
        i = i + 1;
    }
    assert(str_pairs_v(r@) =~= str_pairs_v(n@));
    assert(keys_of(r@) =~= keys_of(n@));
    r
}

// ---------------------------------------------------------------------------
// Document to IR
// ---------------------------------------------------------------------------

/// The kind of a node read from a document: `questions` and `template` are
/// built in, anything else is a component. A template must hold text.
pub open spec fn node_kind_of(d: NodeDocV) -> Option<NodeKindV> {
    if d.component == "questions"@ {
        Some(NodeKindV::Questions { fields: d.payload })
    } else if d.component == "template"@ {
        match d.payload {
            JsonV::Str(t) => Some(NodeKindV::Template { template: t }),
            _ => None,
        }
    } else {
        Some(
            NodeKindV::Component {
                component_id: d.component,
                pack_alias: d.pack_alias,
                operation: d.operation,
                payload: d.payload,
            },
        )
    }
}

/// A node of the IR made from a document node; `Err(true)` when its routing
/// does not decode, `Err(false)` when a template holds no text.
pub open spec fn node_ir_of(id: Seq<char>, d: NodeDocV) -> Result<NodeIrV, bool> {
    match decode_routes(d.routing) {
        None => Err(true),
        Some(r) => match node_kind_of(d) {
            None => Err(false),
            Some(k) => Ok(NodeIrV { id, kind: k, routing: r }),
        },
    }
}

/// All nodes, in document order; the first node that fails names the error.
pub open spec fn nodes_ir_of(nodes: Seq<(Seq<char>, NodeDocV)>) -> Result<
    Seq<(Seq<char>, NodeIrV)>,
    (Seq<char>, bool),
>
    decreases nodes.len(),
{
    if nodes.len() == 0 {
        Ok(Seq::empty())
    } else {
        match nodes_ir_of(nodes.drop_last()) {
            Err(e) => Err(e),
            Ok(acc) => match node_ir_of(nodes.last().0, nodes.last().1) {
                Err(b) => Err((nodes.last().0, b)),
                Ok(n) => Ok(ains(acc, nodes.last().0, n)),
            },
        }
    }
}

/// Entry points: `default` is the start node, else node `in`, else the first
/// node; then each entry point of the document whose target is text, in order.
pub open spec fn entrypoints_base(d: FlowDocV) -> Seq<(Seq<char>, Seq<char>)> {
    if d.start is Some {
        seq![("default"@, d.start->0)]
    } else if kseq(d.nodes).contains("in"@) {
        seq![("default"@, "in"@)]
    } else if d.nodes.len() > 0 {
        seq![("default"@, d.nodes[0].0)]
    } else {
        Seq::empty()
    }
}

pub open spec fn entrypoints_fold(acc: Seq<(Seq<char>, Seq<char>)>, eps: Entries) -> Seq<
    (Seq<char>, Seq<char>),
>
    decreases eps.len(),
{
    if eps.len() == 0 {
        acc
    } else {
        let prev = entrypoints_fold(acc, eps.drop_last());
        match eps.last().1 {
            JsonV::Str(t) => ains(prev, eps.last().0, t),
            _ => prev,
        }
    }
}

pub open spec fn resolve_entrypoints_v(d: FlowDocV) -> Seq<(Seq<char>, Seq<char>)> {
    entrypoints_fold(entrypoints_base(d), d.entrypoints)
}

/// The error `from_doc` gives for a node.
pub open spec fn node_error_text(id: Seq<char>, routing: bool) -> (Seq<char>, Seq<char>) {
    if routing {
        (
            "routing decode for node '"@ + id + "': routes must be null or an array of route objects"@,
            "nodes."@ + id + ".routing"@,
        )
    } else {
        ("template node payload must be a string"@, "nodes."@ + id + ".template"@)
    }
}

fn resolve_entrypoints(doc: &FlowDoc) -> (r: Vec<(String, String)>)
    ensures
        str_pairs_v(r@) == resolve_entrypoints_v(doc@),
{
    let mut entries: Vec<(String, String)> = Vec::new();
    proof {
        lemma_doc_nodes_v(doc.nodes@);
    }
    match &doc.start {
        Some(start) => {
            entries.push((String::from_str("default"), start.clone()));
        },
        None => {
            if crate::assoc::has_key(&doc.nodes, "in") {
                entries.push((String::from_str("default"), String::from_str("in")));
            } else if doc.nodes.len() > 0 {
                entries.push((String::from_str("default"), doc.nodes[0].0.clone()));
                proof {
                    assert(doc_nodes_v(doc.nodes@)[0].0 == doc.nodes@[0].0@);
                }
            }
        },
    }
    proof {
        assert(str_pairs_v(entries@) =~= entrypoints_base(doc@));
        lemma_jv_entries(doc.entrypoints@);
        assert(doc@.entrypoints.subrange(0, 0) =~= Seq::<(Seq<char>, JsonV)>::empty());
    }
    let mut i: usize = 0;
    while i < doc.entrypoints.len()
        invariant
            i <= doc.entrypoints.len(),
            ev(doc.entrypoints@).len() == doc.entrypoints@.len(),
            forall|k: int|
                0 <= k < doc.entrypoints@.len() ==> #[trigger] ev(doc.entrypoints@)[k] == (
                    doc.entrypoints@[k].0@,
                    jv(doc.entrypoints@[k].1),
                ),
            str_pairs_v(entries@) == entrypoints_fold(
                entrypoints_base(doc@),
                ev(doc.entrypoints@).subrange(0, i as int),
            ),
        decreases doc.entrypoints.len() - i,
    {
        let ghost pre = ev(doc.entrypoints@).subrange(0, i as int);
        let ghost cur = ev(doc.entrypoints@).subrange(0, i + 1);
        proof {
            assert(cur.drop_last() =~= pre);
            assert(cur.last() == ev(doc.entrypoints@)[i as int]);
        }
        match &doc.entrypoints[i].1 {
            JsonValue::String(t) => {
                let ghost before = entries@;
                insert_key(&mut entries, doc.entrypoints[i].0.clone(), t.clone());
                proof {
                    lemma_str_pairs_v(before);
                    lemma_str_pairs_v(entries@);
                    lemma_ains_map(kv(before), doc.entrypoints@[i as int].0@, *t, |x: String| x@);
                }
            },
            _ => {},
        }
        i = i + 1;
    }
    proof {
        assert(ev(doc.entrypoints@).subrange(0, doc.entrypoints.len() as int) =~= ev(
            doc.entrypoints@,
        ));
    }
    entries
}

fn node_from_doc(id: &String, d: &NodeDoc) -> (r: Result<NodeIr, bool>)
    ensures
        match r {
            Ok(n) => node_ir_of(id@, d@) == Ok::<NodeIrV, bool>(n@),
            Err(b) => node_ir_of(id@, d@) == Err::<NodeIrV, bool>(b),
        },
{
    let routing = match routes_from_json(&d.routing) {
        Some(r) => r,
        None => {
            return Err(true);
        },
    };
    let kind = if crate::text::str_eq(d.component.as_str(), "questions") {
        NodeKind::Questions { fields: deep_clone(&d.payload) }
    } else if crate::text::str_eq(d.component.as_str(), "template") {
        match &d.payload {
            JsonValue::String(t) => NodeKind::Template { template: t.clone() },
            _ => {
                return Err(false);
            },
        }
    } else {
        NodeKind::Component(
            ComponentRef {
                component_id: d.component.clone(),
                pack_alias: clone_opt_string(&d.pack_alias),
                operation: clone_opt_string(&d.operation),
                payload: deep_clone(&d.payload),
            },
        )
    };
    Ok(NodeIr { id: id.clone(), kind, routing })
}

impl FlowIr {
    /// Builds the IR of a document.
    pub fn from_doc(doc: FlowDoc) -> (r: Result<FlowIr, FlowError>)
        ensures
            match r {
                Ok(ir) => {
                    &&& nodes_ir_of(doc@.nodes) == Ok::<_, (Seq<char>, bool)>(ir@.nodes)
                    &&& ir@.entrypoints == resolve_entrypoints_v(doc@)
                    &&& ir@.id == doc@.id
                    &&& ir@.kind == doc@.flow_type
                    &&& ir@.meta == doc@.meta
                },
                Err(e) => nodes_ir_of(doc@.nodes) matches Err((id, routing)) && e matches FlowError::Internal {
                    message,
                    location,
                } && message@ == node_error_text(id, routing).0 && location.path_v() == Some(
                    node_error_text(id, routing).1,
                ) && location.line is None && location.column is None,
            },
    {
        let entrypoints = resolve_entrypoints(&doc);
        let mut nodes: Vec<(String, NodeIr)> = Vec::new();
        let ghost dn = doc@.nodes;
        proof {
            assert(dn.subrange(0, 0) =~= Seq::<(Seq<char>, NodeDocV)>::empty());
            assert(ir_nodes_v(nodes@) =~= Seq::<(Seq<char>, NodeIrV)>::empty());
        }
        let mut i: usize = 0;
        while i < doc.nodes.len()
            invariant
                i <= doc.nodes.len(),
                dn == doc@.nodes,
                dn == doc_nodes_v(doc.nodes@),
                nodes_ir_of(dn.subrange(0, i as int)) == Ok::<_, (Seq<char>, bool)>(
                    ir_nodes_v(nodes@),
                ),
            decreases doc.nodes.len() - i,
        {
            let ghost pre = dn.subrange(0, i as int);
            let ghost cur = dn.subrange(0, i + 1);
            proof {
                assert(cur.drop_last() =~= pre);
                assert(cur.last() == (doc.nodes@[i as int].0@, doc.nodes@[i as int].1@));
            }
            match node_from_doc(&doc.nodes[i].0, &doc.nodes[i].1) {
                Ok(n) => {
                    let ghost before = nodes@;
                    let ghost nv = n@;
                    insert_key(&mut nodes, doc.nodes[i].0.clone(), n);
                    proof {
                        lemma_ir_nodes_v(before);
                        lemma_ir_nodes_v(nodes@);
                        lemma_ains_map(kv(before), doc.nodes@[i as int].0@, n, |x: NodeIr| x@);
                    }
                },
                Err(routing) => {
                    proof {
                        lemma_prefix_error(dn, i as int + 1);
                    }
                    let id = &doc.nodes[i].0;
                    if routing {
                        let mut m = String::from_str("routing decode for node '");
                        m.append(id.as_str());
                        m.append("': routes must be null or an array of route objects");
                        return Err(FlowError::internal(m, concat3("nodes.", id.as_str(), ".routing")));
                    } else {
                        return Err(
                            FlowError::internal(
                                String::from_str("template node payload must be a string"),
                                concat3("nodes.", id.as_str(), ".template"),
                            ),
                        );
                    }
                },
            }
            i = i + 1;
        }
        proof {
            assert(dn.subrange(0, doc.nodes.len() as int) =~= dn);
        }
        let FlowDoc { id, flow_type, meta, .. } = doc;
        Ok(FlowIr { id, kind: flow_type, entrypoints, nodes, meta })
    }
}

/// Once a prefix of the nodes fails, the whole fails the same way.
proof fn lemma_prefix_error(s: Seq<(Seq<char>, NodeDocV)>, n: int)
    requires
        0 <= n <= s.len(),
        nodes_ir_of(s.subrange(0, n)) is Err,
    ensures
        nodes_ir_of(s) == nodes_ir_of(s.subrange(0, n)),
    decreases s.len() - n,
{
    if n < s.len() {
        let t = s.subrange(0, n + 1);
        assert(t.drop_last() =~= s.subrange(0, n));
        lemma_prefix_error(s, n + 1);
    } else {
        assert(s.subrange(0, n) =~= s);
    }
}


// ---------------------------------------------------------------------------
// IR to document
// ---------------------------------------------------------------------------

/// The raw keys of a component node: its component, then `pack_alias` and
/// `operation` where present, kept in key order.
pub open spec fn raw_component(cid: Seq<char>, payload: JsonV, alias: Option<Seq<char>>, op: Option<Seq<char>>) -> Entries {
    let r0 = sorted_insert_v(Seq::<(Seq<char>, JsonV)>::empty(), cid, payload);
    let r1 = match alias {
        Some(a) => sorted_insert_v(r0, "pack_alias"@, JsonV::Str(a)),
        None => r0,
    };
    match op {
        Some(o) => sorted_insert_v(r1, "operation"@, JsonV::Str(o)),
        None => r1,
    }
}

/// The document node of an IR node.
pub open spec fn node_doc_of(n: NodeIrV) -> NodeDocV {
    let routing = encode_routes(n.routing);
    match n.kind {
        NodeKindV::Component { component_id, pack_alias, operation, payload } => NodeDocV {
            component: component_id,
            pack_alias,
            operation,
            payload,
            routing,
            output: None,
            telemetry: None,
            raw: raw_component(component_id, payload, pack_alias, operation),
        },
        NodeKindV::Questions { fields } => NodeDocV {
            component: "questions"@,
            pack_alias: None,
            operation: None,
            payload: fields,
            routing,
            output: None,
            telemetry: None,
            raw: seq![("questions"@, fields)],
        },
        NodeKindV::Template { template } => NodeDocV {
            component: "template"@,
            pack_alias: None,
            operation: None,
            payload: JsonV::Str(template),
            routing,
            output: None,
            telemetry: None,
            raw: seq![("template"@, JsonV::Str(template))],
        },
        NodeKindV::Other { component_id, payload } => NodeDocV {
            component: component_id,
            pack_alias: None,
            operation: None,
            payload,
            routing,
            output: None,
            telemetry: None,
            raw: seq![(component_id, payload)],
        },
    }
}

/// The document's nodes: each IR node converted, put in key order.
pub open spec fn doc_nodes_of(nodes: Seq<(Seq<char>, NodeIrV)>) -> Seq<(Seq<char>, NodeDocV)>
    decreases nodes.len(),
{
    if nodes.len() == 0 {
        Seq::empty()
    } else {
        sorted_insert_v(
            doc_nodes_of(nodes.drop_last()),
            nodes.last().0,
            node_doc_of(nodes.last().1),
        )
    }
}

/// The document of an IR: its `default` entry point becomes the start node;
/// titles, tags, parameters and other entry points are not kept.
pub open spec fn to_doc_v(ir: FlowIrV) -> FlowDocV {
    FlowDocV {
        id: ir.id,
        title: None,
        description: None,
        flow_type: ir.kind,
        start: aget(ir.entrypoints, "default"@),
        parameters: JsonV::Object(Seq::empty()),
        tags: Seq::empty(),
        entrypoints: Seq::empty(),
        meta: ir.meta,
        nodes: doc_nodes_of(ir.nodes),
    }
}

pub proof fn lemma_ev_kv(e: Seq<(String, JsonValue)>)
    ensures
        ev(e) == map_vals(kv(e), |v: JsonValue| jv(v)),
        kseq(ev(e)) == keys_of(e),
{
    lemma_jv_entries(e);
    assert(ev(e) =~= map_vals(kv(e), |v: JsonValue| jv(v)));
    assert(kseq(ev(e)) =~= keys_of(e));
}

/// Sorted insertion into an object's entry list, in the model.
pub(crate) fn raw_insert(e: &mut Vec<(String, JsonValue)>, key: String, value: JsonValue)
    requires
        sorted(keys_of(old(e)@)),
    ensures
        sorted(keys_of(final(e)@)),
        ev(final(e)@) == sorted_insert_v(ev(old(e)@), key@, jv(value)),
{
    let ghost before = e@;
    let ghost k = key@;
    let ghost vv = value;
    sorted_insert(e, key, value);
    proof {
        lemma_ev_kv(before);
        lemma_ev_kv(e@);
        lemma_sorted_insert_map(kv(before), k, vv, |v: JsonValue| jv(v));
    }
}

fn node_to_doc(n: &NodeIr) -> (d: NodeDoc)
    ensures
        d@ == node_doc_of(n@),
        sorted(keys_of(d.raw@)),
{
    let routing = routes_to_json(&n.routing);
    let mut raw: Vec<(String, JsonValue)> = Vec::new();
    proof {
        assert(keys_of(raw@) =~= Seq::<Seq<char>>::empty());
        assert(ev(raw@) =~= Seq::<(Seq<char>, JsonV)>::empty());
    }
    match &n.kind {
        NodeKind::Component(c) => {
            raw_insert(&mut raw, c.component_id.clone(), deep_clone(&c.payload));
            match &c.pack_alias {
                Some(a) => raw_insert(&mut raw, String::from_str("pack_alias"), JsonValue::String(a.clone())),
                None => {},
            }
            match &c.operation {
                Some(o) => raw_insert(&mut raw, String::from_str("operation"), JsonValue::String(o.clone())),
                None => {},
            }
            NodeDoc {
                component: c.component_id.clone(),
                pack_alias: clone_opt_string(&c.pack_alias),
                operation: clone_opt_string(&c.operation),
                payload: deep_clone(&c.payload),
                routing,
                output: None,
                telemetry: None,
                raw,
            }
        },
        NodeKind::Questions { fields } => {
            raw.push((String::from_str("questions"), deep_clone(fields)));
            proof {
                lemma_jv_entries(raw@);
                assert(ev(raw@) =~= seq![("questions"@, jv(*fields))]);
            }
            NodeDoc {
                component: String::from_str("questions"),
                pack_alias: None,
                operation: None,
                payload: deep_clone(fields),
                routing,
                output: None,
                telemetry: None,
                raw,
            }
        },
        NodeKind::Template { template } => {
            raw.push((String::from_str("template"), JsonValue::String(template.clone())));
            proof {
                lemma_jv_entries(raw@);
                assert(ev(raw@) =~= seq![("template"@, JsonV::Str(template@))]);
            }
            NodeDoc {
                component: String::from_str("template"),
                pack_alias: None,
                operation: None,
                payload: JsonValue::String(template.clone()),
                routing,
                output: None,
                telemetry: None,
                raw,
            }
        },
        NodeKind::Other { component_id, payload } => {
            raw.push((component_id.clone(), deep_clone(payload)));
            proof {
                lemma_jv_entries(raw@);
                assert(ev(raw@) =~= seq![(component_id@, jv(*payload))]);
            }
            NodeDoc {
                component: component_id.clone(),
                pack_alias: None,
                operation: None,
                payload: deep_clone(payload),
                routing,
                output: None,
                telemetry: None,
                raw,
            }
        },
    }
}

impl FlowIr {
    /// Renders the IR back into a document.
    pub fn to_doc(&self) -> (r: Result<FlowDoc, FlowError>)
        ensures
            r matches Ok(d) && d@ == to_doc_v(self@) && d.wf(),
    {
        let mut nodes: Vec<(String, NodeDoc)> = Vec::new();
        let ghost irn = self@.nodes;
        proof {
            assert(irn.subrange(0, 0) =~= Seq::<(Seq<char>, NodeIrV)>::empty());
            assert(doc_nodes_v(nodes@) =~= Seq::<(Seq<char>, NodeDocV)>::empty());
            assert(keys_of(nodes@) =~= Seq::<Seq<char>>::empty());
        }
        let mut i: usize = 0;
        while i < self.nodes.len()
            invariant
                i <= self.nodes.len(),
                irn == ir_nodes_v(self.nodes@),
                sorted(keys_of(nodes@)),
                doc_nodes_v(nodes@) == doc_nodes_of(irn.subrange(0, i as int)),
            decreases self.nodes.len() - i,
        {
            let d = node_to_doc(&self.nodes[i].1);
            let ghost before = nodes@;
            let ghost dd = d;
            sorted_insert(&mut nodes, self.nodes[i].0.clone(), d);
            proof {
                let cur = irn.subrange(0, i + 1);
                assert(cur.drop_last() =~= irn.subrange(0, i as int));
                assert(cur.last() == (self.nodes@[i as int].0@, self.nodes@[i as int].1@));
                lemma_doc_nodes_v(before);
                lemma_doc_nodes_v(nodes@);
                lemma_sorted_insert_map(kv(before), self.nodes@[i as int].0@, dd, |x: NodeDoc| x@);
            }
            i = i + 1;
        }
        proof {
            assert(irn.subrange(0, self.nodes.len() as int) =~= irn);
            lemma_str_pairs_v(self.entrypoints@);
        }
        let start = match get_key(&self.entrypoints, "default") {
            Some(s) => Some(s.clone()),
            None => None,
        };
        proof {
            let ep = self.entrypoints@;
            crate::assoc::lemma_aget_map(kv(ep), "default"@, |x: String| x@);
        }
        let d = FlowDoc {
            id: self.id.clone(),
            title: None,
            description: None,
            flow_type: self.kind.clone(),
            start,
            parameters: JsonValue::empty_object(),
            tags: Vec::new(),
            entrypoints: Vec::new(),
            meta: clone_opt_json(&self.meta),
            nodes,
        };
        proof {
            assert(d@.tags =~= Seq::<Seq<char>>::empty());
            assert(ev(d.entrypoints@) =~= Seq::<(Seq<char>, JsonV)>::empty());
        }
        Ok(d)
    }
}


// ---------------------------------------------------------------------------
// Round trip
// ---------------------------------------------------------------------------

/// A node that a document can carry back unchanged: its identifier is its
/// key, it is not of the catch-all kind, and a component is not named like
/// a built-in.
pub open spec fn doc_safe(k: Seq<char>, n: NodeIrV) -> bool {
    &&& n.id == k
    &&& !(n.kind is Other)
    &&& (n.kind matches NodeKindV::Component { component_id, .. } ==> component_id != "questions"@ && component_id
        != "template"@)
}

pub open spec fn docs_of_sorted(nodes: Seq<(Seq<char>, NodeIrV)>) -> Seq<(Seq<char>, NodeDocV)> {
    nodes.map_values(|x: (Seq<char>, NodeIrV)| (x.0, node_doc_of(x.1)))
}

proof fn lemma_doc_nodes_sorted(nodes: Seq<(Seq<char>, NodeIrV)>)
    requires
        sorted(kseq(nodes)),
    ensures
        doc_nodes_of(nodes) == docs_of_sorted(nodes),
    decreases nodes.len(),
{
    if nodes.len() > 0 {
        let d = nodes.drop_last();
        assert(kseq(d) =~= kseq(nodes).drop_last());
        assert(sorted(kseq(d)));
        lemma_doc_nodes_sorted(d);
        let k = nodes.last().0;
        assert forall|j: int| 0 <= j < docs_of_sorted(d).len() implies seq_lt(#[trigger] docs_of_sorted(d)[j].0, k) by {
            assert(docs_of_sorted(d)[j].0 == kseq(nodes)[j]);
            assert(kseq(nodes)[nodes.len() - 1] == k);
        }
        lemma_sorted_insert_last(docs_of_sorted(d), k, node_doc_of(nodes.last().1));
        assert(docs_of_sorted(d).push((k, node_doc_of(nodes.last().1))) =~= docs_of_sorted(nodes));
    }
}

proof fn lemma_nodes_ir_back(nodes: Seq<(Seq<char>, NodeIrV)>)
    requires
        sorted(kseq(nodes)),
        forall|i: int| 0 <= i < nodes.len() ==> doc_safe(#[trigger] nodes[i].0, nodes[i].1),
    ensures
        nodes_ir_of(docs_of_sorted(nodes)) == Ok::<_, (Seq<char>, bool)>(nodes),
    decreases nodes.len(),
{
    if nodes.len() > 0 {
        let d = nodes.drop_last();
        assert(kseq(d) =~= kseq(nodes).drop_last());
        assert forall|i: int| 0 <= i < d.len() implies doc_safe(#[trigger] d[i].0, d[i].1) by {
            assert(d[i] == nodes[i]);
        }
        lemma_nodes_ir_back(d);
        let m = docs_of_sorted(nodes);
        assert(m.drop_last() =~= docs_of_sorted(d));
        let (k, n) = nodes.last();
        assert(doc_safe(nodes[nodes.len() - 1].0, nodes[nodes.len() - 1].1));
        lemma_routes_roundtrip(n.routing);
        assert(nodes.last() == nodes[nodes.len() - 1]);
        assert(n.id == k);
        let dd = node_doc_of(n);
        assert(decode_routes(dd.routing) == Some(n.routing));
        match n.kind {
            NodeKindV::Component { component_id, pack_alias, operation, payload } => {
                assert(dd.component == component_id);
                assert(node_kind_of(dd) == Some(n.kind));
            },
            NodeKindV::Questions { fields } => {
                assert(node_kind_of(dd) == Some(n.kind));
            },
            NodeKindV::Template { template } => {
                reveal_strlit("questions");
                reveal_strlit("template");
                assert("template"@[0] != "questions"@[0]);
                assert("template"@ != "questions"@);
                assert(node_kind_of(dd) == Some(n.kind));
            },
            NodeKindV::Other { .. } => {},
        }
        assert(node_ir_of(k, dd) == Ok::<NodeIrV, bool>(NodeIrV { id: k, kind: n.kind, routing: n.routing }));
        assert(NodeIrV { id: k, kind: n.kind, routing: n.routing } == n);
        lemma_key_index(kseq(d), k);
        if kseq(d).contains(k) {
            let j = choose|j: int| 0 <= j < kseq(d).len() && kseq(d)[j] == k;
            assert(kseq(nodes)[j] == k);
            assert(kseq(nodes)[nodes.len() - 1] == k);
            lemma_lt_irrefl(k);
        }
        assert(m.last() == (k, dd));
        assert(key_index(kseq(d), k) == -1);
        assert(ains(d, k, n) == d.push((k, n)));
        assert(d.push((k, n)) =~= nodes);
    } else {
        assert(docs_of_sorted(nodes) =~= Seq::<(Seq<char>, NodeDocV)>::empty());
        assert(nodes =~= Seq::<(Seq<char>, NodeIrV)>::empty());
    }
}

/// A flow survives being written to a document and read back: for nodes in
/// key order that are their own keys and not of the catch-all kind, and a
/// single `default` entry point, reading the document gives back the same
/// nodes, entry points, identifier, kind and metadata.
pub proof fn law_doc_roundtrip(ir: FlowIrV)
    requires
        sorted(kseq(ir.nodes)),
        forall|i: int| 0 <= i < ir.nodes.len() ==> doc_safe(#[trigger] ir.nodes[i].0, ir.nodes[i].1),
        ir.entrypoints.len() == 1,
        ir.entrypoints[0].0 == "default"@,
    ensures
        nodes_ir_of(to_doc_v(ir).nodes) == Ok::<_, (Seq<char>, bool)>(ir.nodes),
        resolve_entrypoints_v(to_doc_v(ir)) == ir.entrypoints,
        to_doc_v(ir).id == ir.id,
        to_doc_v(ir).flow_type == ir.kind,
        to_doc_v(ir).meta == ir.meta,
{
    lemma_doc_nodes_sorted(ir.nodes);
    lemma_nodes_ir_back(ir.nodes);
    let e = ir.entrypoints;
    assert(kseq(e) =~= seq!["default"@]);
    lemma_key_index(kseq(e), "default"@);
    assert(aget(e, "default"@) == Some(e[0].1));
    assert(entrypoints_base(to_doc_v(ir)) =~= e);
}

} // verus!
