//! A YGTC flow document as it is read from and written to YAML.
use vstd::prelude::*;
use crate::assoc::{keys_of, sorted};
use crate::error::opt_str;
use crate::json::{JsonValue, JsonV, Entries, ev, jv};

verus! {

/// One node of a document. `component` and `payload` are the node's single
/// component key and its value; `raw` holds the node's keys as read, before
/// they are sorted out.
#[derive(Debug)]
pub struct NodeDoc {
    pub component: String,
    pub pack_alias: Option<String>,
    pub operation: Option<String>,
    pub payload: JsonValue,
    pub routing: JsonValue,
    pub output: Option<JsonValue>,
    pub telemetry: Option<JsonValue>,
    pub raw: Vec<(String, JsonValue)>,
}

/// A flow document. `nodes` is kept in key order.
#[derive(Debug)]
pub struct FlowDoc {
    pub id: String,
    pub title: Option<String>,
    pub description: Option<String>,
    pub flow_type: String,
    pub start: Option<String>,
    pub parameters: JsonValue,
    pub tags: Vec<String>,
    pub entrypoints: Vec<(String, JsonValue)>,
    pub meta: Option<JsonValue>,
    pub nodes: Vec<(String, NodeDoc)>,
}

pub open spec fn opt_jv(o: Option<JsonValue>) -> Option<JsonV> {
    match o {
        Some(v) => Some(jv(v)),
        None => None,
    }
}

pub struct NodeDocV {
    pub component: Seq<char>,
    pub pack_alias: Option<Seq<char>>,
    pub operation: Option<Seq<char>>,
    pub payload: JsonV,
    pub routing: JsonV,
    pub output: Option<JsonV>,
    pub telemetry: Option<JsonV>,
    pub raw: Entries,
}

impl View for NodeDoc {
    type V = NodeDocV;

    open spec fn view(&self) -> NodeDocV {
        NodeDocV {
            component: self.component@,
            pack_alias: opt_str(self.pack_alias),
            operation: opt_str(self.operation),
            payload: jv(self.payload),
            routing: jv(self.routing),
            output: opt_jv(self.output),
            telemetry: opt_jv(self.telemetry),
            raw: ev(self.raw@),
        }
    }
}

pub open spec fn doc_nodes_v(n: Seq<(String, NodeDoc)>) -> Seq<(Seq<char>, NodeDocV)> {
    n.map_values(|x: (String, NodeDoc)| (x.0@, x.1@))
}

pub open spec fn strs_v(s: Seq<String>) -> Seq<Seq<char>> {
    s.map_values(|x: String| x@)
}

pub proof fn lemma_strs_push(s: Seq<String>, x: String)
    ensures
        strs_v(s.push(x)) == strs_v(s).push(x@),
{
    assert(strs_v(s.push(x)) =~= strs_v(s).push(x@));
}

pub struct FlowDocV {
    pub id: Seq<char>,
    pub title: Option<Seq<char>>,
    pub description: Option<Seq<char>>,
    pub flow_type: Seq<char>,
    pub start: Option<Seq<char>>,
    pub parameters: JsonV,
    pub tags: Seq<Seq<char>>,
    pub entrypoints: Entries,
    pub meta: Option<JsonV>,
    pub nodes: Seq<(Seq<char>, NodeDocV)>,
}

impl View for FlowDoc {
    type V = FlowDocV;

    open spec fn view(&self) -> FlowDocV {
        FlowDocV {
            id: self.id@,
            title: opt_str(self.title),
            description: opt_str(self.description),
            flow_type: self.flow_type@,
            start: opt_str(self.start),
            parameters: jv(self.parameters),
            tags: strs_v(self.tags@),
            entrypoints: ev(self.entrypoints@),
            meta: opt_jv(self.meta),
            nodes: doc_nodes_v(self.nodes@),
        }
    }
}

impl FlowDoc {
    /// The nodes are in key order, as a `BTreeMap` keeps them.
    pub open spec fn wf(&self) -> bool {
        sorted(keys_of(self.nodes@))
    }
}

pub fn clone_opt_json(o: &Option<JsonValue>) -> (r: Option<JsonValue>)
    ensures
        opt_jv(r) == opt_jv(*o),
{
    match o {
        Some(v) => Some(crate::json::deep_clone(v)),
        None => None,
    }
}

} // verus!
