//! Loading a flow document from its JSON form: schema findings become one
//! error, the document's fields are read, each node's keys are sorted out
//! into its component, payload and settings, and every route must lead to a
//! node (or `out`).
use vstd::prelude::*;
use crate::assoc::{kv, kseq, keys_of, sorted, sorted_insert, sorted_insert_v, seq_lt, lemma_sorted_insert_keys, lemma_sorted_insert_map};
use crate::error::{FlowError, FlowErrorLocation, SchemaErrorDetail, opt_str};
use crate::flow_ir::{raw_insert, lemma_ev_kv, lemma_doc_nodes_v, str_pairs_v, lemma_str_pairs_v};
use crate::json_text::{json_text, json_text_v};
use crate::json::{JsonValue, JsonV, Entries, ev, jv, jv_seq, obj_get_v, obj_get, lemma_jv_entries, lemma_jv_seq, deep_clone, clone_entries};
use crate::model::{FlowDoc, FlowDocV, NodeDoc, NodeDocV, doc_nodes_v, opt_jv, strs_v, lemma_strs_push};
use crate::route::{RouteV, decode_routes, routes_from_json, routes_v};
use crate::text::{concat, concat3, str_eq};
use crate::util::{valid_component_key, is_valid_component_key};

verus! {

// ---------------------------------------------------------------------------
// Schema findings
// ---------------------------------------------------------------------------

/// A finding's JSON pointer, `/` for the whole document.
pub open spec fn pointer_v(p: Seq<char>) -> Seq<char> {
    if p.len() == 0 {
        "/"@
    } else {
        p
    }
}

/// One finding as a line: where, then the message.
pub open spec fn schema_line(label: Seq<char>, f: (Seq<char>, Seq<char>)) -> Seq<char> {
    label + pointer_v(f.0) + ": "@ + f.1
}

/// The findings' lines joined by newlines.
pub open spec fn schema_message(label: Seq<char>, fs: Seq<(Seq<char>, Seq<char>)>) -> Seq<char>
    decreases fs.len(),
{
    if fs.len() == 0 {
        Seq::empty()
    } else if fs.len() == 1 {
        schema_line(label, fs[0])
    } else {
        schema_message(label, fs.drop_last()) + "\n"@ + schema_line(label, fs.last())
    }
}

/// The error for a document that its schema refuses; `findings` are the
/// violations, each as its JSON pointer and its message, in the order the
/// validator gave them. No findings, no error.
pub fn schema_error(findings: &Vec<(String, String)>, source_label: &str) -> (r: Option<FlowError>)
    ensures
        r is None <==> findings@.len() == 0,
        r matches Some(e) ==> (e matches FlowError::Schema { message, details, location } && message@ == schema_message(
            source_label@,
            str_pairs_v(findings@),
        ) && details@.len() == findings@.len() && (forall|i: int|
            0 <= i < findings@.len() ==> (#[trigger] details@[i]).message@ == findings@[i].1@
                && details@[i].location.path_v() == Some(source_label@ + pointer_v(findings@[i].0@))
                && details@[i].location.line is None && details@[i].location.column is None)
            && location.path_v() == Some(source_label@) && location.line is None && location.column is None),
{
    if findings.len() == 0 {
        return None;
    }
    proof {
        reveal_strlit("/");
        lemma_str_pairs_v(findings@);
    }
    let ghost fv = str_pairs_v(findings@);
    let mut details: Vec<SchemaErrorDetail> = Vec::new();
    let mut message = String::new();
    let mut i: usize = 0;
    while i < findings.len()
        invariant
            i <= findings.len(),
            fv == str_pairs_v(findings@),
            fv.len() == findings@.len(),
            forall|k: int| 0 <= k < findings@.len() ==> #[trigger] fv[k] == (findings@[k].0@, findings@[k].1@),
            message@ == schema_message(source_label@, fv.subrange(0, i as int)),
            details@.len() == i,
            forall|k: int|
                0 <= k < i ==> (#[trigger] details@[k]).message@ == findings@[k].1@
                    && details@[k].location.path_v() == Some(source_label@ + pointer_v(findings@[k].0@))
                    && details@[k].location.line is None && details@[k].location.column is None,
        decreases findings.len() - i,
    {
        let ghost cur = fv.subrange(0, i + 1);
        proof {
            assert(cur.drop_last() =~= fv.subrange(0, i as int));
            assert(cur.last() == fv[i as int]);
        }
        let pointer = &findings[i].0;
        let where_str = if pointer.unicode_len() == 0 {
            concat(source_label, "/")
        } else {
            concat(source_label, pointer.as_str())
        };
        if i > 0 {
            message.append("\n");
        }
        message.append(where_str.as_str());
        message.append(": ");
        message.append(findings[i].1.as_str());
        proof {
            if i == 0 {
                assert(cur.len() == 1 && cur[0] == cur.last());
            }
            assert(message@ =~= schema_message(source_label@, cur));
        }
        details.push(SchemaErrorDetail { message: findings[i].1.clone(), location: FlowErrorLocation::at_path(where_str) });
        i = i + 1;
    }
    proof {
        assert(fv.subrange(0, findings.len() as int) =~= fv);
    }
    Some(
        FlowError::Schema {
            message,
            details,
            location: FlowErrorLocation::at_path(String::from_str(source_label)),
        },
    )
}

// ---------------------------------------------------------------------------
// Reading the document's fields
// ---------------------------------------------------------------------------

/// Entries in key order; a later entry with the same key replaces an
/// earlier one.
pub open spec fn sort_entries(e: Entries) -> Entries
    decreases e.len(),
{
    if e.len() == 0 {
        Seq::empty()
    } else {
        sorted_insert_v(sort_entries(e.drop_last()), e.last().0, e.last().1)
    }
}

pub open spec fn ekeys(e: Entries) -> Seq<Seq<char>> {
    e.map_values(|x: (Seq<char>, JsonV)| x.0)
}

proof fn lemma_sort_entries_sorted(e: Entries)
    ensures
        sorted(ekeys(sort_entries(e))),
    decreases e.len(),
{
    if e.len() > 0 {
        lemma_sort_entries_sorted(e.drop_last());
        lemma_sorted_insert_keys(sort_entries(e.drop_last()), e.last().0, e.last().1);
    } else {
        assert(ekeys(sort_entries(e)) =~= Seq::<Seq<char>>::empty());
    }
}

/// A sorted copy of an object's entries.
fn sorted_entries(e: &Vec<(String, JsonValue)>) -> (r: Vec<(String, JsonValue)>)
    ensures
        ev(r@) == sort_entries(ev(e@)),
        sorted(keys_of(r@)),
{
    proof {
        lemma_jv_entries(e@);
    }
    let ghost src = ev(e@);
    let mut out: Vec<(String, JsonValue)> = Vec::new();
    let mut i: usize = 0;
    proof {
        assert(src.subrange(0, 0) =~= Seq::<(Seq<char>, JsonV)>::empty());
        assert(ev(out@) =~= Seq::<(Seq<char>, JsonV)>::empty());
        assert(keys_of(out@) =~= Seq::<Seq<char>>::empty());
    }
    while i < e.len()
        invariant
            i <= e.len(),
            src == ev(e@),
            src.len() == e@.len(),
            forall|k: int| 0 <= k < e@.len() ==> #[trigger] src[k] == (e@[k].0@, jv(e@[k].1)),
            ev(out@) == sort_entries(src.subrange(0, i as int)),
            sorted(keys_of(out@)),
        decreases e.len() - i,
    {
        let ghost cur = src.subrange(0, i + 1);
        proof {
            assert(cur.drop_last() =~= src.subrange(0, i as int));
            assert(cur.last() == src[i as int]);
        }
        raw_insert(&mut out, e[i].0.clone(), deep_clone(&e[i].1));
        i = i + 1;
    }
    proof {
        assert(src.subrange(0, e.len() as int) =~= src);
    }
    out
}

/// A required text field.
pub open spec fn req_text(v: Option<JsonV>) -> Option<Seq<char>> {
    match v {
        Some(JsonV::Str(s)) => Some(s),
        _ => None,
    }
}

/// An optional text field: absent or null is none.
pub open spec fn opt_text(v: Option<JsonV>) -> Option<Option<Seq<char>>> {
    match v {
        None => Some(None),
        Some(JsonV::Null) => Some(None),
        Some(JsonV::Str(s)) => Some(Some(s)),
        _ => None,
    }
}

/// A list of texts.
pub open spec fn text_items(items: Seq<JsonV>) -> Option<Seq<Seq<char>>>
    decreases items.len(),
{
    if items.len() == 0 {
        Some(Seq::empty())
    } else {
        match (text_items(items.drop_last()), items.last()) {
            (Some(prev), JsonV::Str(s)) => Some(prev.push(s)),
            _ => None,
        }
    }
}

/// The node list as read: each node an object, its keys sorted; all other
/// fields are filled in once the keys are sorted out.
pub open spec fn raw_nodes(e: Entries) -> Option<Seq<(Seq<char>, NodeDocV)>>
    decreases e.len(),
{
    if e.len() == 0 {
        Some(Seq::empty())
    } else {
        match (raw_nodes(e.drop_last()), e.last().1) {
            (Some(prev), JsonV::Object(raw)) => Some(sorted_insert_v(prev, e.last().0, fresh_node(sort_entries(raw)))),
            _ => None,
        }
    }
}

/// A node holding only its keys as read.
pub open spec fn fresh_node(raw: Entries) -> NodeDocV {
    NodeDocV {
        component: Seq::empty(),
        pack_alias: None,
        operation: None,
        payload: JsonV::Null,
        routing: JsonV::Null,
        output: None,
        telemetry: None,
        raw,
    }
}

pub open spec fn missing_field(name: Seq<char>) -> Seq<char> {
    "missing field `"@ + name + "`"@
}

pub open spec fn bad_field(name: Seq<char>) -> Seq<char> {
    "invalid type for field `"@ + name + "`"@
}

/// The fields of a flow document read from its JSON form, or the message
/// for the first field that cannot be read (in the order of the fields).
pub open spec fn decode_flow_v(v: JsonV) -> Result<FlowDocV, Seq<char>> {
    match v {
        JsonV::Object(e) => {
            let id = obj_get_v(e, "id"@);
            let ty = obj_get_v(e, "type"@);
            let nodes = obj_get_v(e, "nodes"@);
            if id is None {
                Err(missing_field("id"@))
            } else if req_text(id) is None {
                Err(bad_field("id"@))
            } else if opt_text(obj_get_v(e, "title"@)) is None {
                Err(bad_field("title"@))
            } else if opt_text(obj_get_v(e, "description"@)) is None {
                Err(bad_field("description"@))
            } else if ty is None {
                Err(missing_field("type"@))
            } else if req_text(ty) is None {
                Err(bad_field("type"@))
            } else if opt_text(obj_get_v(e, "start"@)) is None {
                Err(bad_field("start"@))
            } else if !(obj_get_v(e, "tags"@) is None || (obj_get_v(e, "tags"@) matches Some(JsonV::Array(items))
                && text_items(items) is Some)) {
                Err(bad_field("tags"@))
            } else if !(obj_get_v(e, "entrypoints"@) is None || obj_get_v(e, "entrypoints"@) matches Some(
                JsonV::Object(_),
            )) {
                Err(bad_field("entrypoints"@))
            } else if nodes is None {
                Err(missing_field("nodes"@))
            } else if !(nodes matches Some(JsonV::Object(ne)) && raw_nodes(ne) is Some) {
                Err(bad_field("nodes"@))
            } else {
                Ok(
                    FlowDocV {
                        id: req_text(id)->0,
                        title: opt_text(obj_get_v(e, "title"@))->0,
                        description: opt_text(obj_get_v(e, "description"@))->0,
                        flow_type: req_text(ty)->0,
                        start: opt_text(obj_get_v(e, "start"@))->0,
                        parameters: match obj_get_v(e, "parameters"@) {
                            Some(p) => p,
                            None => JsonV::Object(Seq::empty()),
                        },
                        tags: match obj_get_v(e, "tags"@) {
                            Some(JsonV::Array(items)) => text_items(items)->0,
                            _ => Seq::empty(),
                        },
                        entrypoints: match obj_get_v(e, "entrypoints"@) {
                            Some(JsonV::Object(ep)) => sort_entries(ep),
                            _ => Seq::empty(),
                        },
                        meta: match obj_get_v(e, "meta"@) {
                            Some(JsonV::Null) => None,
                            Some(m) => Some(m),
                            None => None,
                        },
                        nodes: match nodes {
                            Some(JsonV::Object(ne)) => raw_nodes(ne)->0,
                            _ => Seq::empty(),
                        },
                    },
                )
            }
        },
        _ => Err("invalid type: a flow document must be a mapping"@),
    }
}

fn get_req_text(e: &Vec<(String, JsonValue)>, name: &str) -> (r: Result<String, String>)
    ensures
        match r {
            Ok(s) => req_text(obj_get_v(ev(e@), name@)) == Some(s@),
            Err(m) => req_text(obj_get_v(ev(e@), name@)) is None && m@ == (if obj_get_v(ev(e@), name@) is None {
                missing_field(name@)
            } else {
                bad_field(name@)
            }),
        },
{
    match obj_get(e, name) {
        Some(JsonValue::String(s)) => Ok(s.clone()),
        Some(_) => Err(concat3("invalid type for field `", name, "`")),
        None => Err(concat3("missing field `", name, "`")),
    }
}

fn get_opt_text(e: &Vec<(String, JsonValue)>, name: &str) -> (r: Result<Option<String>, String>)
    ensures
        match r {
            Ok(s) => opt_text(obj_get_v(ev(e@), name@)) == Some(opt_str(s)),
            Err(m) => opt_text(obj_get_v(ev(e@), name@)) is None && m@ == bad_field(name@),
        },
{
    match obj_get(e, name) {
        None => Ok(None),
        Some(JsonValue::Null) => Ok(None),
        Some(JsonValue::String(s)) => Ok(Some(s.clone())),
        Some(_) => Err(concat3("invalid type for field `", name, "`")),
    }
}

fn get_text_items(items: &Vec<JsonValue>) -> (r: Option<Vec<String>>)
    ensures
        match r {
            Some(v) => text_items(jv_seq(items@)) == Some(strs_v(v@)),
            None => text_items(jv_seq(items@)) is None,
        },
{
    proof {
        lemma_jv_seq(items@);
    }
    let ghost iv = jv_seq(items@);
    let mut out: Vec<String> = Vec::new();
    let mut i: usize = 0;
    proof {
        assert(iv.subrange(0, 0) =~= Seq::<JsonV>::empty());
        assert(strs_v(out@) =~= Seq::<Seq<char>>::empty());
    }
    while i < items.len()
        invariant
            i <= items.len(),
            iv == jv_seq(items@),
            iv.len() == items@.len(),
            forall|k: int| 0 <= k < items@.len() ==> #[trigger] iv[k] == jv(items@[k]),
            text_items(iv.subrange(0, i as int)) == Some(strs_v(out@)),
        decreases items.len() - i,
    {
        let ghost cur = iv.subrange(0, i + 1);
        proof {
            assert(cur.drop_last() =~= iv.subrange(0, i as int));
            assert(cur.last() == iv[i as int]);
        }
        match &items[i] {
            JsonValue::String(s) => {
                let ghost before = out@;
                out.push(s.clone());
                proof {
                    lemma_strs_push(before, out@.last());
                }
            },
            _ => {
                proof {
                    lemma_text_items_prefix(iv, i + 1);
                }
                return None;
            },
        }
        i = i + 1;
    }
    proof {
        assert(iv.subrange(0, items.len() as int) =~= iv);
    }
    Some(out)
}

proof fn lemma_text_items_prefix(items: Seq<JsonV>, j: int)
    requires
        0 <= j <= items.len(),
        text_items(items.subrange(0, j)) is None,
    ensures
        text_items(items) is None,
    decreases items.len(),
{
    if j < items.len() {
        assert(items.drop_last().subrange(0, j) =~= items.subrange(0, j));
        lemma_text_items_prefix(items.drop_last(), j);
    } else {
        assert(items.subrange(0, j) =~= items);
    }
}

proof fn lemma_raw_nodes_prefix(e: Entries, j: int)
    requires
        0 <= j <= e.len(),
        raw_nodes(e.subrange(0, j)) is None,
    ensures
        raw_nodes(e) is None,
    decreases e.len(),
{
    if j < e.len() {
        assert(e.drop_last().subrange(0, j) =~= e.subrange(0, j));
        lemma_raw_nodes_prefix(e.drop_last(), j);
    } else {
        assert(e.subrange(0, j) =~= e);
    }
}

fn empty_node(raw: Vec<(String, JsonValue)>) -> (n: NodeDoc)
    ensures
        n@ == fresh_node(ev(raw@)),
{
    NodeDoc {
        component: String::new(),
        pack_alias: None,
        operation: None,
        payload: JsonValue::Null,
        routing: JsonValue::Null,
        output: None,
        telemetry: None,
        raw,
    }
}

fn read_raw_nodes(e: &Vec<(String, JsonValue)>) -> (r: Option<Vec<(String, NodeDoc)>>)
    ensures
        match r {
            Some(v) => raw_nodes(ev(e@)) == Some(doc_nodes_v(v@)) && sorted(keys_of(v@)),
            None => raw_nodes(ev(e@)) is None,
        },
{
    proof {
        lemma_jv_entries(e@);
    }
    let ghost src = ev(e@);
    let mut out: Vec<(String, NodeDoc)> = Vec::new();
    let mut i: usize = 0;
    proof {
        assert(src.subrange(0, 0) =~= Seq::<(Seq<char>, JsonV)>::empty());
        assert(doc_nodes_v(out@) =~= Seq::<(Seq<char>, NodeDocV)>::empty());
        assert(keys_of(out@) =~= Seq::<Seq<char>>::empty());
    }
    while i < e.len()
        invariant
            i <= e.len(),
            src == ev(e@),
            src.len() == e@.len(),
            forall|k: int| 0 <= k < e@.len() ==> #[trigger] src[k] == (e@[k].0@, jv(e@[k].1)),
            raw_nodes(src.subrange(0, i as int)) == Some(doc_nodes_v(out@)),
            sorted(keys_of(out@)),
        decreases e.len() - i,
    {
        let ghost cur = src.subrange(0, i + 1);
        proof {
            assert(cur.drop_last() =~= src.subrange(0, i as int));
            assert(cur.last() == src[i as int]);
        }
        match &e[i].1 {
            JsonValue::Object(raw) => {
                let node = empty_node(sorted_entries(raw));
                let ghost before = out@;
                let ghost nv = node;
                sorted_insert(&mut out, e[i].0.clone(), node);
                proof {
                    lemma_doc_nodes_v(before);
                    lemma_doc_nodes_v(out@);
                    lemma_sorted_insert_map(kv(before), e@[i as int].0@, nv, |x: NodeDoc| x@);
                }
            },
            _ => {
                proof {
                    lemma_raw_nodes_prefix(src, i + 1);
                }
                return None;
            },
        }
        i = i + 1;
    }
    proof {
        assert(src.subrange(0, e.len() as int) =~= src);
    }
    Some(out)
}

/// Reads the fields of a flow document from its JSON form.
pub fn decode_flow(v: &JsonValue) -> (r: Result<FlowDoc, String>)
    ensures
        match r {
            Ok(d) => decode_flow_v(v@) == Ok::<FlowDocV, Seq<char>>(d@) && d.wf(),
            Err(m) => decode_flow_v(v@) == Err::<FlowDocV, Seq<char>>(m@),
        },
{
    let e = match v {
        JsonValue::Object(e) => e,
        _ => {
            return Err(String::from_str("invalid type: a flow document must be a mapping"));
        },
    };
    let id = get_req_text(e, "id")?;
    let title = get_opt_text(e, "title")?;
    let description = get_opt_text(e, "description")?;
    let flow_type = get_req_text(e, "type")?;
    let start = get_opt_text(e, "start")?;
    let tags: Vec<String> = match obj_get(e, "tags") {
        None => {
            let t: Vec<String> = Vec::new();
            assert(strs_v(t@) =~= Seq::<Seq<char>>::empty());
            t
        },
        Some(JsonValue::Array(items)) => match get_text_items(items) {
            Some(t) => t,
            None => {
                return Err(concat3("invalid type for field `", "tags", "`"));
            },
        },
        Some(_) => {
            return Err(concat3("invalid type for field `", "tags", "`"));
        },
    };
    let entrypoints: Vec<(String, JsonValue)> = match obj_get(e, "entrypoints") {
        None => {
            let t: Vec<(String, JsonValue)> = Vec::new();
            assert(ev(t@) =~= Seq::<(Seq<char>, JsonV)>::empty());
            t
        },
        Some(JsonValue::Object(ep)) => sorted_entries(ep),
        Some(_) => {
            return Err(concat3("invalid type for field `", "entrypoints", "`"));
        },
    };
    let nodes: Vec<(String, NodeDoc)> = match obj_get(e, "nodes") {
        None => {
            return Err(concat3("missing field `", "nodes", "`"));
        },
        Some(JsonValue::Object(ne)) => match read_raw_nodes(ne) {
            Some(n) => n,
            None => {
                return Err(concat3("invalid type for field `", "nodes", "`"));
            },
        },
        Some(_) => {
            return Err(concat3("invalid type for field `", "nodes", "`"));
        },
    };
    let parameters = match obj_get(e, "parameters") {
        Some(p) => deep_clone(p),
        None => {
            let empty: Vec<(String, JsonValue)> = Vec::new();
            assert(ev(empty@) =~= Seq::<(Seq<char>, JsonV)>::empty());
            JsonValue::Object(empty)
        },
    };
    let meta = match obj_get(e, "meta") {
        Some(JsonValue::Null) => None,
        Some(m) => Some(deep_clone(m)),
        None => None,
    };
    let d = FlowDoc { id, title, description, flow_type, start, parameters, tags, entrypoints, meta, nodes };
    Ok(d)
}


// ---------------------------------------------------------------------------
// Sorting out each node's keys
// ---------------------------------------------------------------------------

/// What has been read of a node's keys so far.
pub struct NodeScan {
    pub component: Option<(Seq<char>, JsonV)>,
    pub routing: Option<JsonV>,
    pub output: Option<JsonV>,
    pub telemetry: Option<JsonV>,
    pub pack_alias: Option<Seq<char>>,
    pub operation: Option<Seq<char>>,
}

pub open spec fn as_text(v: JsonV) -> Option<Seq<char>> {
    match v {
        JsonV::Str(s) => Some(s),
        _ => None,
    }
}

/// One key of a node: the settings `routing`, `output`, `telemetry`,
/// `pack_alias` and `operation` are taken as they come; any other key is the
/// component, and a second one is refused (`None`).
pub open spec fn scan_step(acc: NodeScan, k: Seq<char>, v: JsonV) -> Option<NodeScan> {
    if k == "routing"@ {
        Some(NodeScan { routing: Some(v), ..acc })
    } else if k == "output"@ {
        Some(NodeScan { output: Some(v), ..acc })
    } else if k == "telemetry"@ {
        Some(NodeScan { telemetry: if v is Null { None } else { Some(v) }, ..acc })
    } else if k == "pack_alias"@ {
        Some(NodeScan { pack_alias: as_text(v), ..acc })
    } else if k == "operation"@ {
        Some(NodeScan { operation: as_text(v), ..acc })
    } else if acc.component is Some {
        None
    } else {
        Some(NodeScan { component: Some((k, v)), ..acc })
    }
}

pub open spec fn empty_scan() -> NodeScan {
    NodeScan { component: None, routing: None, output: None, telemetry: None, pack_alias: None, operation: None }
}

pub open spec fn scan_raw(raw: Entries) -> Option<NodeScan>
    decreases raw.len(),
{
    if raw.len() == 0 {
        Some(empty_scan())
    } else {
        match scan_raw(raw.drop_last()) {
            None => None,
            Some(acc) => scan_step(acc, raw.last().0, raw.last().1),
        }
    }
}

/// Why a document is refused once its fields are read.
pub enum LoadErr {
    Decode(Seq<char>),
    Shape(Seq<char>),
    BadKey(Seq<char>, Seq<char>),
    Routing(Seq<char>),
    Missing(Seq<char>, Seq<char>),
}

/// A node with its keys sorted out: exactly one component key, which must be
/// a valid component key.
pub open spec fn finish_node_v(id: Seq<char>, d: NodeDocV) -> Result<NodeDocV, LoadErr> {
    match scan_raw(d.raw) {
        None => Err(LoadErr::Shape(id)),
        Some(acc) => match acc.component {
            None => Err(LoadErr::Shape(id)),
            Some((k, v)) => if !valid_component_key(k) {
                Err(LoadErr::BadKey(k, id))
            } else {
                Ok(
                    NodeDocV {
                        component: k,
                        payload: v,
                        pack_alias: acc.pack_alias,
                        operation: acc.operation,
                        output: acc.output,
                        routing: match acc.routing {
                            Some(r) => r,
                            None => d.routing,
                        },
                        telemetry: acc.telemetry,
                        raw: Seq::empty(),
                    },
                )
            },
        },
    }
}

/// All nodes in order; the first refused node names the error.
pub open spec fn finish_nodes_v(nodes: Seq<(Seq<char>, NodeDocV)>) -> Result<Seq<(Seq<char>, NodeDocV)>, LoadErr>
    decreases nodes.len(),
{
    if nodes.len() == 0 {
        Ok(Seq::empty())
    } else {
        match finish_nodes_v(nodes.drop_last()) {
            Err(e) => Err(e),
            Ok(prev) => match finish_node_v(nodes.last().0, nodes.last().1) {
                Err(e) => Err(e),
                Ok(n) => Ok(prev.push((nodes.last().0, n))),
            },
        }
    }
}

/// The first route that leads neither to a node of `keys` nor to `out`.
pub open spec fn first_missing(routes: Seq<RouteV>, keys: Seq<Seq<char>>) -> Option<Seq<char>>
    decreases routes.len(),
{
    if routes.len() == 0 {
        None
    } else {
        match routes[0].to {
            Some(t) => if t != "out"@ && !keys.contains(t) {
                Some(t)
            } else {
                first_missing(routes.drop_first(), keys)
            },
            None => first_missing(routes.drop_first(), keys),
        }
    }
}

/// The first node whose routing does not decode or leads nowhere.
pub open spec fn routes_check_v(nodes: Seq<(Seq<char>, NodeDocV)>, keys: Seq<Seq<char>>) -> Option<LoadErr>
    decreases nodes.len(),
{
    if nodes.len() == 0 {
        None
    } else {
        match decode_routes(nodes[0].1.routing) {
            None => Some(LoadErr::Routing(nodes[0].0)),
            Some(rs) => match first_missing(rs, keys) {
                Some(t) => Some(LoadErr::Missing(t, nodes[0].0)),
                None => routes_check_v(nodes.drop_first(), keys),
            },
        }
    }
}

/// The document loaded from its JSON form: fields read, nodes sorted out,
/// routes checked, and `in` taken as the start node when there is no start
/// and a node `in` exists.
pub open spec fn load_v(v: JsonV) -> Result<FlowDocV, LoadErr> {
    match decode_flow_v(v) {
        Err(m) => Err(LoadErr::Decode(m)),
        Ok(d) => match finish_nodes_v(d.nodes) {
            Err(e) => Err(e),
            Ok(ns) => match routes_check_v(ns, kseq(ns)) {
                Some(e) => Err(e),
                None => Ok(
                    FlowDocV {
                        nodes: ns,
                        start: if d.start is None && kseq(ns).contains("in"@) {
                            Some("in"@)
                        } else {
                            d.start
                        },
                        ..d
                    },
                ),
            },
        },
    }
}

pub open spec fn routes_msg() -> Seq<char> {
    "routes must be null or a list of route objects"@
}

/// The error reported for each refusal.
pub open spec fn load_err_is(x: LoadErr, e: FlowError, label: Seq<char>) -> bool {
    match x {
        LoadErr::Decode(m) => e matches FlowError::Yaml { message, location } && message@ == m
            && location.path_v() == Some(label) && location.line is None && location.column is None,
        LoadErr::Shape(id) => e matches FlowError::NodeComponentShape { node_id, location } && node_id@ == id
            && location.path_v() == Some(label + "::nodes."@ + id) && location.line is None && location.column is None,
        LoadErr::BadKey(c, id) => e matches FlowError::BadComponentKey { component, node_id, location } && component@
            == c && node_id@ == id && location.path_v() == Some(label + "::nodes."@ + id) && location.line is None
            && location.column is None,
        LoadErr::Routing(id) => e matches FlowError::Routing { node_id, message, location } && node_id@ == id
            && message@ == routes_msg() && location.path_v() == Some(label + "::nodes."@ + id + ".routing"@)
            && location.line is None && location.column is None,
        LoadErr::Missing(t, id) => e matches FlowError::MissingNode { target, node_id, location } && target@ == t
            && node_id@ == id && location.path_v() == Some(label + "::nodes."@ + id + ".routing"@)
            && location.line is None && location.column is None,
    }
}

fn node_location(label: &str, id: &str) -> (l: FlowErrorLocation)
    ensures
        l.path_v() == Some(label@ + "::nodes."@ + id@),
        l.line is None,
        l.column is None,
{
    FlowErrorLocation::at_path(concat3(label, "::nodes.", id))
}

fn routing_location(label: &str, id: &str) -> (l: FlowErrorLocation)
    ensures
        l.path_v() == Some(label@ + "::nodes."@ + id@ + ".routing"@),
        l.line is None,
        l.column is None,
{
    let mut p = concat3(label, "::nodes.", id);
    p.append(".routing");
    FlowErrorLocation::at_path(p)
}

fn text_of(v: &JsonValue) -> (r: Option<String>)
    ensures
        opt_str(r) == as_text(v@),
{
    match v {
        JsonValue::String(s) => Some(s.clone()),
        _ => None,
    }
}

/// Sorts out one node's keys.
fn finish_node(id: &String, d: &NodeDoc, label: &str) -> (r: Result<NodeDoc, FlowError>)
    ensures
        match r {
            Ok(n) => finish_node_v(id@, d@) == Ok::<NodeDocV, LoadErr>(n@),
            Err(e) => (finish_node_v(id@, d@) matches Err(x) && load_err_is(x, e, label@)),
        },
{
    proof {
        lemma_jv_entries(d.raw@);
    }
    let ghost rv = ev(d.raw@);
    let mut component: Option<(String, JsonValue)> = None;
    let mut routing: Option<JsonValue> = None;
    let mut output: Option<JsonValue> = None;
    let mut telemetry: Option<JsonValue> = None;
    let mut pack_alias: Option<String> = None;
    let mut operation: Option<String> = None;
    let mut i: usize = 0;
    proof {
        assert(rv.subrange(0, 0) =~= Seq::<(Seq<char>, JsonV)>::empty());
    }
    while i < d.raw.len()
        invariant
            i <= d.raw.len(),
            rv == ev(d.raw@),
            rv.len() == d.raw@.len(),
            forall|k: int| 0 <= k < d.raw@.len() ==> #[trigger] rv[k] == (d.raw@[k].0@, jv(d.raw@[k].1)),
            scan_raw(rv.subrange(0, i as int)) == Some(
                NodeScan {
                    component: match component {
                        Some((k, v)) => Some((k@, jv(v))),
                        None => None,
                    },
                    routing: opt_jv(routing),
                    output: opt_jv(output),
                    telemetry: opt_jv(telemetry),
                    pack_alias: opt_str(pack_alias),
                    operation: opt_str(operation),
                },
            ),
        decreases d.raw.len() - i,
    {
        let ghost cur = rv.subrange(0, i + 1);
        proof {
            assert(cur.drop_last() =~= rv.subrange(0, i as int));
            assert(cur.last() == rv[i as int]);
        }
        let key = &d.raw[i].0;
        let value = &d.raw[i].1;
        if str_eq(key.as_str(), "routing") {
            routing = Some(deep_clone(value));
        } else if str_eq(key.as_str(), "output") {
            output = Some(deep_clone(value));
        } else if str_eq(key.as_str(), "telemetry") {
            telemetry = if value.is_null() { None } else { Some(deep_clone(value)) };
        } else if str_eq(key.as_str(), "pack_alias") {
            pack_alias = text_of(value);
        } else if str_eq(key.as_str(), "operation") {
            operation = text_of(value);
        } else {
            if component.is_some() {
                proof {
                    lemma_scan_prefix(rv, i + 1);
                }
                return Err(FlowError::NodeComponentShape { node_id: id.clone(), location: node_location(label, id.as_str()) });
            }
            component = Some((key.clone(), deep_clone(value)));
        }
        i = i + 1;
    }
    proof {
        assert(rv.subrange(0, d.raw.len() as int) =~= rv);
    }
    let (component_key, payload) = match component {
        Some(c) => c,
        None => {
            return Err(FlowError::NodeComponentShape { node_id: id.clone(), location: node_location(label, id.as_str()) });
        },
    };
    if !is_valid_component_key(component_key.as_str()) {
        return Err(
            FlowError::BadComponentKey {
                component: component_key,
                node_id: id.clone(),
                location: node_location(label, id.as_str()),
            },
        );
    }
    let routing_value = match routing {
        Some(r) => r,
        None => deep_clone(&d.routing),
    };
    let empty: Vec<(String, JsonValue)> = Vec::new();
    proof {
        assert(ev(empty@) =~= Seq::<(Seq<char>, JsonV)>::empty());
    }
    Ok(
        NodeDoc {
            component: component_key,
            pack_alias,
            operation,
            payload,
            routing: routing_value,
            output,
            telemetry,
            raw: empty,
        },
    )
}

proof fn lemma_scan_prefix(raw: Entries, j: int)
    requires
        0 <= j <= raw.len(),
        scan_raw(raw.subrange(0, j)) is None,
    ensures
        scan_raw(raw) is None,
    decreases raw.len(),
{
    if j < raw.len() {
        assert(raw.drop_last().subrange(0, j) =~= raw.subrange(0, j));
        lemma_scan_prefix(raw.drop_last(), j);
    } else {
        assert(raw.subrange(0, j) =~= raw);
    }
}

proof fn lemma_finish_prefix(nodes: Seq<(Seq<char>, NodeDocV)>, j: int)
    requires
        0 <= j <= nodes.len(),
        finish_nodes_v(nodes.subrange(0, j)) is Err,
    ensures
        finish_nodes_v(nodes) == finish_nodes_v(nodes.subrange(0, j)),
    decreases nodes.len(),
{
    if j < nodes.len() {
        assert(nodes.drop_last().subrange(0, j) =~= nodes.subrange(0, j));
        lemma_finish_prefix(nodes.drop_last(), j);
    } else {
        assert(nodes.subrange(0, j) =~= nodes);
    }
}

/// The first route that leads nowhere.
fn find_missing(routes: &Vec<crate::route::Route>, nodes: &Vec<(String, NodeDoc)>) -> (r: Option<String>)
    ensures
        opt_str(r) == first_missing(routes_v(routes@), keys_of(nodes@)),
{
    let ghost rs = routes_v(routes@);
    let mut i: usize = 0;
    proof {
        assert(rs.skip(0) =~= rs);
        reveal_strlit("out");
    }
    while i < routes.len()
        invariant
            i <= routes.len(),
            rs == routes_v(routes@),
            first_missing(rs, keys_of(nodes@)) == first_missing(rs.skip(i as int), keys_of(nodes@)),
        decreases routes.len() - i,
    {
        proof {
            assert(rs.skip(i as int)[0] == routes@[i as int]@);
            assert(rs.skip(i as int).drop_first() =~= rs.skip(i + 1));
        }
        match &routes[i].to {
            Some(t) => {
                if !str_eq(t.as_str(), "out") && !crate::assoc::has_key(nodes, t.as_str()) {
                    return Some(t.clone());
                }
            },
            None => {},
        }
        i = i + 1;
    }
    proof {
        assert(rs.skip(routes.len() as int) =~= Seq::<RouteV>::empty());
    }
    None
}

/// What loading `doc` gives when the schema found `findings` on it: the
/// schema's error when there are findings, else the document's own rules.
pub open spec fn loaded_as(doc: JsonV, findings: Seq<(Seq<char>, Seq<char>)>, label: Seq<char>, r: Result<FlowDoc, FlowError>) -> bool {
    &&& findings.len() > 0 ==> (r matches Err(e) && e matches FlowError::Schema { message, details, location } && message@
        == schema_message(label, findings) && details@.len() == findings.len() && (forall|i: int|
        0 <= i < findings.len() ==> (#[trigger] details@[i]).message@ == findings[i].1 && details@[i].location.path_v()
            == Some(label + pointer_v(findings[i].0)) && details@[i].location.line is None
            && details@[i].location.column is None) && location.path_v() == Some(label) && location.line is None
        && location.column is None)
    &&& findings.len() == 0 ==> match r {
        Ok(d) => load_v(doc) == Ok::<FlowDocV, LoadErr>(d@) && d.wf(),
        Err(e) => (load_v(doc) matches Err(x) && load_err_is(x, e, label)),
    }
}

/// Loads a flow document from its JSON form, given the schema's findings on
/// it (each a JSON pointer and a message, in the validator's order).
pub fn load_from_value(doc: &JsonValue, schema_findings: &Vec<(String, String)>, source_label: &str) -> (r: Result<
    FlowDoc,
    FlowError,
>)
    ensures
        loaded_as(doc@, str_pairs_v(schema_findings@), source_label@, r),
{
    proof {
        lemma_str_pairs_v(schema_findings@);
    }
    if let Some(e) = schema_error(schema_findings, source_label) {
        return Err(e);
    }
    let mut flow = match decode_flow(doc) {
        Ok(d) => d,
        Err(m) => {
            return Err(FlowError::Yaml { message: m, location: FlowErrorLocation::at_path(String::from_str(source_label)) });
        },
    };
    proof {
        lemma_doc_nodes_v(flow.nodes@);
    }
    let ghost d0 = flow@;
    let ghost dn = d0.nodes;
    let mut nodes: Vec<(String, NodeDoc)> = Vec::new();
    let mut i: usize = 0;
    proof {
        assert(dn.subrange(0, 0) =~= Seq::<(Seq<char>, NodeDocV)>::empty());
        assert(doc_nodes_v(nodes@) =~= Seq::<(Seq<char>, NodeDocV)>::empty());
    }
    while i < flow.nodes.len()
        invariant
            i <= flow.nodes.len(),
            d0 == flow@,
            dn == d0.nodes,
            dn == doc_nodes_v(flow.nodes@),
            sorted(keys_of(flow.nodes@)),
            finish_nodes_v(dn.subrange(0, i as int)) == Ok::<_, LoadErr>(doc_nodes_v(nodes@)),
            keys_of(nodes@) == keys_of(flow.nodes@).subrange(0, i as int),
            schema_findings@.len() == 0,
            decode_flow_v(doc@) == Ok::<FlowDocV, Seq<char>>(d0),
        decreases flow.nodes.len() - i,
    {
        let ghost cur = dn.subrange(0, i + 1);
        proof {
            assert(cur.drop_last() =~= dn.subrange(0, i as int));
            assert(cur.last() == (flow.nodes@[i as int].0@, flow.nodes@[i as int].1@));
        }
        let n = match finish_node(&flow.nodes[i].0, &flow.nodes[i].1, source_label) {
            Ok(n) => n,
            Err(e) => {
                proof {
                    lemma_finish_prefix(dn, i + 1);
                }
                return Err(e);
            },
        };
        let ghost before = nodes@;
        nodes.push((flow.nodes[i].0.clone(), n));
        proof {
            assert(doc_nodes_v(nodes@) =~= doc_nodes_v(before).push((flow.nodes@[i as int].0@, n@)));
            crate::assoc::lemma_keys_push(before, nodes@.last());
            assert(keys_of(nodes@) =~= keys_of(flow.nodes@).subrange(0, i + 1));
        }
        i = i + 1;
    }
    proof {
        assert(dn.subrange(0, flow.nodes.len() as int) =~= dn);
        assert(keys_of(flow.nodes@).subrange(0, flow.nodes.len() as int) =~= keys_of(flow.nodes@));
        lemma_doc_nodes_v(nodes@);
    }
    let ghost ns = doc_nodes_v(nodes@);
    let mut j: usize = 0;
    proof {
        assert(ns.skip(0) =~= ns);
    }
    while j < nodes.len()
        invariant
            j <= nodes.len(),
            ns == doc_nodes_v(nodes@),
            kseq(ns) == keys_of(nodes@),
            routes_check_v(ns, kseq(ns)) == routes_check_v(ns.skip(j as int), kseq(ns)),
            schema_findings@.len() == 0,
            decode_flow_v(doc@) == Ok::<FlowDocV, Seq<char>>(d0),
            finish_nodes_v(d0.nodes) == Ok::<_, LoadErr>(ns),
        decreases nodes.len() - j,
    {
        proof {
            assert(ns.skip(j as int)[0] == (nodes@[j as int].0@, nodes@[j as int].1@));
            assert(ns.skip(j as int).drop_first() =~= ns.skip(j + 1));
        }
        let routes = match routes_from_json(&nodes[j].1.routing) {
            Some(r) => r,
            None => {
                return Err(
                    FlowError::Routing {
                        node_id: nodes[j].0.clone(),
                        message: String::from_str("routes must be null or a list of route objects"),
                        location: routing_location(source_label, nodes[j].0.as_str()),
                    },
                );
            },
        };
        match find_missing(&routes, &nodes) {
            Some(t) => {
                return Err(
                    FlowError::MissingNode {
                        target: t,
                        node_id: nodes[j].0.clone(),
                        location: routing_location(source_label, nodes[j].0.as_str()),
                    },
                );
            },
            None => {},
        }
        j = j + 1;
    }
    proof {
        assert(ns.skip(nodes.len() as int) =~= Seq::<(Seq<char>, NodeDocV)>::empty());
        reveal_strlit("in");
    }
    if flow.start.is_none() && crate::assoc::has_key(&nodes, "in") {
        flow.start = Some(String::from_str("in"));
    }
    flow.nodes = nodes;
    Ok(flow)
}


// ---------------------------------------------------------------------------
// Writing a document back to its JSON form
// ---------------------------------------------------------------------------

pub open spec fn opt_field(k: Seq<char>, v: Option<JsonV>) -> Entries {
    match v {
        Some(x) => seq![(k, x)],
        None => Seq::empty(),
    }
}

pub open spec fn opt_text_field(k: Seq<char>, v: Option<Seq<char>>) -> Entries {
    match v {
        Some(s) => seq![(k, JsonV::Str(s))],
        None => Seq::empty(),
    }
}

/// A node as written: its raw keys, then its routing, output and telemetry.
pub open spec fn node_json_v(n: NodeDocV) -> JsonV {
    JsonV::Object(n.raw + seq![("routing"@, n.routing)] + opt_field("output"@, n.output) + opt_field("telemetry"@, n.telemetry))
}

pub open spec fn nodes_json_v(nodes: Seq<(Seq<char>, NodeDocV)>) -> Entries {
    nodes.map_values(|x: (Seq<char>, NodeDocV)| (x.0, node_json_v(x.1)))
}

pub open spec fn texts_json(s: Seq<Seq<char>>) -> Seq<JsonV> {
    s.map_values(|x: Seq<char>| JsonV::Str(x))
}

/// A document as written: absent optional fields and empty lists are left
/// out.
pub open spec fn doc_json_v(d: FlowDocV) -> JsonV {
    JsonV::Object(
        seq![("id"@, JsonV::Str(d.id))] + opt_text_field("title"@, d.title) + opt_text_field("description"@, d.description)
            + seq![("type"@, JsonV::Str(d.flow_type))] + opt_text_field("start"@, d.start) + seq![("parameters"@, d.parameters)]
            + (if d.tags.len() > 0 { seq![("tags"@, JsonV::Array(texts_json(d.tags)))] } else { Seq::empty() })
            + (if d.entrypoints.len() > 0 { seq![("entrypoints"@, JsonV::Object(d.entrypoints))] } else { Seq::empty() })
            + opt_field("meta"@, d.meta) + seq![("nodes"@, JsonV::Object(nodes_json_v(d.nodes)))],
    )
}

fn push_entry(e: &mut Vec<(String, JsonValue)>, k: &str, v: JsonValue)
    ensures
        ev(final(e)@) == ev(old(e)@).push((k@, jv(v))),
{
    let ghost before = e@;
    e.push((String::from_str(k), v));
    proof {
        assert(e@.drop_last() =~= before);
    }
}

fn push_opt_text(e: &mut Vec<(String, JsonValue)>, k: &str, v: &Option<String>)
    ensures
        ev(final(e)@) == ev(old(e)@) + opt_text_field(k@, opt_str(*v)),
{
    match v {
        Some(s) => {
            push_entry(e, k, JsonValue::String(s.clone()));
            assert(ev(e@) =~= ev(old(e)@) + opt_text_field(k@, opt_str(*v)));
        },
        None => {
            assert(ev(e@) =~= ev(old(e)@) + opt_text_field(k@, opt_str(*v)));
        },
    }
}

fn push_opt_value(e: &mut Vec<(String, JsonValue)>, k: &str, v: &Option<JsonValue>)
    ensures
        ev(final(e)@) == ev(old(e)@) + opt_field(k@, opt_jv(*v)),
{
    match v {
        Some(x) => {
            push_entry(e, k, deep_clone(x));
            assert(ev(e@) =~= ev(old(e)@) + opt_field(k@, opt_jv(*v)));
        },
        None => {
            assert(ev(e@) =~= ev(old(e)@) + opt_field(k@, opt_jv(*v)));
        },
    }
}

pub fn node_to_json(n: &NodeDoc) -> (r: JsonValue)
    ensures
        r@ == node_json_v(n@),
{
    let mut e = clone_entries(&n.raw);
    push_entry(&mut e, "routing", deep_clone(&n.routing));
    let ghost mid = ev(e@);
    push_opt_value(&mut e, "output", &n.output);
    push_opt_value(&mut e, "telemetry", &n.telemetry);
    proof {
        assert(ev(e@) =~= n@.raw + seq![("routing"@, n@.routing)] + opt_field("output"@, n@.output) + opt_field(
            "telemetry"@,
            n@.telemetry,
        ));
    }
    JsonValue::Object(e)
}

/// Writes a document in its JSON form.
pub fn doc_to_json(d: &FlowDoc) -> (r: JsonValue)
    ensures
        r@ == doc_json_v(d@),
{
    let mut e: Vec<(String, JsonValue)> = Vec::new();
    proof {
        assert(ev(e@) =~= Seq::<(Seq<char>, JsonV)>::empty());
    }
    push_entry(&mut e, "id", JsonValue::String(d.id.clone()));
    push_opt_text(&mut e, "title", &d.title);
    push_opt_text(&mut e, "description", &d.description);
    push_entry(&mut e, "type", JsonValue::String(d.flow_type.clone()));
    push_opt_text(&mut e, "start", &d.start);
    push_entry(&mut e, "parameters", deep_clone(&d.parameters));
    let ghost before_tags = ev(e@);
    if d.tags.len() > 0 {
        let mut items: Vec<JsonValue> = Vec::new();
        let mut i: usize = 0;
        while i < d.tags.len()
            invariant
                i <= d.tags.len(),
                items@.len() == i,
                forall|k: int| 0 <= k < i ==> jv(#[trigger] items@[k]) == JsonV::Str(d.tags@[k]@),
            decreases d.tags.len() - i,
        {
            items.push(JsonValue::String(d.tags[i].clone()));
            i = i + 1;
        }
        proof {
            lemma_jv_seq(items@);
            assert(jv_seq(items@) =~= texts_json(strs_v(d.tags@)));
        }
        push_entry(&mut e, "tags", JsonValue::Array(items));
    }
    let ghost before_eps = ev(e@);
    if d.entrypoints.len() > 0 {
        push_entry(&mut e, "entrypoints", JsonValue::Object(clone_entries(&d.entrypoints)));
    }
    push_opt_value(&mut e, "meta", &d.meta);
    let ghost before_nodes = ev(e@);
    let mut nodes: Vec<(String, JsonValue)> = Vec::new();
    let mut j: usize = 0;
    proof {
        lemma_doc_nodes_v(d.nodes@);
    }
    while j < d.nodes.len()
        invariant
            j <= d.nodes.len(),
            nodes@.len() == j,
            forall|k: int|
                0 <= k < j ==> (#[trigger] nodes@[k]).0@ == d.nodes@[k].0@ && jv(nodes@[k].1) == node_json_v(d.nodes@[k].1@),
        decreases d.nodes.len() - j,
    {
        nodes.push((d.nodes[j].0.clone(), node_to_json(&d.nodes[j].1)));
        j = j + 1;
    }
    proof {
        lemma_jv_entries(nodes@);
        assert(ev(nodes@) =~= nodes_json_v(d@.nodes));
    }
    push_entry(&mut e, "nodes", JsonValue::Object(nodes));
    proof {
        assert(ev(e@) =~= doc_json_v(d@)->Object_0);
    }
    JsonValue::Object(e)
}


/// What the `jsonschema` crate reports when the document in `doc_text` is
/// checked against the schema in `schema_text` (draft 2020-12): each
/// violation's JSON pointer and message in the validator's order, or the text
/// of the error that stopped the check.
pub uninterp spec fn schema_check_v(schema_text: Seq<char>, doc_text: Seq<char>) -> Result<
    Seq<(Seq<char>, Seq<char>)>,
    Seq<char>,
>;

/// Parses both texts with `serde_json::from_str`, builds a validator with
/// `jsonschema::options().with_draft(Draft202012).build`, and lists
/// `iter_errors` on the document as (`instance_path`, message) pairs. The
/// contract claims only that the outcome is `schema_check_v` of the two
/// texts; an unparsable text or a schema that does not compile gives the
/// error's text.
#[verifier::external_body]
fn schema_check(schema_text: &str, doc_text: &str) -> (r: Result<Vec<(String, String)>, String>)
    ensures
        match r {
            Ok(v) => schema_check_v(schema_text@, doc_text@) == Ok::<_, Seq<char>>(str_pairs_v(v@)),
            Err(m) => schema_check_v(schema_text@, doc_text@) == Err::<Seq<(Seq<char>, Seq<char>)>, _>(m@),
        },
{
    let schema: serde_json::Value = serde_json::from_str(schema_text).map_err(|e| e.to_string())?;
    let doc: serde_json::Value = serde_json::from_str(doc_text).map_err(|e| e.to_string())?;
    let validator = jsonschema::options()
        .with_draft(jsonschema::Draft::Draft202012)
        .build(&schema)
        .map_err(|e| e.to_string())?;
    Ok(validator.iter_errors(&doc).map(|e| (e.instance_path().to_string(), e.to_string())).collect())
}

/// The outcome of loading `doc` after checking it against `schema`.
pub open spec fn load_with_schema_v(
    doc: JsonV,
    schema: JsonV,
    schema_label: Seq<char>,
    source_label: Seq<char>,
    r: Result<FlowDoc, FlowError>,
) -> bool {
    match schema_check_v(json_text_v(schema), json_text_v(doc)) {
        Ok(findings) => loaded_as(doc, findings, source_label, r),
        Err(m) => r matches Err(e) && e matches FlowError::Internal { message, location } && message@
            == "schema compile for "@ + schema_label + ": "@ + m && location.path_v() == Some(schema_label)
            && location.line is None && location.column is None,
    }
}

/// Loads a flow document from its JSON form after checking it against a JSON
/// Schema: the schema's findings refuse the document, and a schema that
/// cannot be applied is an internal error naming `schema_label`.
pub fn load_with_schema(doc: &JsonValue, schema: &JsonValue, schema_label: &str, source_label: &str) -> (r: Result<
    FlowDoc,
    FlowError,
>)
    ensures
        load_with_schema_v(doc@, schema@, schema_label@, source_label@, r),
{
    let schema_text = json_text(schema);
    let doc_text = json_text(doc);
    match schema_check(schema_text.as_str(), doc_text.as_str()) {
        Ok(findings) => load_from_value(doc, &findings, source_label),
        Err(m) => {
            let prefix = concat3("schema compile for ", schema_label, ": ");
            let message = concat(prefix.as_str(), m.as_str());
            proof {
                reveal_strlit("schema compile for ");
                reveal_strlit(": ");
            }
            Err(FlowError::Internal { message, location: FlowErrorLocation::at_path(String::from_str(schema_label)) })
        },
    }
}

/// A route that ends the flow, or leads to one of `keys`.
pub open spec fn route_resolves(r: RouteV, keys: Seq<Seq<char>>) -> bool {
    match r.to {
        Some(t) => t == "out"@ || keys.contains(t),
        None => true,
    }
}

proof fn lemma_first_missing_none(rs: Seq<RouteV>, keys: Seq<Seq<char>>)
    requires
        first_missing(rs, keys) is None,
    ensures
        forall|j: int| 0 <= j < rs.len() ==> route_resolves(#[trigger] rs[j], keys),
    decreases rs.len(),
{
    if rs.len() > 0 {
        lemma_first_missing_none(rs.drop_first(), keys);
        assert forall|j: int| 0 <= j < rs.len() implies route_resolves(#[trigger] rs[j], keys) by {
            if j > 0 {
                assert(rs[j] == rs.drop_first()[j - 1]);
            }
        }
    }
}

proof fn lemma_routes_check_none(nodes: Seq<(Seq<char>, NodeDocV)>, keys: Seq<Seq<char>>)
    requires
        routes_check_v(nodes, keys) is None,
    ensures
        forall|i: int|
            0 <= i < nodes.len() ==> (decode_routes(#[trigger] nodes[i].1.routing) matches Some(rs) && forall|j: int|
                0 <= j < rs.len() ==> route_resolves(#[trigger] rs[j], keys)),
    decreases nodes.len(),
{
    if nodes.len() > 0 {
        let rs = decode_routes(nodes[0].1.routing)->Some_0;
        lemma_first_missing_none(rs, keys);
        lemma_routes_check_none(nodes.drop_first(), keys);
        assert forall|i: int| 0 <= i < nodes.len() implies (decode_routes(#[trigger] nodes[i].1.routing) matches Some(rs)
            && forall|j: int| 0 <= j < rs.len() ==> route_resolves(#[trigger] rs[j], keys)) by {
            if i > 0 {
                assert(nodes[i] == nodes.drop_first()[i - 1]);
            }
        }
    }
}

/// A loaded document's routes all lead somewhere: every node's routing reads
/// as a list of routes, and each route's target is `out` or a node of the
/// document.
pub proof fn law_loaded_routes_resolve(v: JsonV)
    ensures
        load_v(v) matches Ok(d) ==> forall|i: int|
            0 <= i < d.nodes.len() ==> (decode_routes(#[trigger] d.nodes[i].1.routing) matches Some(rs) && forall|j: int|
                0 <= j < rs.len() ==> route_resolves(#[trigger] rs[j], kseq(d.nodes))),
{
    if let Ok(d) = load_v(v) {
        let ns = finish_nodes_v(decode_flow_v(v)->Ok_0.nodes)->Ok_0;
        assert(d.nodes == ns);
        lemma_routes_check_none(ns, kseq(ns));
    }
}

} // verus!
