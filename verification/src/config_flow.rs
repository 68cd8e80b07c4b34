//! A minimal, single-pass config-flow harness: `questions` nodes seed state
//! from answers or defaults, and the first `template` node reached renders
//! the node to insert, with `{{state.key}}` strings replaced by state values.
use vstd::prelude::*;
use crate::add_step::normalize::{NormalizedNode, NormalizedNodeV, NormErr, normalize_node_map, normalize_v, norm_err_matches};
use crate::route::encode_routes;
use crate::route::routes_to_json;
use crate::assoc::{aget, kseq, kv, keys_of, map_vals, get_key, lemma_aget_map};
use crate::error::opt_str;
use crate::flow_ir::lemma_doc_nodes_v;
use crate::lint::{valid_node_id, node_id_error, check_node_id};
use crate::model::{FlowDoc, FlowDocV, NodeDoc, NodeDocV, doc_nodes_v};
use crate::route::{Route, RouteV, decode_routes, routes_from_json, routes_v};
use crate::error::{FlowError, FlowErrorLocation};
use crate::json::{
    JsonValue, JsonV, Entries, ev, jv, jv_seq, obj_get_v, obj_insert_v, has_key, get_v, lemma_jv_entries, lemma_jv_seq,
    obj_get, obj_has, obj_insert, deep_clone, clone_entries,
};
use crate::util::{regex_capture1, regex_capture_v};
use crate::text::{concat, concat3, str_eq};

verus! {

/// What a config flow produces: the identifier and the node to insert.
#[derive(Debug)]
pub struct ConfigFlowOutput {
    pub node_id: String,
    pub node: JsonValue,
}

/// An internal error with this message at this path.
pub open spec fn internal_is(e: FlowError, m: Seq<char>, p: Seq<char>) -> bool {
    e matches FlowError::Internal { message, location } && message@ == m && location.path_v() == Some(p)
        && location.line is None && location.column is None
}

// ---------------------------------------------------------------------------
// State substitution
// ---------------------------------------------------------------------------

pub open spec fn state_pattern() -> Seq<char> {
    "^\\{\\{\\s*state\\.([A-Za-z_]\\w*)\\s*\\}\\}$"@
}

/// The state key that a whole string refers to as `{{state.key}}`.
pub open spec fn state_ref(s: Seq<char>) -> Option<Seq<char>> {
    match regex_capture_v(state_pattern(), s) {
        Some(Some(k)) => Some(k),
        _ => None,
    }
}

/// The value with each `{{state.key}}` string replaced by the state value;
/// `Err` names the first key, in document order, that the state lacks.
pub open spec fn subst_v(v: JsonV, state: Entries) -> Result<JsonV, Seq<char>>
    decreases v,
{
    match v {
        JsonV::Str(s) => match state_ref(s) {
            Some(k) => match obj_get_v(state, k) {
                Some(x) => Ok(x),
                None => Err(k),
            },
            None => Ok(v),
        },
        JsonV::Array(items) => match subst_seq(items, state) {
            Ok(r) => Ok(JsonV::Array(r)),
            Err(k) => Err(k),
        },
        JsonV::Object(entries) => match subst_entries(entries, state) {
            Ok(r) => Ok(JsonV::Object(r)),
            Err(k) => Err(k),
        },
        _ => Ok(v),
    }
}

pub open spec fn subst_seq(items: Seq<JsonV>, state: Entries) -> Result<Seq<JsonV>, Seq<char>>
    decreases items,
{
    if items.len() == 0 {
        Ok(Seq::empty())
    } else {
        match subst_seq(items.drop_last(), state) {
            Err(k) => Err(k),
            Ok(prev) => match subst_v(items.last(), state) {
                Err(k) => Err(k),
                Ok(x) => Ok(prev.push(x)),
            },
        }
    }
}

pub open spec fn subst_entries(entries: Entries, state: Entries) -> Result<Entries, Seq<char>>
    decreases entries,
{
    if entries.len() == 0 {
        Ok(Seq::empty())
    } else {
        match subst_entries(entries.drop_last(), state) {
            Err(k) => Err(k),
            Ok(prev) => match subst_v(entries.last().1, state) {
                Err(k) => Err(k),
                Ok(x) => Ok(prev.push((entries.last().0, x))),
            },
        }
    }
}

fn state_key_of(s: &String) -> (r: Option<String>)
    ensures
        match r {
            Some(k) => state_ref(s@) == Some(k@),
            None => state_ref(s@) is None,
        },
{
    match regex_capture1("^\\{\\{\\s*state\\.([A-Za-z_]\\w*)\\s*\\}\\}$", s.as_str()) {
        Some(Some(k)) => Some(k),
        _ => None,
    }
}

proof fn lemma_subst_seq_prefix(items: Seq<JsonV>, state: Entries, j: int)
    requires
        0 <= j <= items.len(),
        subst_seq(items.subrange(0, j), state) is Err,
    ensures
        subst_seq(items, state) == subst_seq(items.subrange(0, j), state),
    decreases items.len(),
{
    if j < items.len() {
        assert(items.drop_last().subrange(0, j) =~= items.subrange(0, j));
        lemma_subst_seq_prefix(items.drop_last(), state, j);
    } else {
        assert(items.subrange(0, j) =~= items);
    }
}

proof fn lemma_subst_entries_prefix(entries: Entries, state: Entries, j: int)
    requires
        0 <= j <= entries.len(),
        subst_entries(entries.subrange(0, j), state) is Err,
    ensures
        subst_entries(entries, state) == subst_entries(entries.subrange(0, j), state),
    decreases entries.len(),
{
    if j < entries.len() {
        assert(entries.drop_last().subrange(0, j) =~= entries.subrange(0, j));
        lemma_subst_entries_prefix(entries.drop_last(), state, j);
    } else {
        assert(entries.subrange(0, j) =~= entries);
    }
}

/// Replaces each `{{state.key}}` string by the state value.
pub fn substitute_state(target: &JsonValue, state: &Vec<(String, JsonValue)>) -> (r: Result<JsonValue, FlowError>)
    ensures
        match r {
            Ok(v) => subst_v(target@, ev(state@)) == Ok::<JsonV, Seq<char>>(v@),
            Err(e) => (subst_v(target@, ev(state@)) matches Err(k) && internal_is(
                e,
                "state value for '"@ + k + "' not found"@,
                "state."@ + k,
            )),
        },
    decreases target,
{
    match target {
        JsonValue::String(s) => {
            match state_key_of(s) {
                Some(key) => match obj_get(state, key.as_str()) {
                    Some(val) => Ok(deep_clone(val)),
                    None => Err(FlowError::internal(concat3("state value for '", key.as_str(), "' not found"), concat("state.", key.as_str()))),
                },
                None => Ok(JsonValue::String(s.clone())),
            }
        },
        JsonValue::Array(items) => {
            proof {
                lemma_jv_seq(items@);
            }
            let ghost iv = jv_seq(items@);
            let mut out: Vec<JsonValue> = Vec::new();
            let mut i: usize = 0;
            proof {
                assert(iv.subrange(0, 0) =~= Seq::<JsonV>::empty());
                assert(jv_seq(out@) =~= Seq::<JsonV>::empty());
            }
            while i < items.len()
                invariant
                    i <= items.len(),
                    *target == JsonValue::Array(*items),
                    iv == jv_seq(items@),
                    iv.len() == items@.len(),
                    forall|k: int| 0 <= k < items@.len() ==> #[trigger] iv[k] == jv(items@[k]),
                    subst_seq(iv.subrange(0, i as int), ev(state@)) == Ok::<Seq<JsonV>, Seq<char>>(jv_seq(out@)),
                decreases items.len() - i,
            {
                proof {
                    broadcast use vstd::std_specs::vec::axiom_vec_decreases_to_view;
                    assert(decreases_to!(*target => (*target)->Array_0));
                    assert(decreases_to!(*items => items@));
                    assert(decreases_to!(items@ => items@[i as int]));
                }
                let ghost cur = iv.subrange(0, i + 1);
                proof {
                    assert(cur.drop_last() =~= iv.subrange(0, i as int));
                    assert(cur.last() == iv[i as int]);
                }
                let x = match substitute_state(&items[i], state) {
                    Ok(x) => x,
                    Err(e) => {
                        proof {
                            lemma_subst_seq_prefix(iv, ev(state@), i + 1);
                        }
                        return Err(e);
                    },
                };
                let ghost before = out@;
                out.push(x);
                proof {
                    assert(out@.drop_last() =~= before);
                }
                i = i + 1;
            }
            proof {
                assert(iv.subrange(0, items.len() as int) =~= iv);
            }
            Ok(JsonValue::Array(out))
        },
        JsonValue::Object(entries) => {
            proof {
                lemma_jv_entries(entries@);
            }
            let ghost ev0 = ev(entries@);
            let mut out: Vec<(String, JsonValue)> = Vec::new();
            let mut i: usize = 0;
            proof {
                assert(ev0.subrange(0, 0) =~= Seq::<(Seq<char>, JsonV)>::empty());
                assert(ev(out@) =~= Seq::<(Seq<char>, JsonV)>::empty());
            }
            while i < entries.len()
                invariant
                    i <= entries.len(),
                    *target == JsonValue::Object(*entries),
                    ev0 == ev(entries@),
                    ev0.len() == entries@.len(),
                    forall|k: int| 0 <= k < entries@.len() ==> #[trigger] ev0[k] == (entries@[k].0@, jv(entries@[k].1)),
                    subst_entries(ev0.subrange(0, i as int), ev(state@)) == Ok::<Entries, Seq<char>>(ev(out@)),
                decreases entries.len() - i,
            {
                proof {
                    broadcast use vstd::std_specs::vec::axiom_vec_decreases_to_view;
                    assert(decreases_to!(*target => (*target)->Object_0));
                    assert(decreases_to!(*entries => entries@));
                    assert(decreases_to!(entries@ => entries@[i as int]));
                    assert(decreases_to!(entries@[i as int] => entries@[i as int].1));
                }
                let ghost cur = ev0.subrange(0, i + 1);
                proof {
                    assert(cur.drop_last() =~= ev0.subrange(0, i as int));
                    assert(cur.last() == ev0[i as int]);
                }
                let x = match substitute_state(&entries[i].1, state) {
                    Ok(x) => x,
                    Err(e) => {
                        proof {
                            lemma_subst_entries_prefix(ev0, ev(state@), i + 1);
                        }
                        return Err(e);
                    },
                };
                let ghost before = out@;
                out.push((entries[i].0.clone(), x));
                proof {
                    assert(out@.drop_last() =~= before);
                }
                i = i + 1;
            }
            proof {
                assert(ev0.subrange(0, entries.len() as int) =~= ev0);
            }
            Ok(JsonValue::Object(out))
        },
        _ => Ok(deep_clone(target)),
    }
}

// ---------------------------------------------------------------------------
// Questions
// ---------------------------------------------------------------------------

/// The state after a questions node: each field that the state lacks takes
/// its default; a field without an id, or without a default and an answer,
/// is refused (as the error's message and path).
pub open spec fn questions_fold(fields: Seq<JsonV>, state: Entries) -> Result<Entries, (Seq<char>, Seq<char>)>
    decreases fields.len(),
{
    if fields.len() == 0 {
        Ok(state)
    } else {
        match questions_fold(fields.drop_last(), state) {
            Err(x) => Err(x),
            Ok(st) => {
                let f = fields.last();
                match get_v(f, "id"@) {
                    Some(JsonV::Str(id)) => if has_key(st, id) {
                        Ok(st)
                    } else {
                        match get_v(f, "default"@) {
                            Some(d) => Ok(obj_insert_v(st, id, d)),
                            None => Err(("missing answer for '"@ + id + "'"@, "questions.fields."@ + id)),
                        }
                    },
                    _ => Err(("questions field missing id"@, "questions.fields"@)),
                }
            },
        }
    }
}

proof fn lemma_questions_keep(fields: Seq<JsonV>, state: Entries, k: Seq<char>)
    requires
        has_key(state, k),
    ensures
        questions_fold(fields, state) matches Ok(st) ==> has_key(st, k) && obj_get_v(st, k) == obj_get_v(state, k),
    decreases fields.len(),
{
    if fields.len() > 0 {
        lemma_questions_keep(fields.drop_last(), state, k);
        if let Ok(st) = questions_fold(fields.drop_last(), state) {
            let f = fields.last();
            if let Some(JsonV::Str(id)) = get_v(f, "id"@) {
                if !has_key(st, id) {
                    if let Some(d) = get_v(f, "default"@) {
                        assert(id != k);
                        crate::json::lemma_insert_then_get(st, id, d, k);
                        crate::json::lemma_key_pos(st, k);
                        crate::json::lemma_key_pos(obj_insert_v(st, id, d), k);
                    }
                }
            }
        }
    }
}

proof fn lemma_questions_step_keep(st0: Entries, f: JsonV, k: Seq<char>)
    requires
        has_key(st0, k),
    ensures
        ({
            let r = match get_v(f, "id"@) {
                Some(JsonV::Str(id)) => if has_key(st0, id) {
                    Ok(st0)
                } else {
                    match get_v(f, "default"@) {
                        Some(d) => Ok(obj_insert_v(st0, id, d)),
                        None => Err(("missing answer for '"@ + id + "'"@, "questions.fields."@ + id)),
                    }
                },
                _ => Err(("questions field missing id"@, "questions.fields"@)),
            };
            r matches Ok(st) ==> has_key(st, k) && obj_get_v(st, k) == obj_get_v(st0, k)
        }),
{
    if let Some(JsonV::Str(id)) = get_v(f, "id"@) {
        if !has_key(st0, id) {
            if let Some(d) = get_v(f, "default"@) {
                assert(id != k);
                crate::json::lemma_insert_then_get(st0, id, d, k);
                crate::json::lemma_key_pos(st0, k);
                crate::json::lemma_key_pos(obj_insert_v(st0, id, d), k);
            }
        }
    }
}

proof fn lemma_questions_answer(fields: Seq<JsonV>, state: Entries, i: int)
    requires
        0 <= i < fields.len(),
        get_v(fields[i], "id"@) matches Some(JsonV::Str(id)) && !has_key(state, id),
    ensures
        questions_fold(fields, state) matches Ok(st) ==> ({
            let id = get_v(fields[i], "id"@)->Some_0->Str_0;
            has_key(st, id) && ((forall|j: int| 0 <= j < i ==> !(get_v(#[trigger] fields[j], "id"@) == Some(JsonV::Str(id))))
                ==> obj_get_v(st, id) == get_v(fields[i], "default"@))
        }),
    decreases fields.len(),
{
    let id = get_v(fields[i], "id"@)->Some_0->Str_0;
    let pre = fields.drop_last();
    let f = fields.last();
    assert(f == fields[fields.len() - 1]);
    if let Ok(st) = questions_fold(fields, state) {
        let st0 = questions_fold(pre, state)->Ok_0;
        assert(questions_fold(pre, state) is Ok);
        if i == fields.len() - 1 {
            assert(f == fields[i]);
            if has_key(st0, id) {
                assert(st == st0);
                if forall|j: int| 0 <= j < i ==> !(get_v(#[trigger] fields[j], "id"@) == Some(JsonV::Str(id))) {
                    assert forall|j: int| 0 <= j < pre.len() implies !(get_v(#[trigger] pre[j], "id"@) == Some(JsonV::Str(id))) by {
                        assert(pre[j] == fields[j]);
                    }
                    lemma_questions_absent(pre, state, id);
                    assert(false);
                }
            } else {
                let d = get_v(f, "default"@)->Some_0;
                assert(st == obj_insert_v(st0, id, d));
                crate::json::lemma_insert_then_get(st0, id, d, id);
                crate::json::lemma_key_pos(st, id);
            }
        } else {
            assert(pre[i] == fields[i]);
            lemma_questions_answer(pre, state, i);
            lemma_questions_step_keep(st0, f, id);
            if forall|j: int| 0 <= j < i ==> !(get_v(#[trigger] fields[j], "id"@) == Some(JsonV::Str(id))) {
                assert forall|j: int| 0 <= j < i implies !(get_v(#[trigger] pre[j], "id"@) == Some(JsonV::Str(id))) by {
                    assert(pre[j] == fields[j]);
                }
            }
        }
    }
}

proof fn lemma_questions_absent(fields: Seq<JsonV>, state: Entries, id: Seq<char>)
    requires
        !has_key(state, id),
        forall|j: int| 0 <= j < fields.len() ==> !(get_v(#[trigger] fields[j], "id"@) == Some(JsonV::Str(id))),
    ensures
        questions_fold(fields, state) matches Ok(st) ==> !has_key(st, id),
    decreases fields.len(),
{
    if fields.len() > 0 {
        let pre = fields.drop_last();
        assert forall|j: int| 0 <= j < pre.len() implies !(get_v(#[trigger] pre[j], "id"@) == Some(JsonV::Str(id))) by {
            assert(pre[j] == fields[j]);
        }
        lemma_questions_absent(pre, state, id);
        if let Ok(st) = questions_fold(pre, state) {
            let f = fields.last();
            assert(f == fields[fields.len() - 1]);
            if let Some(JsonV::Str(fid)) = get_v(f, "id"@) {
                if !has_key(st, fid) {
                    if let Some(d) = get_v(f, "default"@) {
                        assert(fid != id);
                        crate::json::lemma_insert_then_get(st, fid, d, id);
                        crate::json::lemma_key_pos(st, id);
                        crate::json::lemma_key_pos(obj_insert_v(st, fid, d), id);
                    }
                }
            }
        }
    }
}

pub open spec fn apply_questions_v(payload: JsonV, state: Entries) -> Result<Entries, (Seq<char>, Seq<char>)> {
    match get_v(payload, "fields"@) {
        Some(JsonV::Array(fields)) => questions_fold(fields, state),
        _ => Err(("questions node missing fields array"@, "questions.fields"@)),
    }
}

proof fn lemma_questions_prefix(fields: Seq<JsonV>, state: Entries, j: int)
    requires
        0 <= j <= fields.len(),
        questions_fold(fields.subrange(0, j), state) is Err,
    ensures
        questions_fold(fields, state) == questions_fold(fields.subrange(0, j), state),
    decreases fields.len(),
{
    if j < fields.len() {
        assert(fields.drop_last().subrange(0, j) =~= fields.subrange(0, j));
        lemma_questions_prefix(fields.drop_last(), state, j);
    } else {
        assert(fields.subrange(0, j) =~= fields);
    }
}

/// Seeds the state from a questions node.
pub fn apply_questions(payload: &JsonValue, state: &mut Vec<(String, JsonValue)>) -> (r: Result<(), FlowError>)
    ensures
        match r {
            Ok(()) => apply_questions_v(payload@, ev(old(state)@)) == Ok::<Entries, (Seq<char>, Seq<char>)>(ev(final(state)@)),
            Err(e) => (apply_questions_v(payload@, ev(old(state)@)) matches Err(x) && internal_is(e, x.0, x.1)),
        },
{
    proof {
        reveal_strlit("fields");
        reveal_strlit("id");
        reveal_strlit("default");
    }
    let ghost s0 = ev(state@);
    let fields = match payload.get("fields") {
        Some(JsonValue::Array(f)) => f,
        _ => {
            return Err(FlowError::internal(String::from_str("questions node missing fields array"), String::from_str("questions.fields")));
        },
    };
    proof {
        lemma_jv_seq(fields@);
    }
    let ghost fv = jv_seq(fields@);
    let mut i: usize = 0;
    proof {
        assert(fv.subrange(0, 0) =~= Seq::<JsonV>::empty());
    }
    while i < fields.len()
        invariant
            i <= fields.len(),
            fv == jv_seq(fields@),
            fv.len() == fields@.len(),
            forall|k: int| 0 <= k < fields@.len() ==> #[trigger] fv[k] == jv(fields@[k]),
            questions_fold(fv.subrange(0, i as int), s0) == Ok::<Entries, (Seq<char>, Seq<char>)>(ev(state@)),
            get_v(payload@, "fields"@) == Some(JsonV::Array(fv)),
            s0 == ev(old(state)@),
        decreases fields.len() - i,
    {
        let ghost cur = fv.subrange(0, i + 1);
        proof {
            assert(cur.drop_last() =~= fv.subrange(0, i as int));
            assert(cur.last() == fv[i as int]);
        }
        let field = &fields[i];
        let id = match field.get("id") {
            Some(JsonValue::String(id)) => id,
            _ => {
                proof {
                    lemma_questions_prefix(fv, s0, i + 1);
                }
                return Err(FlowError::internal(String::from_str("questions field missing id"), String::from_str("questions.fields")));
            },
        };
        if !obj_has(state, id.as_str()) {
            match field.get("default") {
                Some(d) => {
                    obj_insert(state, id.clone(), deep_clone(d));
                },
                None => {
                    proof {
                        lemma_questions_prefix(fv, s0, i + 1);
                    }
                    return Err(FlowError::internal(concat3("missing answer for '", id.as_str(), "'"), concat("questions.fields.", id.as_str())));
                },
            }
        }
        i = i + 1;
    }
    proof {
        assert(fv.subrange(0, fields.len() as int) =~= fv);
    }
    Ok(())
}

// ---------------------------------------------------------------------------
// The rendered output
// ---------------------------------------------------------------------------

/// Why an output is refused: a missing field (message and path), or a
/// tool node that does not normalize.
pub enum ExtractErr {
    Missing(Seq<char>, Seq<char>),
    Tool(NormErr),
}

/// A normalized node written back as a node map: the component key with
/// its payload, `pack_alias` and `operation` where present, and `routing`.
pub open spec fn node_map_v(n: NormalizedNodeV) -> JsonV {
    JsonV::Object(
        seq![(n.component_id, n.payload)] + match n.pack_alias {
            Some(a) => seq![("pack_alias"@, JsonV::Str(a))],
            None => Seq::empty(),
        } + match n.operation {
            Some(o) => seq![("operation"@, JsonV::Str(o))],
            None => Seq::empty(),
        } + seq![("routing"@, encode_routes(n.routing))],
    )
}

/// The output that a rendered template describes: its node id and node,
/// a `tool` node normalized into a component node.
pub open spec fn extract_v(v: JsonV) -> Result<(Seq<char>, JsonV), ExtractErr> {
    match get_v(v, "node_id"@) {
        Some(JsonV::Str(id)) => match get_v(v, "node"@) {
            Some(node) => if get_v(node, "tool"@) is Some {
                match normalize_v(node) {
                    Ok(n) => Ok((id, node_map_v(n))),
                    Err(x) => Err(ExtractErr::Tool(x)),
                }
            } else {
                Ok((id, node))
            },
            None => Err(ExtractErr::Missing("config flow output missing node"@, "node"@)),
        },
        _ => Err(ExtractErr::Missing("config flow output missing node_id"@, "node_id"@)),
    }
}

pub open spec fn extract_err_is(x: ExtractErr, e: FlowError) -> bool {
    match x {
        ExtractErr::Missing(m, p) => internal_is(e, m, p),
        ExtractErr::Tool(n) => norm_err_matches(n, e),
    }
}

fn node_map(n: NormalizedNode) -> (r: JsonValue)
    ensures
        r@ == node_map_v(n@),
{
    let ghost nv = n@;
    let NormalizedNode { component_id, pack_alias, operation, payload, routing } = n;
    let mut e: Vec<(String, JsonValue)> = Vec::new();
    e.push((component_id, payload));
    let ghost e1 = e@;
    match pack_alias {
        Some(a) => {
            e.push((String::from_str("pack_alias"), JsonValue::String(a)));
        },
        None => {},
    }
    let ghost e2 = e@;
    match operation {
        Some(o) => {
            e.push((String::from_str("operation"), JsonValue::String(o)));
        },
        None => {},
    }
    let ghost e3 = e@;
    e.push((String::from_str("routing"), routes_to_json(&routing)));
    proof {
        lemma_jv_entries(e@);
        assert(ev(e@) =~= node_map_v(nv)->Object_0);
    }
    JsonValue::Object(e)
}

pub fn extract_config_output(value: &JsonValue) -> (r: Result<ConfigFlowOutput, FlowError>)
    ensures
        match r {
            Ok(o) => extract_v(value@) == Ok::<_, ExtractErr>((o.node_id@, o.node@)),
            Err(e) => (extract_v(value@) matches Err(x) && extract_err_is(x, e)),
        },
{
    proof {
        reveal_strlit("node_id");
        reveal_strlit("node");
        reveal_strlit("tool");
    }
    let node_id = match value.get("node_id") {
        Some(JsonValue::String(s)) => s.clone(),
        _ => {
            return Err(FlowError::internal(String::from_str("config flow output missing node_id"), String::from_str("node_id")));
        },
    };
    let node = match value.get("node") {
        Some(n) => deep_clone(n),
        None => {
            return Err(FlowError::internal(String::from_str("config flow output missing node"), String::from_str("node")));
        },
    };
    if node.get("tool").is_some() {
        let normalized = normalize_node_map(node)?;
        return Ok(ConfigFlowOutput { node_id, node: node_map(normalized) });
    }
    Ok(ConfigFlowOutput { node_id, node })
}

/// A config flow's document with `type` set to `component-config` unless it
/// is already text.
pub open spec fn normalize_type_v(v: JsonV) -> JsonV {
    match v {
        JsonV::Object(e) => match obj_get_v(e, "type"@) {
            Some(JsonV::Str(_)) => v,
            _ => JsonV::Object(obj_insert_v(e, "type"@, JsonV::Str("component-config"@))),
        },
        _ => v,
    }
}

pub fn normalize_config_flow_value(v: JsonValue) -> (r: JsonValue)
    ensures
        r@ == normalize_type_v(v@),
{
    proof {
        reveal_strlit("type");
    }
    match v {
        JsonValue::Object(mut e) => {
            let is_text = match obj_get(&e, "type") {
                Some(JsonValue::String(_)) => true,
                _ => false,
            };
            if !is_text {
                obj_insert(&mut e, String::from_str("type"), JsonValue::String(String::from_str("component-config")));
            }
            JsonValue::Object(e)
        },
        other => other,
    }
}


// ---------------------------------------------------------------------------
// Running the flow
// ---------------------------------------------------------------------------

/// Where a config flow starts: its start node, else `in` if there is such
/// a node, else its first node, else `in`.
pub open spec fn entry_v(d: FlowDocV) -> Seq<char> {
    match d.start {
        Some(s) => s,
        None => if kseq(d.nodes).contains("in"@) {
            "in"@
        } else if d.nodes.len() > 0 {
            d.nodes[0].0
        } else {
            "in"@
        },
    }
}

/// The node that follows: the target of the first route that has one and
/// does not leave the flow.
pub open spec fn next_of(routes: Seq<RouteV>) -> Option<Seq<char>>
    decreases routes.len(),
{
    if routes.len() == 0 {
        None
    } else if routes[0].to is Some && !routes[0].out {
        routes[0].to
    } else {
        next_of(routes.drop_first())
    }
}

/// The walk from `current` with `fuel` steps left: questions nodes update
/// the state, the first template node reached ends the walk with its text
/// and the state; refusals give the error's message and path.
pub open spec fn walk_v(nodes: Seq<(Seq<char>, NodeDocV)>, current: Seq<char>, state: Entries, fuel: nat) -> Result<
    (Seq<char>, Entries),
    (Seq<char>, Seq<char>),
>
    decreases fuel,
{
    if fuel == 0 {
        Err(("config flow exceeded traversal limit"@, "nodes"@))
    } else if !valid_node_id(current) {
        Err(("invalid node identifier '"@ + current + "': "@ + node_id_error(current), "nodes."@ + current))
    } else {
        match aget(nodes, current) {
            None => Err(("node '"@ + current + "' missing during config flow execution"@, "nodes."@ + current)),
            Some(n) => if n.component == "template"@ {
                match n.payload {
                    JsonV::Str(t) => Ok((t, state)),
                    _ => Err(("template node payload must be a string"@, "template"@)),
                }
            } else if n.component == "questions"@ {
                match apply_questions_v(n.payload, state) {
                    Err(x) => Err(x),
                    Ok(st) => match decode_routes(n.routing) {
                        None => Err(("unsupported routing shape in config flow"@, "nodes."@ + current + ".routing"@)),
                        Some(rs) => match next_of(rs) {
                            None => Err(("config flow terminated without reaching template node"@, "nodes"@)),
                            Some(t) => walk_v(nodes, t, st, (fuel - 1) as nat),
                        },
                    },
                }
            } else {
                Err(("unsupported component '"@ + n.component + "' in config flow"@, "nodes."@ + current))
            },
        }
    }
}

/// The walk of a whole flow, from its entry, with the answers as the first
/// state and at most four steps more than it has nodes.
pub open spec fn run_v(d: FlowDocV, answers: Entries) -> Result<(Seq<char>, Entries), (Seq<char>, Seq<char>)> {
    walk_v(d.nodes, entry_v(d), answers, (if d.nodes.len() + 4 <= usize::MAX { (d.nodes.len() + 4) as int } else { usize::MAX as int }) as nat)
}

/// Where a run stopped: the template text to render and the state.
#[derive(Debug)]
pub struct ConfigFlowRun {
    pub template: String,
    pub state: Vec<(String, JsonValue)>,
}

fn resolve_entry(doc: &FlowDoc) -> (r: String)
    ensures
        r@ == entry_v(doc@),
{
    proof {
        lemma_doc_nodes_v(doc.nodes@);
        reveal_strlit("in");
    }
    match &doc.start {
        Some(s) => s.clone(),
        None => {
            if crate::assoc::has_key(&doc.nodes, "in") {
                String::from_str("in")
            } else if doc.nodes.len() > 0 {
                assert(doc@.nodes[0].0 == doc.nodes@[0].0@);
                doc.nodes[0].0.clone()
            } else {
                String::from_str("in")
            }
        },
    }
}

fn next_node(routes: &Vec<Route>) -> (r: Option<String>)
    ensures
        opt_str(r) == next_of(routes_v(routes@)),
{
    let ghost rs = routes_v(routes@);
    let mut i: usize = 0;
    proof {
        assert(rs.skip(0) =~= rs);
    }
    while i < routes.len()
        invariant
            i <= routes.len(),
            rs == routes_v(routes@),
            next_of(rs) == next_of(rs.skip(i as int)),
        decreases routes.len() - i,
    {
        proof {
            assert(rs.skip(i as int)[0] == routes@[i as int]@);
            assert(rs.skip(i as int).drop_first() =~= rs.skip(i + 1));
        }
        match &routes[i].to {
            Some(t) => {
                if !routes[i].out {
                    return Some(t.clone());
                }
            },
            None => {},
        }
        i = i + 1;
    }
    proof {
        assert(rs.skip(routes.len() as int) =~= Seq::<RouteV>::empty());
    }
    None
}

/// Runs a loaded config flow from its entry until a template node: each
/// questions node seeds the state from the answers or its defaults.
pub fn run_config_flow(doc: &FlowDoc, answers: &Vec<(String, JsonValue)>) -> (r: Result<ConfigFlowRun, FlowError>)
    ensures
        match r {
            Ok(run) => run_v(doc@, ev(answers@)) == Ok::<_, (Seq<char>, Seq<char>)>((run.template@, ev(run.state@))),
            Err(e) => (run_v(doc@, ev(answers@)) matches Err(x) && internal_is(e, x.0, x.1)),
        },
{
    proof {
        lemma_doc_nodes_v(doc.nodes@);
        reveal_strlit("questions");
        reveal_strlit("template");
    }
    let ghost nodes = doc@.nodes;
    let mut state = clone_entries(answers);
    let mut current = resolve_entry(doc);
    let n = doc.nodes.len();
    let limit: usize = if n <= usize::MAX - 4 { n + 4 } else { usize::MAX };
    let mut visited: usize = 0;
    while visited < limit
        invariant
            visited <= limit,
            limit == (if n + 4 <= usize::MAX { n + 4 } else { usize::MAX as int }),
            n == doc.nodes.len(),
            nodes == doc@.nodes,
            nodes == doc_nodes_v(doc.nodes@),
            kseq(nodes) == keys_of(doc.nodes@),
            nodes == map_vals(kv(doc.nodes@), |x: NodeDoc| x@),
            run_v(doc@, ev(answers@)) == walk_v(nodes, current@, ev(state@), (limit - visited) as nat),
        decreases limit - visited,
    {
        let ghost fuel = (limit - visited) as nat;
        visited = visited + 1;
        match check_node_id(current.as_str()) {
            Ok(()) => {},
            Err(detail) => {
                let mut m = String::from_str("invalid node identifier '");
                m.append(current.as_str());
                m.append("': ");
                m.append(detail.as_str());
                return Err(FlowError::internal(m, concat("nodes.", current.as_str())));
            },
        }
        proof {
            lemma_aget_map(kv(doc.nodes@), current@, |x: NodeDoc| x@);
        }
        let node = match get_key(&doc.nodes, current.as_str()) {
            Some(node) => node,
            None => {
                return Err(FlowError::internal(
                    concat3("node '", current.as_str(), "' missing during config flow execution"),
                    concat("nodes.", current.as_str()),
                ));
            },
        };
        if str_eq(node.component.as_str(), "template") {
            match &node.payload {
                JsonValue::String(t) => {
                    return Ok(ConfigFlowRun { template: t.clone(), state });
                },
                _ => {
                    return Err(FlowError::internal(
                        String::from_str("template node payload must be a string"),
                        String::from_str("template"),
                    ));
                },
            }
        } else if str_eq(node.component.as_str(), "questions") {
            apply_questions(&node.payload, &mut state)?;
            let routes = match routes_from_json(&node.routing) {
                Some(rs) => rs,
                None => {
                    let mut p = concat("nodes.", current.as_str());
                    p.append(".routing");
                    return Err(FlowError::internal(String::from_str("unsupported routing shape in config flow"), p));
                },
            };
            match next_node(&routes) {
                Some(t) => {
                    current = t;
                },
                None => {
                    return Err(FlowError::internal(
                        String::from_str("config flow terminated without reaching template node"),
                        String::from_str("nodes"),
                    ));
                },
            }
        } else {
            return Err(FlowError::internal(
                concat3("unsupported component '", node.component.as_str(), "' in config flow"),
                concat("nodes.", current.as_str()),
            ));
        }
    }
    Err(FlowError::internal(String::from_str("config flow exceeded traversal limit"), String::from_str("nodes")))
}

/// Renders the output of a run: `parsed` is the template text read as
/// JSON (or the parser's message), state references are replaced, and the
/// output is checked.
pub fn render_config_output(parsed: Result<JsonValue, String>, state: &Vec<(String, JsonValue)>) -> (r: Result<
    ConfigFlowOutput,
    FlowError,
>)
    ensures
        match parsed {
            Err(m) => internal_is(r->Err_0, "template JSON parse error: "@ + m@, "template"@) && r is Err,
            Ok(v) => match subst_v(v@, ev(state@)) {
                Err(k) => r is Err && internal_is(r->Err_0, "state value for '"@ + k + "' not found"@, "state."@ + k),
                Ok(w) => match extract_v(w) {
                    Ok((id, node)) => r matches Ok(o) && o.node_id@ == id && o.node@ == node,
                    Err(x) => r is Err && extract_err_is(x, r->Err_0),
                },
            },
        },
{
    let value = match parsed {
        Ok(v) => v,
        Err(m) => {
            return Err(FlowError::internal(concat("template JSON parse error: ", m.as_str()), String::from_str("template")));
        },
    };
    let rendered = substitute_state(&value, state)?;
    extract_config_output(&rendered)
}

/// A questions node never overwrites the state: every key already in the
/// state keeps its value; a field's default fills only an id that the state
/// lacks (the first field with that id deciding).
pub proof fn law_questions_keep_answers(payload: JsonV, state: Entries)
    ensures
        apply_questions_v(payload, state) matches Ok(st) ==> {
            &&& forall|k: Seq<char>| #[trigger] has_key(state, k) ==> has_key(st, k) && obj_get_v(st, k) == obj_get_v(state, k)
        },
        apply_questions_v(payload, state) matches Ok(st) ==> (get_v(payload, "fields"@) matches Some(JsonV::Array(fields))
            && forall|i: int|
            0 <= i < fields.len() && (get_v(#[trigger] fields[i], "id"@) matches Some(JsonV::Str(id)) && !has_key(state, id)
                && forall|j: int| 0 <= j < i ==> !(get_v(#[trigger] fields[j], "id"@) == Some(JsonV::Str(id))))
                ==> obj_get_v(st, get_v(fields[i], "id"@)->Some_0->Str_0) == get_v(fields[i], "default"@)),
{
    if let Some(JsonV::Array(fields)) = get_v(payload, "fields"@) {
        assert forall|k: Seq<char>| #[trigger] has_key(state, k) implies (questions_fold(fields, state) matches Ok(st)
            ==> has_key(st, k) && obj_get_v(st, k) == obj_get_v(state, k)) by {
            lemma_questions_keep(fields, state, k);
        }
        assert forall|i: int|
            0 <= i < fields.len() && (get_v(#[trigger] fields[i], "id"@) matches Some(JsonV::Str(id)) && !has_key(state, id)
                && forall|j: int| 0 <= j < i ==> !(get_v(#[trigger] fields[j], "id"@) == Some(JsonV::Str(id)))) implies (
        questions_fold(fields, state) matches Ok(st) ==> obj_get_v(st, get_v(fields[i], "id"@)->Some_0->Str_0) == get_v(
            fields[i],
            "default"@,
        )) by {
            lemma_questions_answer(fields, state, i);
        }
    }
}

} // verus!
