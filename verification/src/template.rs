//! Rendering a config node's JSON template against the state: state
//! references become tokens before rendering, and tokens in the rendered
//! JSON become the state values after it. The rendering engine itself runs
//! outside the library and hands its result back.
use vstd::prelude::*;
use crate::config_flow::internal_is;
use crate::error::{opt_ref, FlowError};
use crate::json::{
    JsonValue, JsonV, Entries, obj_get_v, ev, jv, jv_seq, obj_get, deep_clone, lemma_jv_seq, lemma_jv_entries,
};
use crate::text::{concat, concat3, ends_with, starts_with, strip_prefix, strip_suffix};

verus! {

pub const STATE_TOKEN_PREFIX: &'static str = "__STATE_TOKEN__";

pub const STATE_TOKEN_SUFFIX: &'static str = "__";

/// The token that stands for state value `key` in a rendered template.
pub fn state_token_value(key: &str) -> (r: String)
    ensures
        r@ == "__STATE_TOKEN__"@ + key@ + "__"@,
{
    concat3(STATE_TOKEN_PREFIX, key, STATE_TOKEN_SUFFIX)
}

/// ` in manifest '<id>'`, or nothing.
pub fn manifest_label(manifest_id: Option<&str>) -> (r: String)
    ensures
        r@ == match opt_ref(manifest_id) {
            Some(id) => " in manifest '"@ + id + "'"@,
            None => Seq::<char>::empty(),
        },
{
    match manifest_id {
        Some(id) => concat3(" in manifest '", id, "'"),
        None => String::new(),
    }
}

/// The template with every `{{ state.key }}` (a key of letters, digits and
/// underscores, not starting with a digit) replaced by the key's token, as
/// the `regex` crate finds them.
pub uninterp spec fn state_refs_replaced(template: Seq<char>) -> Seq<char>;

/// `regex::Regex::replace_all` of the state-reference pattern, each match
/// replaced by the token of its key. Its result is named, not stated.
#[verifier::external_body]
fn replace_state_refs(template: &str) -> (r: String)
    ensures
        r@ == state_refs_replaced(template@),
{
    let re = regex::Regex::new(r"\{\{\s*state\.([A-Za-z_]\w*)\s*\}\}").unwrap();
    re.replace_all(template, |caps: &regex::Captures<'_>| state_token_value(caps.get(1).map_or("", |m| m.as_str())))
        .to_string()
}

/// The template as it goes to the rendering engine.
pub fn preprocess_template(template: &str) -> (r: String)
    ensures
        r@ == state_refs_replaced(template@),
{
    replace_state_refs(template)
}

/// The state key that a whole string stands for as a token.
pub open spec fn token_key_v(s: Seq<char>) -> Option<Seq<char>> {
    let rest = s.skip("__STATE_TOKEN__"@.len() as int);
    if starts_with(s, "__STATE_TOKEN__"@) && ends_with(rest, "__"@) {
        Some(rest.subrange(0, rest.len() - "__"@.len()))
    } else {
        None
    }
}

/// The value with each token string replaced by its state value; `Err`
/// names the first key, in document order, that the state lacks.
pub open spec fn token_subst_v(v: JsonV, state: Entries) -> Result<JsonV, Seq<char>>
    decreases v,
{
    match v {
        JsonV::Str(s) => match token_key_v(s) {
            Some(k) => match obj_get_v(state, k) {
                Some(x) => Ok(x),
                None => Err(k),
            },
            None => Ok(v),
        },
        JsonV::Array(items) => match token_subst_seq(items, state) {
            Ok(r) => Ok(JsonV::Array(r)),
            Err(k) => Err(k),
        },
        JsonV::Object(entries) => match token_subst_entries(entries, state) {
            Ok(r) => Ok(JsonV::Object(r)),
            Err(k) => Err(k),
        },
        _ => Ok(v),
    }
}

pub open spec fn token_subst_seq(items: Seq<JsonV>, state: Entries) -> Result<Seq<JsonV>, Seq<char>>
    decreases items,
{
    if items.len() == 0 {
        Ok(Seq::empty())
    } else {
        match token_subst_seq(items.drop_last(), state) {
            Err(k) => Err(k),
            Ok(prev) => match token_subst_v(items.last(), state) {
                Err(k) => Err(k),
                Ok(x) => Ok(prev.push(x)),
            },
        }
    }
}

pub open spec fn token_subst_entries(entries: Entries, state: Entries) -> Result<Entries, Seq<char>>
    decreases entries,
{
    if entries.len() == 0 {
        Ok(Seq::empty())
    } else {
        match token_subst_entries(entries.drop_last(), state) {
            Err(k) => Err(k),
            Ok(prev) => match token_subst_v(entries.last().1, state) {
                Err(k) => Err(k),
                Ok(x) => Ok(prev.push((entries.last().0, x))),
            },
        }
    }
}

proof fn lemma_token_seq_prefix(items: Seq<JsonV>, state: Entries, j: int)
    requires
        0 <= j <= items.len(),
        token_subst_seq(items.subrange(0, j), state) is Err,
    ensures
        token_subst_seq(items, state) == token_subst_seq(items.subrange(0, j), state),
    decreases items.len(),
{
    if j < items.len() {
        assert(items.drop_last().subrange(0, j) =~= items.subrange(0, j));
        lemma_token_seq_prefix(items.drop_last(), state, j);
    } else {
        assert(items.subrange(0, j) =~= items);
    }
}

proof fn lemma_token_entries_prefix(entries: Entries, state: Entries, j: int)
    requires
        0 <= j <= entries.len(),
        token_subst_entries(entries.subrange(0, j), state) is Err,
    ensures
        token_subst_entries(entries, state) == token_subst_entries(entries.subrange(0, j), state),
    decreases entries.len(),
{
    if j < entries.len() {
        assert(entries.drop_last().subrange(0, j) =~= entries.subrange(0, j));
        lemma_token_entries_prefix(entries.drop_last(), state, j);
    } else {
        assert(entries.subrange(0, j) =~= entries);
    }
}

fn token_key(s: &String) -> (r: Option<String>)
    ensures
        match r {
            Some(k) => token_key_v(s@) == Some(k@),
            None => token_key_v(s@) is None,
        },
{
    match strip_prefix(s.as_str(), STATE_TOKEN_PREFIX) {
        Some(rest) => match strip_suffix(rest.as_str(), STATE_TOKEN_SUFFIX) {
            Some(k) => Some(k),
            None => None,
        },
        None => None,
    }
}

/// Replaces each string that is exactly a state token by the state value.
pub fn substitute_state_tokens(target: &JsonValue, state: &Vec<(String, JsonValue)>) -> (r: Result<JsonValue, String>)
    ensures
        match r {
            Ok(v) => token_subst_v(target@, ev(state@)) == Ok::<JsonV, Seq<char>>(v@),
            Err(m) => (token_subst_v(target@, ev(state@)) matches Err(k) && m@ == "state value for '"@ + k + "' not found"@),
        },
    decreases target,
{
    match target {
        JsonValue::String(s) => {
            match token_key(s) {
                Some(key) => match obj_get(state, key.as_str()) {
                    Some(val) => Ok(deep_clone(val)),
                    None => Err(concat3("state value for '", key.as_str(), "' not found")),
                },
                None => Ok(JsonValue::String(s.clone())),
            }
        },
        JsonValue::Array(items) => {
            proof {
                lemma_jv_seq(items@);
            }
            let ghost iv = jv_seq(items@);
            let mut out: Vec<JsonValue> = Vec::new();
            let mut i: usize = 0;
            proof {
                assert(iv.subrange(0, 0) =~= Seq::<JsonV>::empty());
                assert(jv_seq(out@) =~= Seq::<JsonV>::empty());
            }
            while i < items.len()
                invariant
                    i <= items.len(),
                    *target == JsonValue::Array(*items),
                    iv == jv_seq(items@),
                    iv.len() == items@.len(),
                    forall|k: int| 0 <= k < items@.len() ==> #[trigger] iv[k] == jv(items@[k]),
                    token_subst_seq(iv.subrange(0, i as int), ev(state@)) == Ok::<Seq<JsonV>, Seq<char>>(jv_seq(out@)),
                decreases items.len() - i,
            {
                proof {
                    broadcast use vstd::std_specs::vec::axiom_vec_decreases_to_view;
                    assert(decreases_to!(*target => (*target)->Array_0));
                    assert(decreases_to!(*items => items@));
                    assert(decreases_to!(items@ => items@[i as int]));
                }
                let ghost cur = iv.subrange(0, i + 1);
                proof {
                    assert(cur.drop_last() =~= iv.subrange(0, i as int));
                    assert(cur.last() == iv[i as int]);
                }
                let x = match substitute_state_tokens(&items[i], state) {
                    Ok(x) => x,
                    Err(e) => {
                        proof {
                            lemma_token_seq_prefix(iv, ev(state@), i + 1);
                        }
                        return Err(e);
                    },
                };
                let ghost before = out@;
                out.push(x);
                proof {
                    assert(out@.drop_last() =~= before);
                }
                i = i + 1;
            }
            proof {
                assert(iv.subrange(0, items.len() as int) =~= iv);
            }
            Ok(JsonValue::Array(out))
        },
        JsonValue::Object(entries) => {
            proof {
                lemma_jv_entries(entries@);
            }
            let ghost ev0 = ev(entries@);
            let mut out: Vec<(String, JsonValue)> = Vec::new();
            let mut i: usize = 0;
            proof {
                assert(ev0.subrange(0, 0) =~= Seq::<(Seq<char>, JsonV)>::empty());
                assert(ev(out@) =~= Seq::<(Seq<char>, JsonV)>::empty());
            }
            while i < entries.len()
                invariant
                    i <= entries.len(),
                    *target == JsonValue::Object(*entries),
                    ev0 == ev(entries@),
                    ev0.len() == entries@.len(),
                    forall|k: int| 0 <= k < entries@.len() ==> #[trigger] ev0[k] == (entries@[k].0@, jv(entries@[k].1)),
                    token_subst_entries(ev0.subrange(0, i as int), ev(state@)) == Ok::<Entries, Seq<char>>(ev(out@)),
                decreases entries.len() - i,
            {
                proof {
                    broadcast use vstd::std_specs::vec::axiom_vec_decreases_to_view;
                    assert(decreases_to!(*target => (*target)->Object_0));
                    assert(decreases_to!(*entries => entries@));
                    assert(decreases_to!(entries@ => entries@[i as int]));
                    assert(decreases_to!(entries@[i as int] => entries@[i as int].1));
                }
                let ghost cur = ev0.subrange(0, i + 1);
                proof {
                    assert(cur.drop_last() =~= ev0.subrange(0, i as int));
                    assert(cur.last() == ev0[i as int]);
                }
                let x = match substitute_state_tokens(&entries[i].1, state) {
                    Ok(x) => x,
                    Err(e) => {
                        proof {
                            lemma_token_entries_prefix(ev0, ev(state@), i + 1);
                        }
                        return Err(e);
                    },
                };
                let ghost before = out@;
                out.push((entries[i].0.clone(), x));
                proof {
                    assert(out@.drop_last() =~= before);
                }
                i = i + 1;
            }
            proof {
                assert(ev0.subrange(0, entries.len() as int) =~= ev0);
            }
            Ok(JsonValue::Object(out))
        },
        _ => Ok(deep_clone(target)),
    }
}

/// What the rendering engine handed back when it failed: a rendering error
/// or a rendered text that is not JSON, each with the engine's message.
#[derive(Debug)]
pub enum TemplateFailure {
    Render(String),
    Parse(String),
}

pub open spec fn label_v(manifest_id: Option<Seq<char>>) -> Seq<char> {
    match manifest_id {
        Some(id) => " in manifest '"@ + id + "'"@,
        None => Seq::<char>::empty(),
    }
}

/// The outcome of rendering a node's template: the rendered JSON with the
/// state tokens replaced, or an internal error located at the node's
/// template, naming the node and the manifest.
pub open spec fn render_outcome_v(
    rendered: Result<JsonV, (bool, Seq<char>)>,
    state: Entries,
    node_id: Seq<char>,
    manifest_id: Option<Seq<char>>,
) -> Result<JsonV, Seq<char>> {
    let label = label_v(manifest_id);
    match rendered {
        Err((true, e)) => Err("template render error in node '"@ + node_id + "'"@ + label + ": "@ + e),
        Err((false, e)) => Err("template JSON parse error in node '"@ + node_id + "'"@ + label + ": "@ + e),
        Ok(v) => match token_subst_v(v, state) {
            Ok(x) => Ok(x),
            Err(k) => Err("state value for '"@ + k + "' not found"@ + " (node '"@ + node_id + "'"@ + label + ")"@),
        },
    }
}

pub open spec fn failure_v(r: Result<JsonValue, TemplateFailure>) -> Result<JsonV, (bool, Seq<char>)> {
    match r {
        Ok(v) => Ok(v@),
        Err(TemplateFailure::Render(e)) => Err((true, e@)),
        Err(TemplateFailure::Parse(e)) => Err((false, e@)),
    }
}

/// Finishes a rendering: maps the engine's failure, or substitutes the state
/// tokens of the rendered JSON.
pub fn finish_render(
    rendered: Result<JsonValue, TemplateFailure>,
    state: &Vec<(String, JsonValue)>,
    node_id: &str,
    manifest_id: Option<&str>,
) -> (r: Result<JsonValue, FlowError>)
    ensures
        match render_outcome_v(failure_v(rendered), ev(state@), node_id@, opt_ref(manifest_id)) {
            Ok(v) => r matches Ok(x) && x@ == v,
            Err(m) => r matches Err(e) && internal_is(e, m, "nodes."@ + node_id@ + ".template"@),
        },
{
    let label = manifest_label(manifest_id);
    let path = concat3("nodes.", node_id, ".template");
    match rendered {
        Err(TemplateFailure::Render(e)) => {
            let a = concat3("template render error in node '", node_id, "'");
            let b = concat3(a.as_str(), label.as_str(), ": ");
            let m = concat(b.as_str(), e.as_str());
            Err(FlowError::internal(m, path))
        },
        Err(TemplateFailure::Parse(e)) => {
            let a = concat3("template JSON parse error in node '", node_id, "'");
            let b = concat3(a.as_str(), label.as_str(), ": ");
            let m = concat(b.as_str(), e.as_str());
            Err(FlowError::internal(m, path))
        },
        Ok(v) => match substitute_state_tokens(&v, state) {
            Ok(x) => Ok(x),
            Err(msg) => {
                let a = concat3(msg.as_str(), " (node '", node_id);
                let m = concat3(a.as_str(), "'", label.as_str());
                let m2 = concat(m.as_str(), ")");
                Err(FlowError::internal(m2, path))
            },
        },
    }
}


/// A state value written into a template as its token comes back as that
/// value: the token of `k` stands for `k`, and substitution reads `k` from
/// the state.
pub proof fn law_token_comes_back(k: Seq<char>, state: Entries)
    requires
        crate::json::has_key(state, k),
    ensures
        token_key_v("__STATE_TOKEN__"@ + k + "__"@) == Some(k),
        token_subst_v(JsonV::Str("__STATE_TOKEN__"@ + k + "__"@), state) == Ok::<JsonV, Seq<char>>(
            obj_get_v(state, k)->0,
        ),
{
    let p = "__STATE_TOKEN__"@;
    let sfx = "__"@;
    let s = p + k + sfx;
    assert(s.subrange(0, p.len() as int) =~= p);
    let rest = s.skip(p.len() as int);
    assert(rest =~= k + sfx);
    assert(rest.subrange(rest.len() - sfx.len(), rest.len() as int) =~= sfx);
    assert(rest.subrange(0, rest.len() - sfx.len()) =~= k);
}

} // verus!
