//! Resolving `parameters.*` references inside a JSON value.
use vstd::prelude::*;
use crate::error::{FlowError, FlowErrorLocation};
use crate::json::{JsonValue, JsonV, Entries, ev, jv, jv_seq, obj_get_v, obj_get, lemma_jv_entries, lemma_jv_seq, deep_clone};
use crate::step_edit::split_all_v;
use crate::text::{concat, concat3, dec, u64_to_dec, split_once, split_once_v, strip_prefix, starts_with};
use crate::util::{regex_is_match, regex_match_v};

verus! {

pub open spec fn ref_pattern() -> Seq<char> {
    "^[a-zA-Z_]\\w*(?:\\.[a-zA-Z_]\\w*)+$"@
}

/// A dotted reference such as `parameters.region`.
pub open spec fn is_ref(s: Seq<char>) -> bool {
    regex_match_v(ref_pattern(), s) == Some(true)
}

fn is_reference(s: &str) -> (r: bool)
    ensures
        r == is_ref(s@),
{
    match regex_is_match("^[a-zA-Z_]\\w*(?:\\.[a-zA-Z_]\\w*)+$", s) {
        Some(b) => b,
        None => false,
    }
}

/// Following the dotted path through nested objects.
pub open spec fn walk_path(cur: JsonV, parts: Seq<Seq<char>>, path: Seq<char>, loc: Seq<char>) -> Result<JsonV, Seq<char>>
    decreases parts.len(),
{
    if parts.len() == 0 {
        Ok(cur)
    } else {
        match cur {
            JsonV::Object(m) => match obj_get_v(m, parts[0]) {
                Some(next) => walk_path(next, parts.drop_first(), path, loc),
                None => Err("Unknown parameters."@ + path + " at "@ + loc),
            },
            _ => Err("parameters."@ + path + " at "@ + loc + " not an object"@),
        }
    }
}

pub open spec fn lookup_v(root: JsonV, path: Seq<char>, loc: Seq<char>) -> Result<JsonV, Seq<char>> {
    walk_path(root, split_all_v(path, '.'), path, loc)
}

/// The value with each `parameters.<path>` string replaced by what the
/// path names in `params`; other references and values stay. `Err` is the
/// message for the first path, in document order, that names nothing.
pub open spec fn resolve_v(v: JsonV, params: JsonV, loc: Seq<char>) -> Result<JsonV, Seq<char>>
    decreases v,
{
    match v {
        JsonV::Str(s) => if is_ref(s) && starts_with(s, "parameters."@) {
            lookup_v(params, s.skip(11), loc)
        } else {
            Ok(v)
        },
        JsonV::Array(items) => match resolve_items(items, params, loc, items.len() as int) {
            Ok(r) => Ok(JsonV::Array(r)),
            Err(m) => Err(m),
        },
        JsonV::Object(entries) => match resolve_entries(entries, params, loc, entries.len() as int) {
            Ok(r) => Ok(JsonV::Object(r)),
            Err(m) => Err(m),
        },
        _ => Ok(v),
    }
}

/// The first `n` items resolved, item `i` at `loc[i]`.
pub open spec fn resolve_items(items: Seq<JsonV>, params: JsonV, loc: Seq<char>, n: int) -> Result<Seq<JsonV>, Seq<char>>
    decreases items, n,
{
    if n <= 0 || n > items.len() {
        Ok(Seq::empty())
    } else {
        match resolve_items(items, params, loc, n - 1) {
            Err(m) => Err(m),
            Ok(prev) => {
                let item = items[n - 1];
                match resolve_v(item, params, loc + "["@ + dec((n - 1) as nat) + "]"@) {
                    Err(m) => Err(m),
                    Ok(x) => Ok(prev.push(x)),
                }
            },
        }
    }
}

/// The first `n` entries resolved, entry `key` at `loc.key`.
pub open spec fn resolve_entries(entries: Entries, params: JsonV, loc: Seq<char>, n: int) -> Result<Entries, Seq<char>>
    decreases entries, n,
{
    if n <= 0 || n > entries.len() {
        Ok(Seq::empty())
    } else {
        match resolve_entries(entries, params, loc, n - 1) {
            Err(m) => Err(m),
            Ok(prev) => {
                let e = entries[n - 1];
                match resolve_v(e.1, params, loc + "."@ + e.0) {
                    Err(m) => Err(m),
                    Ok(x) => Ok(prev.push((e.0, x))),
                }
            },
        }
    }
}

fn lookup(root: &JsonValue, path: &str, loc: &str) -> (r: Result<JsonValue, String>)
    ensures
        match r {
            Ok(v) => lookup_v(root@, path@, loc@) == Ok::<JsonV, Seq<char>>(v@),
            Err(m) => lookup_v(root@, path@, loc@) == Err::<JsonV, Seq<char>>(m@),
        },
{
    let mut cur: JsonValue = deep_clone(root);
    let mut rest = String::from_str(path);
    loop
        invariant_except_break
            lookup_v(root@, path@, loc@) == walk_path(cur@, split_all_v(rest@, '.'), path@, loc@),
        ensures
            lookup_v(root@, path@, loc@) == walk_path(cur@, Seq::<Seq<char>>::empty(), path@, loc@),
        decreases rest@.len(),
    {
        let (part, next, last) = match split_once(rest.as_str(), '.') {
            Some((a, b)) => (a, b, false),
            None => (String::from_str(rest.as_str()), String::new(), true),
        };
        let ghost parts = split_all_v(rest@, '.');
        proof {
            crate::text::lemma_char_pos(rest@, '.');
            if !last {
                assert(parts == seq![part@] + split_all_v(next@, '.'));
                assert(parts[0] == part@);
                assert(parts.drop_first() =~= split_all_v(next@, '.'));
            } else {
                assert(parts == seq![rest@]);
                assert(parts[0] == part@);
                assert(parts.drop_first() =~= Seq::<Seq<char>>::empty());
            }
        }
        let found = match &cur {
            JsonValue::Object(m) => match obj_get(m, part.as_str()) {
                Some(v) => Ok(deep_clone(v)),
                None => Err(true),
            },
            _ => Err(false),
        };
        match found {
            Ok(v) => {
                cur = v;
            },
            Err(unknown) => {
                let mut m = if unknown {
                    concat("Unknown parameters.", path)
                } else {
                    concat("parameters.", path)
                };
                m.append(" at ");
                m.append(loc);
                if !unknown {
                    m.append(" not an object");
                }
                return Err(m);
            },
        }
        if last {
            break;
        }
        rest = next;
    }
    Ok(cur)
}

fn usize_text(n: usize) -> (s: String)
    ensures
        s@ == dec(n as nat),
{
    u64_to_dec(n as u64)
}

proof fn lemma_items_prefix(items: Seq<JsonV>, params: JsonV, loc: Seq<char>, j: int)
    requires
        0 <= j <= items.len(),
        resolve_items(items, params, loc, j) is Err,
    ensures
        resolve_items(items, params, loc, items.len() as int) == resolve_items(items, params, loc, j),
    decreases items.len() - j,
{
    if j < items.len() {
        lemma_items_prefix(items, params, loc, j + 1);
    }
}

proof fn lemma_entries_prefix(entries: Entries, params: JsonV, loc: Seq<char>, j: int)
    requires
        0 <= j <= entries.len(),
        resolve_entries(entries, params, loc, j) is Err,
    ensures
        resolve_entries(entries, params, loc, entries.len() as int) == resolve_entries(entries, params, loc, j),
    decreases entries.len() - j,
{
    if j < entries.len() {
        lemma_entries_prefix(entries, params, loc, j + 1);
    }
}

/// Resolves `parameters.*` references in a value; `loc` names where the
/// value sits, for messages.
pub fn resolve_parameters(value: &JsonValue, parameters: &JsonValue, loc: &str) -> (r: Result<JsonValue, FlowError>)
    ensures
        match r {
            Ok(v) => resolve_v(value@, parameters@, loc@) == Ok::<JsonV, Seq<char>>(v@),
            Err(e) => (resolve_v(value@, parameters@, loc@) matches Err(m) && e matches FlowError::Internal {
                message,
                location,
            } && message@ == m && location.path is None && location.line is None && location.column is None),
        },
    decreases value,
{
    match value {
        JsonValue::String(s) => {
            proof {
                reveal_strlit("parameters.");
            }
            if is_reference(s.as_str()) {
                if let Some(rest) = strip_prefix(s.as_str(), "parameters.") {
                    return match lookup(parameters, rest.as_str(), loc) {
                        Ok(v) => Ok(v),
                        Err(m) => Err(FlowError::Internal { message: m, location: FlowErrorLocation::new(None, None, None) }),
                    };
                }
            }
            Ok(JsonValue::String(s.clone()))
        },
        JsonValue::Array(items) => {
            proof {
                lemma_jv_seq(items@);
            }
            let ghost iv = jv_seq(items@);
            let mut out: Vec<JsonValue> = Vec::new();
            let mut i: usize = 0;
            proof {
                assert(jv_seq(out@) =~= Seq::<JsonV>::empty());
            }
            while i < items.len()
                invariant
                    i <= items.len(),
                    *value == JsonValue::Array(*items),
                    iv == jv_seq(items@),
                    iv.len() == items@.len(),
                    forall|k: int| 0 <= k < items@.len() ==> #[trigger] iv[k] == jv(items@[k]),
                    resolve_items(iv, parameters@, loc@, i as int) == Ok::<Seq<JsonV>, Seq<char>>(jv_seq(out@)),
                decreases items.len() - i,
            {
                proof {
                    broadcast use vstd::std_specs::vec::axiom_vec_decreases_to_view;
                    assert(decreases_to!(*value => (*value)->Array_0));
                    assert(decreases_to!(*items => items@));
                    assert(decreases_to!(items@ => items@[i as int]));
                }
                let mut item_loc = concat(loc, "[");
                item_loc.append(usize_text(i).as_str());
                item_loc.append("]");
                let x = match resolve_parameters(&items[i], parameters, item_loc.as_str()) {
                    Ok(x) => x,
                    Err(e) => {
                        proof {
                            lemma_items_prefix(iv, parameters@, loc@, i + 1);
                        }
                        return Err(e);
                    },
                };
                let ghost before = out@;
                out.push(x);
                proof {
                    assert(out@.drop_last() =~= before);
                }
                i = i + 1;
            }
            Ok(JsonValue::Array(out))
        },
        JsonValue::Object(entries) => {
            proof {
                lemma_jv_entries(entries@);
            }
            let ghost e0 = ev(entries@);
            let mut out: Vec<(String, JsonValue)> = Vec::new();
            let mut i: usize = 0;
            proof {
                assert(ev(out@) =~= Seq::<(Seq<char>, JsonV)>::empty());
            }
            while i < entries.len()
                invariant
                    i <= entries.len(),
                    *value == JsonValue::Object(*entries),
                    e0 == ev(entries@),
                    e0.len() == entries@.len(),
                    forall|k: int| 0 <= k < entries@.len() ==> #[trigger] e0[k] == (entries@[k].0@, jv(entries@[k].1)),
                    resolve_entries(e0, parameters@, loc@, i as int) == Ok::<Entries, Seq<char>>(ev(out@)),
                decreases entries.len() - i,
            {
                proof {
                    broadcast use vstd::std_specs::vec::axiom_vec_decreases_to_view;
                    assert(decreases_to!(*value => (*value)->Object_0));
                    assert(decreases_to!(*entries => entries@));
                    assert(decreases_to!(entries@ => entries@[i as int]));
                    assert(decreases_to!(entries@[i as int] => entries@[i as int].1));
                }
                let entry_loc = concat3(loc, ".", entries[i].0.as_str());
                let x = match resolve_parameters(&entries[i].1, parameters, entry_loc.as_str()) {
                    Ok(x) => x,
                    Err(e) => {
                        proof {
                            lemma_entries_prefix(e0, parameters@, loc@, i + 1);
                        }
                        return Err(e);
                    },
                };
                let ghost before = out@;
                out.push((entries[i].0.clone(), x));
                proof {
                    assert(out@.drop_last() =~= before);
                }
                i = i + 1;
            }
            Ok(JsonValue::Object(out))
        },
        _ => Ok(deep_clone(value)),
    }
}

} // verus!
