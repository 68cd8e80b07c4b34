//! The decisions around a component's wizard: which ABI answers, which mode
//! name each ABI takes, and what a run reports. The component itself runs in
//! a WebAssembly host outside this library; its calls are handed in.
use vstd::prelude::*;
use crate::json::{JsonValue, JsonV, JsonNumber, NumV, Entries, jv, jv_seq, ev, lemma_jv_seq, lemma_jv_entries, obj_insert, obj_insert_v, obj_has, has_key};
use crate::schema_validate::{CborValue, FloatRepr};
use crate::i18n::{I18nText, I18nCatalog, CatalogEntriesV, resolve_text, resolve_text_v};
use crate::questions::{Question, QuestionKind, QuestionV, questions_v};
use crate::text::{int_dec, i128_to_dec};
use crate::error::opt_str;
use crate::model::strs_v;
use crate::refs::{grouped_capabilities, groups_v, to_ascii_lowercase};
use crate::text::{concat, concat3, contains_str, lower_seq, occurs};

verus! {

/// The wizard interface a component exports.
#[derive(Debug, Clone, Copy, PartialEq, Eq, Structural)]
pub enum WizardAbi {
    V6,
    Legacy,
}

/// What the wizard is asked to do.
#[derive(Debug, Clone, Copy, PartialEq, Eq, Structural)]
pub enum WizardMode {
    Default,
    Setup,
    Update,
    Remove,
}

pub open spec fn mode_name(m: WizardMode) -> Seq<char> {
    match m {
        WizardMode::Default => "default"@,
        WizardMode::Setup => "setup"@,
        WizardMode::Update => "update"@,
        WizardMode::Remove => "remove"@,
    }
}

/// The older interface calls an update an `upgrade`.
pub open spec fn legacy_mode_name(m: WizardMode) -> Seq<char> {
    match m {
        WizardMode::Update => "upgrade"@,
        _ => mode_name(m),
    }
}

impl WizardMode {
    pub fn as_str(self) -> (r: &'static str)
        ensures
            r@ == mode_name(self),
    {
        match self {
            WizardMode::Default => "default",
            WizardMode::Setup => "setup",
            WizardMode::Update => "update",
            WizardMode::Remove => "remove",
        }
    }

    pub fn as_legacy_str(self) -> (r: &'static str)
        ensures
            r@ == legacy_mode_name(self),
    {
        match self {
            WizardMode::Update => "upgrade",
            _ => self.as_str(),
        }
    }
}

/// What a run of the wizard produced.
#[derive(Debug)]
pub struct WizardOutput {
    pub abi: WizardAbi,
    pub describe_cbor: Vec<u8>,
    pub qa_spec_cbor: Vec<u8>,
    pub answers_cbor: Vec<u8>,
    pub config_cbor: Vec<u8>,
}

/// What a component tells of itself before answers are applied.
#[derive(Debug)]
pub struct WizardSpecOutput {
    pub abi: WizardAbi,
    pub describe_cbor: Vec<u8>,
    pub qa_spec_cbor: Vec<u8>,
}

/// The spec of a component: through the current interface, or, where that
/// fails, through the older one (asked only then).
pub fn fetch_wizard_spec<V, L>(fetch_v6: V, fetch_legacy: L) -> (r: Result<WizardSpecOutput, String>) where
    V: FnOnce() -> Result<WizardSpecOutput, String>,
    L: FnOnce() -> Result<WizardSpecOutput, String>,

    requires
        call_requires(fetch_v6, ()),
        call_requires(fetch_legacy, ()),
    ensures
        exists|first: Result<WizardSpecOutput, String>|
            #[trigger] call_ensures(fetch_v6, (), first) && (first is Ok ==> r == first) && (first is Err
                ==> call_ensures(fetch_legacy, (), r)),
{
    let first = fetch_v6();
    match first {
        Ok(spec) => Ok(spec),
        Err(e) => {
            let ghost g = Err::<WizardSpecOutput, String>(e);
            assert(call_ensures(fetch_v6, (), g));
            fetch_legacy()
        },
    }
}

/// Applies answers through the interface the component exports: the
/// current one takes the mode, the older one its legacy name.
pub fn apply_wizard_answers<A, B>(abi: WizardAbi, mode: WizardMode, apply_v6: A, apply_legacy: B) -> (r: Result<
    Vec<u8>,
    String,
>) where A: FnOnce(WizardMode) -> Result<Vec<u8>, String>, B: FnOnce(&'static str) -> Result<Vec<u8>, String>,

    requires
        call_requires(apply_v6, (mode,)),
        forall|s: &'static str| s@ == legacy_mode_name(mode) ==> call_requires(apply_legacy, (s,)),
    ensures
        abi == WizardAbi::V6 ==> call_ensures(apply_v6, (mode,), r),
        abi == WizardAbi::Legacy ==> exists|s: &'static str| s@ == legacy_mode_name(mode) && #[trigger] call_ensures(apply_legacy, (s,), r),
{
    match abi {
        WizardAbi::V6 => apply_v6(mode),
        WizardAbi::Legacy => {
            let s = mode.as_legacy_str();
            apply_legacy(s)
        },
    }
}

/// A whole run: the spec first, then the answers applied through the
/// interface that gave it; the answers are reported as given.
pub fn run_wizard_ops<F, G>(fetch: F, apply: G, answers: &Vec<u8>) -> (r: Result<WizardOutput, String>) where
    F: FnOnce() -> Result<WizardSpecOutput, String>,
    G: FnOnce(WizardAbi) -> Result<Vec<u8>, String>,

    requires
        call_requires(fetch, ()),
        forall|a: WizardAbi| call_requires(apply, (a,)),
    ensures
        exists|spec: Result<WizardSpecOutput, String>| #[trigger] call_ensures(fetch, (), spec) && match spec {
            Err(e) => r == Err::<WizardOutput, String>(e),
            Ok(s) => exists|config: Result<Vec<u8>, String>| #[trigger] call_ensures(apply, (s.abi,), config) && match config {
                Err(e) => r == Err::<WizardOutput, String>(e),
                Ok(c) => r matches Ok(out) && out.abi == s.abi && out.describe_cbor@ == s.describe_cbor@
                    && out.qa_spec_cbor@ == s.qa_spec_cbor@ && out.answers_cbor@ == answers@
                    && out.config_cbor@ == c@,
            },
        },
{
    let spec = fetch();
    match spec {
        Err(e) => {
            let ghost g = Err::<WizardSpecOutput, String>(e);
            assert(call_ensures(fetch, (), g));
            Err(e)
        },
        Ok(s) => {
            let abi = s.abi;
            let config = apply(abi);
            match config {
                Err(e) => {
                    let ghost g = Err::<Vec<u8>, String>(e);
                    assert(call_ensures(apply, (abi,), g));
                    Err(e)
                },
                Ok(c) => {
                    let WizardSpecOutput { abi: a, describe_cbor, qa_spec_cbor } = s;
                    let out = WizardOutput {
                        abi: a,
                        describe_cbor,
                        qa_spec_cbor,
                        answers_cbor: answers.clone(),
                        config_cbor: c,
                    };
                    Ok(out)
                },
            }
        },
    }
}

/// A CBOR map with no entries.
pub fn empty_cbor_map() -> (r: Vec<u8>)
    ensures
        r@ == seq![0xa0u8],
{
    let mut v: Vec<u8> = Vec::new();
    v.push(0xa0);
    v
}

pub open spec fn exports_v(abi: WizardAbi) -> Seq<Seq<char>> {
    match abi {
        WizardAbi::V6 => seq!["describe"@, "qa-spec"@, "apply-answers"@],
        WizardAbi::Legacy => seq!["describe"@, "qa-spec"@, "apply-answers"@, "legacy"@],
    }
}

/// The exports recorded for an ABI in a node's metadata.
pub fn describe_exports_for_meta(abi: WizardAbi) -> (r: Vec<String>)
    ensures
        strs_v(r@) == exports_v(abi),
{
    let mut v: Vec<String> = Vec::new();
    v.push(String::from_str("describe"));
    v.push(String::from_str("qa-spec"));
    v.push(String::from_str("apply-answers"));
    match abi {
        WizardAbi::V6 => {},
        WizardAbi::Legacy => {
            v.push(String::from_str("legacy"));
        },
    }
    assert(strs_v(v@) =~= exports_v(abi));
    v
}

pub open spec fn abi_version_v(abi: WizardAbi) -> Seq<char> {
    match abi {
        WizardAbi::V6 => "0.6.0"@,
        WizardAbi::Legacy => "0.5.0"@,
    }
}

pub fn abi_version_from_abi(abi: WizardAbi) -> (r: String)
    ensures
        r@ == abi_version_v(abi),
{
    match abi {
        WizardAbi::V6 => String::from_str("0.6.0"),
        WizardAbi::Legacy => String::from_str("0.5.0"),
    }
}

/// Answers must be an object.
pub fn ensure_answers_object(answers: &JsonValue) -> (r: Result<(), String>)
    ensures
        r is Ok <==> answers@ is Object,
        r matches Err(m) ==> m@ == "answers must be a JSON object"@,
{
    match answers {
        JsonValue::Object(_) => Ok(()),
        _ => Err(String::from_str("answers must be a JSON object")),
    }
}


// ---------------------------------------------------------------------------
// Reporting a failed wizard call
// ---------------------------------------------------------------------------

/// The wizard operation that an error names (`call describe`, `call
/// qa-spec`, `call apply-answers`, in any case), else the fallback.
pub open spec fn op_from_error_v(err: Seq<char>, fallback: Seq<char>) -> Seq<char> {
    let l = lower_seq(err);
    if occurs(l, "call describe"@) {
        "describe"@
    } else if occurs(l, "call qa-spec"@) {
        "qa-spec"@
    } else if occurs(l, "call apply-answers"@) {
        "apply-answers"@
    } else {
        fallback
    }
}

/// The host capability that a failure points to: one named by the error
/// (secrets, state, http, config, in that order), else the first group of
/// the capabilities the component requires.
pub open spec fn capability_hint_v(err: Seq<char>, required: Option<Seq<Seq<char>>>) -> Option<Seq<char>> {
    let l = lower_seq(err);
    if occurs(l, "secret"@) {
        Some("host:secrets"@)
    } else if occurs(l, "state"@) {
        Some("host:state"@)
    } else if occurs(l, "http"@) {
        Some("host:http"@)
    } else if occurs(l, "config"@) {
        Some("host:config"@)
    } else {
        match required {
            Some(caps) => if groups_v(caps).len() > 0 {
                Some(groups_v(caps)[0])
            } else {
                None
            },
            None => None,
        }
    }
}

/// The message that a failed wizard call is reported with.
pub open spec fn wizard_error_v(err: Seq<char>, component_id: Seq<char>, fallback: Seq<char>, required: Option<Seq<Seq<char>>>) -> Seq<
    char,
> {
    let op = op_from_error_v(err, fallback);
    match capability_hint_v(err, required) {
        Some(cap) => "component '"@ + component_id + "' operation '"@ + op
            + "' failed due to denied host ref; requested capability '"@ + cap + "'. hint: grant capability "@ + cap
            + " to this component"@,
        None => "component '"@ + component_id + "' operation '"@ + op + "' failed"@,
    }
}

pub fn wizard_op_from_error(err: &str, fallback: &str) -> (r: String)
    ensures
        r@ == op_from_error_v(err@, fallback@),
{
    let l = to_ascii_lowercase(err);
    if contains_str(l.as_str(), "call describe") {
        String::from_str("describe")
    } else if contains_str(l.as_str(), "call qa-spec") {
        String::from_str("qa-spec")
    } else if contains_str(l.as_str(), "call apply-answers") {
        String::from_str("apply-answers")
    } else {
        String::from_str(fallback)
    }
}

pub fn capability_hint_from_error(err: &str, required: Option<&Vec<String>>) -> (r: Option<String>)
    ensures
        opt_str(r) == capability_hint_v(
            err@,
            match required {
                Some(c) => Some(strs_v(c@)),
                None => None,
            },
        ),
{
    let l = to_ascii_lowercase(err);
    if contains_str(l.as_str(), "secret") {
        return Some(String::from_str("host:secrets"));
    }
    if contains_str(l.as_str(), "state") {
        return Some(String::from_str("host:state"));
    }
    if contains_str(l.as_str(), "http") {
        return Some(String::from_str("host:http"));
    }
    if contains_str(l.as_str(), "config") {
        return Some(String::from_str("host:config"));
    }
    match required {
        Some(caps) => {
            let groups = grouped_capabilities(caps);
            if groups.len() > 0 {
                Some(groups[0].clone())
            } else {
                None
            }
        },
        None => None,
    }
}

/// The message of a failed wizard call; the failure itself stays its cause.
pub fn wrap_wizard_error(err: &str, component_id: &str, op_fallback: &str, required: Option<&Vec<String>>) -> (r: String)
    ensures
        r@ == wizard_error_v(
            err@,
            component_id@,
            op_fallback@,
            match required {
                Some(c) => Some(strs_v(c@)),
                None => None,
            },
        ),
{
    let op = wizard_op_from_error(err, op_fallback);
    let head = concat3("component '", component_id, "' operation '");
    let head = concat(head.as_str(), op.as_str());
    match capability_hint_from_error(err, required) {
        Some(cap) => {
            let a = concat3(head.as_str(), "' failed due to denied host ref; requested capability '", cap.as_str());
            let b = concat3(a.as_str(), "'. hint: grant capability ", cap.as_str());
            concat(b.as_str(), " to this component")
        },
        None => concat(head.as_str(), "' failed"),
    }
}


// ---------------------------------------------------------------------------
// CBOR values as JSON
// ---------------------------------------------------------------------------

/// The magnitude key of the infinities (see `FloatRepr`).
pub open spec fn inf_key() -> int {
    0x7ff0_0000_0000_0000
}

/// A float that JSON can hold: neither NaN nor infinite.
pub open spec fn json_float(f: FloatRepr) -> bool {
    f.key matches Some(k) && -inf_key() < k < inf_key()
}

/// A CBOR integer as JSON: a number when it fits in an `i64`, else its
/// decimal text.
pub open spec fn cbor_int_json_v(i: int) -> JsonV {
    if 0 <= i <= i64::MAX {
        JsonV::Number(NumV::PosInt(i as u64))
    } else if i64::MIN <= i < 0 {
        JsonV::Number(NumV::NegInt(i as i64))
    } else {
        JsonV::Str(int_dec(i))
    }
}

pub open spec fn float_range_msg() -> Seq<char> {
    "float out of range for json"@
}

pub open spec fn map_key_msg() -> Seq<char> {
    "non-string map key in cbor"@
}

/// A CBOR value as JSON: tags are dropped, bytes become arrays of numbers,
/// map keys must be text (a repeated key keeps its first place and takes the
/// last value); the first value that JSON cannot hold is the error.
pub open spec fn cbor_json_v(v: CborValue) -> Result<JsonV, Seq<char>>
    decreases v,
{
    match v {
        CborValue::Null => Ok(JsonV::Null),
        CborValue::Bool(b) => Ok(JsonV::Bool(b)),
        CborValue::Integer(i, _) => Ok(cbor_int_json_v(i as int)),
        CborValue::Float(f) => if json_float(f) {
            Ok(JsonV::Number(NumV::Float(f.text@)))
        } else {
            Err(float_range_msg())
        },
        CborValue::Text(s) => Ok(JsonV::Str(s@)),
        CborValue::Bytes(b) => Ok(JsonV::Array(b@.map_values(|x: u8| JsonV::Number(NumV::PosInt(x as u64))))),
        CborValue::Tag(_, inner) => cbor_json_v(*inner),
        CborValue::Array(items) => match cbor_items_json_v(items@) {
            Ok(xs) => Ok(JsonV::Array(xs)),
            Err(e) => Err(e),
        },
        CborValue::Mapping(entries) => match cbor_entries_json_v(entries@) {
            Ok(es) => Ok(JsonV::Object(es)),
            Err(e) => Err(e),
        },
    }
}

pub open spec fn cbor_items_json_v(items: Seq<CborValue>) -> Result<Seq<JsonV>, Seq<char>>
    decreases items,
{
    if items.len() == 0 {
        Ok(Seq::empty())
    } else {
        match cbor_items_json_v(items.drop_last()) {
            Err(e) => Err(e),
            Ok(xs) => match cbor_json_v(items.last()) {
                Err(e) => Err(e),
                Ok(x) => Ok(xs.push(x)),
            },
        }
    }
}

pub open spec fn cbor_entries_json_v(entries: Seq<(CborValue, CborValue)>) -> Result<Entries, Seq<char>>
    decreases entries,
{
    if entries.len() == 0 {
        Ok(Seq::empty())
    } else {
        match cbor_entries_json_v(entries.drop_last()) {
            Err(e) => Err(e),
            Ok(es) => match entries.last().0 {
                CborValue::Text(k) => match cbor_json_v(entries.last().1) {
                    Err(e) => Err(e),
                    Ok(x) => Ok(obj_insert_v(es, k@, x)),
                },
                _ => Err(map_key_msg()),
            },
        }
    }
}

/// A CBOR value as JSON (see `cbor_json_v`).
pub fn cbor_value_to_json(v: &CborValue) -> (r: Result<JsonValue, String>)
    ensures
        match r {
            Ok(j) => cbor_json_v(*v) == Ok::<JsonV, Seq<char>>(j@),
            Err(e) => cbor_json_v(*v) == Err::<JsonV, Seq<char>>(e@),
        },
    decreases v,
{
    match v {
        CborValue::Null => Ok(JsonValue::Null),
        CborValue::Bool(b) => Ok(JsonValue::Bool(*b)),
        CborValue::Integer(i, _) => {
            let i = *i;
            if 0 <= i && i <= 0x7fff_ffff_ffff_ffff {
                Ok(JsonValue::Number(JsonNumber::PosInt(i as u64)))
            } else if -0x8000_0000_0000_0000 <= i && i < 0 {
                Ok(JsonValue::Number(JsonNumber::NegInt(i as i64)))
            } else {
                Ok(JsonValue::String(i128_to_dec(i)))
            }
        },
        CborValue::Float(f) => {
            let finite = match f.key {
                Some(k) => -0x7ff0_0000_0000_0000 < k && k < 0x7ff0_0000_0000_0000,
                None => false,
            };
            if finite {
                Ok(JsonValue::Number(JsonNumber::Float(f.text.clone())))
            } else {
                proof {
                    reveal_strlit("float out of range for json");
                }
                Err(String::from_str("float out of range for json"))
            }
        },
        CborValue::Text(s) => Ok(JsonValue::String(s.clone())),
        CborValue::Bytes(b) => {
            let mut out: Vec<JsonValue> = Vec::new();
            let mut i: usize = 0;
            while i < b.len()
                invariant
                    i <= b.len(),
                    out@.len() == i,
                    forall|k: int| 0 <= k < i ==> jv(#[trigger] out@[k]) == JsonV::Number(NumV::PosInt(b@[k] as u64)),
                decreases b.len() - i,
            {
                out.push(JsonValue::Number(JsonNumber::PosInt(b[i] as u64)));
                i = i + 1;
            }
            proof {
                lemma_jv_seq(out@);
                assert(jv_seq(out@) =~= b@.map_values(|x: u8| JsonV::Number(NumV::PosInt(x as u64))));
            }
            Ok(JsonValue::Array(out))
        },
        CborValue::Tag(_, inner) => {
            proof {
                assert(decreases_to!(*v => **inner));
            }
            cbor_value_to_json(inner)
        },
        CborValue::Array(items) => {
            let mut out: Vec<JsonValue> = Vec::new();
            let mut i: usize = 0;
            proof {
                assert(items@.take(0) =~= Seq::<CborValue>::empty());
                assert(jv_seq(out@) =~= Seq::<JsonV>::empty());
            }
            while i < items.len()
                invariant
                    i <= items.len(),
                    *v == CborValue::Array(*items),
                    cbor_items_json_v(items@.take(i as int)) == Ok::<Seq<JsonV>, Seq<char>>(jv_seq(out@)),
                decreases items.len() - i,
            {
                proof {
                    broadcast use vstd::std_specs::vec::axiom_vec_decreases_to_view;
                    assert(decreases_to!(*v => (*v)->Array_0));
                    assert(decreases_to!(*items => items@));
                    assert(decreases_to!(items@ => items@[i as int]));
                    assert(items@.take(i + 1).drop_last() =~= items@.take(i as int));
                    assert(items@.take(i + 1).last() == items@[i as int]);
                }
                match cbor_value_to_json(&items[i]) {
                    Ok(x) => {
                        let ghost before = out@;
                        out.push(x);
                        proof {
                            assert(out@.drop_last() =~= before);
                        }
                    },
                    Err(e) => {
                        proof {
                            lemma_cbor_items_prefix(items@, i + 1);
                        }
                        return Err(e);
                    },
                }
                i = i + 1;
            }
            proof {
                assert(items@.take(items.len() as int) =~= items@);
            }
            Ok(JsonValue::Array(out))
        },
        CborValue::Mapping(entries) => {
            let mut out: Vec<(String, JsonValue)> = Vec::new();
            let mut i: usize = 0;
            proof {
                assert(entries@.take(0) =~= Seq::<(CborValue, CborValue)>::empty());
                assert(ev(out@) =~= Seq::<(Seq<char>, JsonV)>::empty());
            }
            while i < entries.len()
                invariant
                    i <= entries.len(),
                    *v == CborValue::Mapping(*entries),
                    cbor_entries_json_v(entries@.take(i as int)) == Ok::<Entries, Seq<char>>(ev(out@)),
                decreases entries.len() - i,
            {
                proof {
                    broadcast use vstd::std_specs::vec::axiom_vec_decreases_to_view;
                    assert(decreases_to!(*v => (*v)->Mapping_0));
                    assert(decreases_to!(*entries => entries@));
                    assert(decreases_to!(entries@ => entries@[i as int]));
                    assert(decreases_to!(entries@[i as int] => entries@[i as int].1));
                    assert(entries@.take(i + 1).drop_last() =~= entries@.take(i as int));
                    assert(entries@.take(i + 1).last() == entries@[i as int]);
                }
                let key = match &entries[i].0 {
                    CborValue::Text(k) => k.clone(),
                    _ => {
                        proof {
                            lemma_cbor_entries_prefix(entries@, i + 1);
                            reveal_strlit("non-string map key in cbor");
                        }
                        return Err(String::from_str("non-string map key in cbor"));
                    },
                };
                match cbor_value_to_json(&entries[i].1) {
                    Ok(x) => {
                        obj_insert(&mut out, key, x);
                    },
                    Err(e) => {
                        proof {
                            lemma_cbor_entries_prefix(entries@, i + 1);
                        }
                        return Err(e);
                    },
                }
                i = i + 1;
            }
            proof {
                assert(entries@.take(entries.len() as int) =~= entries@);
            }
            Ok(JsonValue::Object(out))
        },
    }
}

/// An error on a prefix of the items is the error on all of them.
proof fn lemma_cbor_items_prefix(items: Seq<CborValue>, n: int)
    requires
        0 <= n <= items.len(),
        cbor_items_json_v(items.take(n)) is Err,
    ensures
        cbor_items_json_v(items) == cbor_items_json_v(items.take(n)),
    decreases items.len() - n,
{
    if n < items.len() {
        assert(items.take(n + 1).drop_last() =~= items.take(n));
        lemma_cbor_items_prefix(items, n + 1);
    } else {
        assert(items.take(n) =~= items);
    }
}

/// An error on a prefix of the entries is the error on all of them.
proof fn lemma_cbor_entries_prefix(entries: Seq<(CborValue, CborValue)>, n: int)
    requires
        0 <= n <= entries.len(),
        cbor_entries_json_v(entries.take(n)) is Err,
    ensures
        cbor_entries_json_v(entries) == cbor_entries_json_v(entries.take(n)),
    decreases entries.len() - n,
{
    if n < entries.len() {
        assert(entries.take(n + 1).drop_last() =~= entries.take(n));
        lemma_cbor_entries_prefix(entries, n + 1);
    } else {
        assert(entries.take(n) =~= entries);
    }
}


// ---------------------------------------------------------------------------
// A component's question spec as questions
// ---------------------------------------------------------------------------

/// The kind of a question in a component's QA spec; a choice carries the
/// values of its options.
#[derive(Debug)]
pub enum QaKind {
    Text,
    Number,
    Bool,
    Choice(Vec<String>),
}

/// A question of a component's QA spec, as the library reads it.
#[derive(Debug)]
pub struct QaQuestion {
    pub id: String,
    pub label: I18nText,
    pub kind: QaKind,
    pub required: bool,
    pub default: Option<CborValue>,
}

/// A component's QA spec: its questions in order, and default answers by
/// question id.
#[derive(Debug)]
pub struct QaSpec {
    pub questions: Vec<QaQuestion>,
    pub defaults: Vec<(String, CborValue)>,
}

pub open spec fn qa_kind_v(k: QaKind) -> QuestionKind {
    match k {
        QaKind::Text => QuestionKind::String,
        QaKind::Number => QuestionKind::Float,
        QaKind::Bool => QuestionKind::Bool,
        QaKind::Choice(_) => QuestionKind::Choice,
    }
}

pub open spec fn qa_choices_v(k: QaKind) -> Seq<JsonV> {
    match k {
        QaKind::Choice(values) => values@.map_values(|s: String| JsonV::Str(s@)),
        _ => Seq::empty(),
    }
}

/// A QA question as a question: its label resolved for `locale`, its default
/// as JSON when it has one that JSON can hold.
pub open spec fn qa_question_v(q: QaQuestion, c: CatalogEntriesV, locale: Seq<char>) -> QuestionV {
    QuestionV {
        id: q.id@,
        prompt: resolve_text_v(q.label.key@, opt_str(q.label.fallback), c, locale),
        kind: qa_kind_v(q.kind),
        required: q.required,
        default: match q.default {
            Some(d) => match cbor_json_v(d) {
                Ok(j) => Some(j),
                Err(_) => None,
            },
            None => None,
        },
        choices: qa_choices_v(q.kind),
        show_if: None,
        writes_to: None,
    }
}

fn qa_question(q: &QaQuestion, catalog: &I18nCatalog, locale: &str) -> (r: Question)
    ensures
        r@ == qa_question_v(*q, catalog@, locale@),
{
    let prompt = resolve_text(&q.label, catalog, locale);
    let default = match &q.default {
        Some(d) => match cbor_value_to_json(d) {
            Ok(j) => Some(j),
            Err(_) => None,
        },
        None => None,
    };
    let (kind, choices) = match &q.kind {
        QaKind::Text => (QuestionKind::String, Vec::new()),
        QaKind::Number => (QuestionKind::Float, Vec::new()),
        QaKind::Bool => (QuestionKind::Bool, Vec::new()),
        QaKind::Choice(options) => {
            let mut values: Vec<JsonValue> = Vec::new();
            let mut i: usize = 0;
            while i < options.len()
                invariant
                    i <= options.len(),
                    values@.len() == i,
                    forall|k: int| 0 <= k < i ==> jv(#[trigger] values@[k]) == JsonV::Str(options@[k]@),
                decreases options.len() - i,
            {
                values.push(JsonValue::String(options[i].clone()));
                i = i + 1;
            }
            proof {
                lemma_jv_seq(values@);
                assert(jv_seq(values@) =~= options@.map_values(|s: String| JsonV::Str(s@)));
            }
            (QuestionKind::Choice, values)
        },
    };
    proof {
        if !(q.kind is Choice) {
            assert(jv_seq(choices@) =~= Seq::<JsonV>::empty());
        }
    }
    Question {
        id: q.id.clone(),
        prompt,
        kind,
        required: q.required,
        default,
        choices,
        show_if: None,
        writes_to: None,
    }
}

/// The questions of a component's QA spec, in order (see `qa_question_v`).
pub fn qa_spec_to_questions(spec: &QaSpec, catalog: &I18nCatalog, locale: &str) -> (r: Vec<Question>)
    ensures
        questions_v(r@) == spec.questions@.map_values(|q: QaQuestion| qa_question_v(q, catalog@, locale@)),
{
    let mut out: Vec<Question> = Vec::new();
    let mut i: usize = 0;
    while i < spec.questions.len()
        invariant
            i <= spec.questions.len(),
            out@.len() == i,
            forall|k: int| 0 <= k < i ==> (#[trigger] out@[k])@ == qa_question_v(spec.questions@[k], catalog@, locale@),
        decreases spec.questions.len() - i,
    {
        let q = qa_question(&spec.questions[i], catalog, locale);
        out.push(q);
        i = i + 1;
    }
    proof {
        assert(questions_v(out@) =~= spec.questions@.map_values(|q: QaQuestion| qa_question_v(q, catalog@, locale@)));
    }
    out
}

/// The answers after taking the spec's defaults: in default order, each
/// default whose key has no answer yet and whose value JSON can hold is
/// added.
pub open spec fn merge_defaults_v(seed: Entries, defaults: Seq<(String, CborValue)>) -> Entries
    decreases defaults.len(),
{
    if defaults.len() == 0 {
        seed
    } else {
        let prev = merge_defaults_v(seed, defaults.drop_last());
        let (k, v) = defaults.last();
        if has_key(prev, k@) {
            prev
        } else {
            match cbor_json_v(v) {
                Ok(j) => obj_insert_v(prev, k@, j),
                Err(_) => prev,
            }
        }
    }
}

/// Adds the spec's default answers that are not answered yet.
pub fn merge_default_answers(spec: &QaSpec, seed: &mut Vec<(String, JsonValue)>)
    ensures
        ev(final(seed)@) == merge_defaults_v(ev(old(seed)@), spec.defaults@),
{
    let ghost start = ev(seed@);
    let mut i: usize = 0;
    proof {
        assert(spec.defaults@.take(0) =~= Seq::<(String, CborValue)>::empty());
    }
    while i < spec.defaults.len()
        invariant
            i <= spec.defaults.len(),
            ev(seed@) == merge_defaults_v(start, spec.defaults@.take(i as int)),
        decreases spec.defaults.len() - i,
    {
        proof {
            assert(spec.defaults@.take(i + 1).drop_last() =~= spec.defaults@.take(i as int));
            assert(spec.defaults@.take(i + 1).last() == spec.defaults@[i as int]);
            lemma_jv_entries(seed@);
        }
        let key = &spec.defaults[i].0;
        if !obj_has(seed, key.as_str()) {
            match cbor_value_to_json(&spec.defaults[i].1) {
                Ok(j) => {
                    obj_insert(seed, key.clone(), j);
                },
                Err(_) => {},
            }
        }
        i = i + 1;
    }
    proof {
        assert(spec.defaults@.take(spec.defaults.len() as int) =~= spec.defaults@);
    }
}

/// The answer keys that no question of the spec asks for, in answer order.
pub open spec fn unknown_keys_v(answers: Seq<(String, JsonValue)>, ids: Seq<Seq<char>>) -> Seq<Seq<char>>
    decreases answers.len(),
{
    if answers.len() == 0 {
        Seq::empty()
    } else {
        let prev = unknown_keys_v(answers.drop_last(), ids);
        if ids.contains(answers.last().0@) {
            prev
        } else {
            prev.push(answers.last().0@)
        }
    }
}

pub open spec fn question_ids_v(spec: QaSpec) -> Seq<Seq<char>> {
    spec.questions@.map_values(|q: QaQuestion| q.id@)
}

fn asks(spec: &QaSpec, key: &str) -> (r: bool)
    ensures
        r == question_ids_v(*spec).contains(key@),
{
    let ghost ids = question_ids_v(*spec);
    let mut i: usize = 0;
    while i < spec.questions.len()
        invariant
            i <= spec.questions.len(),
            ids == question_ids_v(*spec),
            forall|k: int| 0 <= k < i ==> ids[k] != key@,
        decreases spec.questions.len() - i,
    {
        if crate::text::str_eq(spec.questions[i].id.as_str(), key) {
            proof {
                assert(ids[i as int] == key@);
            }
            return true;
        }
        i = i + 1;
    }
    false
}

/// The answer keys that no question of the spec asks for, in answer order
/// (the keys to warn about).
pub fn unknown_answer_keys(answers: &Vec<(String, JsonValue)>, spec: &QaSpec) -> (r: Vec<String>)
    ensures
        strs_v(r@) == unknown_keys_v(answers@, question_ids_v(*spec)),
{
    let ghost ids = question_ids_v(*spec);
    let mut out: Vec<String> = Vec::new();
    let mut i: usize = 0;
    proof {
        assert(answers@.take(0) =~= Seq::<(String, JsonValue)>::empty());
        assert(strs_v(out@) =~= Seq::<Seq<char>>::empty());
    }
    while i < answers.len()
        invariant
            i <= answers.len(),
            ids == question_ids_v(*spec),
            strs_v(out@) == unknown_keys_v(answers@.take(i as int), ids),
        decreases answers.len() - i,
    {
        proof {
            assert(answers@.take(i + 1).drop_last() =~= answers@.take(i as int));
            assert(answers@.take(i + 1).last() == answers@[i as int]);
        }
        if !asks(spec, answers[i].0.as_str()) {
            let ghost before = out@;
            out.push(answers[i].0.clone());
            proof {
                assert(strs_v(out@) =~= strs_v(before).push(answers@[i as int].0@));
            }
        }
        i = i + 1;
    }
    proof {
        assert(answers@.take(answers.len() as int) =~= answers@);
    }
    out
}

} // verus!
