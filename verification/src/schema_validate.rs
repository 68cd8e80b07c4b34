//! Validation of CBOR values against the typed schema of component
//! configuration: each violation becomes a diagnostic with a code, a
//! severity, a message and the value's path (`$`, `$.key`, `$[i]`).
//!
//! Floating-point numbers appear here by a key that orders as the numbers do
//! (none for NaN) and by their decimal text; the caller computes both.
use vstd::prelude::*;
use crate::assoc::{keys_of, key_index, kv, sorted, sorted_insert_v};
use crate::text::{concat, concat3, dec, int_dec, i128_to_dec, starts_with, str_eq, u64_to_dec};

verus! {

/// A floating-point number: `key` orders as the number does and is equal for
/// equal numbers (`None` for NaN): the magnitude bits of the IEEE-754 double,
/// negated for negative numbers, so that the infinities are the keys of
/// magnitude `0x7ff0_0000_0000_0000`; `text` is how the number is displayed.
#[derive(Debug)]
pub struct FloatRepr {
    pub key: Option<i64>,
    pub text: String,
}

/// A CBOR value. An integer carries its value and, for comparisons with
/// floating-point bounds, the number it becomes as a float.
#[derive(Debug)]
pub enum CborValue {
    Integer(i128, FloatRepr),
    Bytes(Vec<u8>),
    Float(FloatRepr),
    Text(String),
    Bool(bool),
    Null,
    Tag(u64, Box<CborValue>),
    Array(Vec<CborValue>),
    Mapping(Vec<(CborValue, CborValue)>),
}

/// What an object schema says of keys it does not name.
#[derive(Debug)]
pub enum AdditionalProperties {
    Allow,
    Forbid,
    Schema(Box<SchemaIr>),
}

/// The typed schema of a CBOR value.
#[derive(Debug)]
#[allow(inconsistent_fields)]
pub enum SchemaIr {
    Object { properties: Vec<(String, SchemaIr)>, required: Vec<String>, additional: AdditionalProperties },
    Array { items: Box<SchemaIr>, min_items: Option<u64>, max_items: Option<u64> },
    String { min_len: Option<u64>, max_len: Option<u64>, regex: Option<String>, format: Option<String> },
    Int { min: Option<i64>, max: Option<i64> },
    Float { min: Option<FloatRepr>, max: Option<FloatRepr> },
    Bool,
    Null,
    Bytes,
    Enum { values: Vec<CborValue> },
    OneOf { variants: Vec<SchemaIr> },
    Ref { id: String },
}

#[derive(PartialEq, Eq, Structural, Clone, Copy, Debug)]
pub enum Severity {
    Error,
    Warning,
}

/// One finding of a validation.
#[derive(Debug)]
pub struct SchemaDiagnostic {
    pub code: String,
    pub severity: Severity,
    pub message: String,
    pub path: String,
}

pub struct DiagV {
    pub code: Seq<char>,
    pub severity: Severity,
    pub message: Seq<char>,
    pub path: Seq<char>,
}

impl View for SchemaDiagnostic {
    type V = DiagV;

    open spec fn view(&self) -> DiagV {
        DiagV { code: self.code@, severity: self.severity, message: self.message@, path: self.path@ }
    }
}

pub open spec fn diags_v(ds: Seq<SchemaDiagnostic>) -> Seq<DiagV> {
    ds.map_values(|d: SchemaDiagnostic| d@)
}

pub open spec fn err_v(code: Seq<char>, message: Seq<char>, path: Seq<char>) -> Seq<DiagV> {
    seq![DiagV { code, severity: Severity::Error, message, path }]
}

pub open spec fn warn_v(code: Seq<char>, message: Seq<char>, path: Seq<char>) -> Seq<DiagV> {
    seq![DiagV { code, severity: Severity::Warning, message, path }]
}

pub open spec fn mismatch_v(kind: Seq<char>, path: Seq<char>) -> Seq<DiagV> {
    err_v("SCHEMA_TYPE_MISMATCH"@, "expected "@ + kind + " at "@ + path, path)
}

/// Equality of CBOR values as `ciborium` compares them: integers by value,
/// floats as numbers (NaN equals nothing), the rest structurally, arrays and
/// maps position by position.
pub open spec fn cbor_eq(a: CborValue, b: CborValue) -> bool
    decreases a,
{
    match a {
        CborValue::Integer(i, _) => b matches CborValue::Integer(j, _) && i == j,
        CborValue::Bytes(x) => b matches CborValue::Bytes(y) && x@ == y@,
        CborValue::Float(x) => b matches CborValue::Float(y) && x.key is Some && x.key == y.key,
        CborValue::Text(x) => b matches CborValue::Text(y) && x@ == y@,
        CborValue::Bool(x) => b matches CborValue::Bool(y) && x == y,
        CborValue::Null => b is Null,
        CborValue::Tag(t, x) => b matches CborValue::Tag(u, y) && t == u && cbor_eq(*x, *y),
        CborValue::Array(xs) => b matches CborValue::Array(ys) && xs@.len() == ys@.len()
            && forall|i: int| 0 <= i < xs@.len() ==> cbor_eq(#[trigger] xs@[i], ys@[i]),
        CborValue::Mapping(xs) => b matches CborValue::Mapping(ys) && xs@.len() == ys@.len()
            && forall|i: int| 0 <= i < xs@.len() ==> cbor_eq(#[trigger] xs@[i].0, ys@[i].0) && cbor_eq(xs@[i].1, ys@[i].1),
    }
}

/// `a < b` on floats.
pub open spec fn float_lt(a: FloatRepr, b: FloatRepr) -> bool {
    a.key is Some && b.key is Some && a.key->0 < b.key->0
}

/// The text keys of a map, sorted, each with the position of its last entry.
pub open spec fn collect_v(entries: Seq<(CborValue, CborValue)>, n: int) -> Seq<(Seq<char>, usize)>
    decreases n,
{
    if n <= 0 {
        Seq::empty()
    } else {
        let prev = collect_v(entries, n - 1);
        match entries[n - 1].0 {
            CborValue::Text(k) => sorted_insert_v(prev, k@, (n - 1) as usize),
            _ => prev,
        }
    }
}

/// One diagnostic per non-text key, in entry order.
pub open spec fn invalid_keys_v(entries: Seq<(CborValue, CborValue)>, path: Seq<char>, n: int) -> Seq<DiagV>
    decreases n,
{
    if n <= 0 {
        Seq::empty()
    } else {
        invalid_keys_v(entries, path, n - 1) + match entries[n - 1].0 {
            CborValue::Text(_) => Seq::empty(),
            _ => err_v("SCHEMA_INVALID_KEY"@, "non-string object key at "@ + path, path),
        }
    }
}

/// One diagnostic per required key that the map lacks, in required order.
pub open spec fn missing_v(required: Seq<String>, keys: Seq<Seq<char>>, path: Seq<char>, n: int) -> Seq<DiagV>
    decreases n,
{
    if n <= 0 {
        Seq::empty()
    } else {
        let k = required[n - 1]@;
        missing_v(required, keys, path, n - 1) + if keys.contains(k) {
            Seq::empty()
        } else {
            err_v("SCHEMA_REQUIRED_MISSING"@, "missing required field '"@ + k + "' at "@ + path, path + "."@ + k)
        }
    }
}

pub open spec fn length_checks_v(
    what: Seq<char>,
    code_min: Seq<char>,
    code_max: Seq<char>,
    bound_min: Seq<char>,
    bound_max: Seq<char>,
    len: nat,
    min: Option<u64>,
    max: Option<u64>,
    path: Seq<char>,
) -> Seq<DiagV> {
    (match min {
        Some(m) => if len < m {
            err_v(code_min, what + " length "@ + dec(len) + " < "@ + bound_min + " "@ + dec(m as nat) + " at "@ + path, path)
        } else {
            Seq::empty()
        },
        None => Seq::empty(),
    }) + (match max {
        Some(m) => if len > m {
            err_v(code_max, what + " length "@ + dec(len) + " > "@ + bound_max + " "@ + dec(m as nat) + " at "@ + path, path)
        } else {
            Seq::empty()
        },
        None => Seq::empty(),
    })
}

pub open spec fn string_v(
    text: Seq<char>,
    min_len: Option<u64>,
    max_len: Option<u64>,
    regex: Option<String>,
    format: Option<String>,
    path: Seq<char>,
) -> Seq<DiagV> {
    length_checks_v("string"@, "SCHEMA_STRING_MIN_LEN"@, "SCHEMA_STRING_MAX_LEN"@, "min_len"@, "max_len"@, text.len(), min_len, max_len, path)
        + (if regex is Some {
        warn_v("SCHEMA_REGEX_UNSUPPORTED"@, "regex constraint not enforced at "@ + path, path)
    } else {
        Seq::empty()
    }) + (if format is Some {
        warn_v("SCHEMA_FORMAT_UNSUPPORTED"@, "format constraint not enforced at "@ + path, path)
    } else {
        Seq::empty()
    })
}

pub open spec fn int_v(num: int, min: Option<i64>, max: Option<i64>, path: Seq<char>) -> Seq<DiagV> {
    (match min {
        Some(m) => if num < m {
            err_v("SCHEMA_INT_MIN"@, "integer "@ + int_dec(num) + " < min "@ + int_dec(m as int) + " at "@ + path, path)
        } else {
            Seq::empty()
        },
        None => Seq::empty(),
    }) + (match max {
        Some(m) => if num > m {
            err_v("SCHEMA_INT_MAX"@, "integer "@ + int_dec(num) + " > max "@ + int_dec(m as int) + " at "@ + path, path)
        } else {
            Seq::empty()
        },
        None => Seq::empty(),
    })
}

pub open spec fn float_v(num: FloatRepr, min: Option<FloatRepr>, max: Option<FloatRepr>, path: Seq<char>) -> Seq<DiagV> {
    (match min {
        Some(m) => if float_lt(num, m) {
            err_v("SCHEMA_FLOAT_MIN"@, "number "@ + num.text@ + " < min "@ + m.text@ + " at "@ + path, path)
        } else {
            Seq::empty()
        },
        None => Seq::empty(),
    }) + (match max {
        Some(m) => if float_lt(m, num) {
            err_v("SCHEMA_FLOAT_MAX"@, "number "@ + num.text@ + " > max "@ + m.text@ + " at "@ + path, path)
        } else {
            Seq::empty()
        },
        None => Seq::empty(),
    })
}

pub open spec fn no_errors(ds: Seq<DiagV>) -> bool {
    forall|i: int| 0 <= i < ds.len() ==> #[trigger] ds[i].severity != Severity::Error
}

/// The diagnostics of validating `v` at `path` against `s`, in the order
/// the checks run.
pub open spec fn validate_v(s: SchemaIr, v: CborValue, path: Seq<char>) -> Seq<DiagV>
    decreases s, 1int, 0int,
{
    match s {
        SchemaIr::Object { properties, required, additional } => match v {
            CborValue::Mapping(entries) => {
                let vals = collect_v(entries@, entries@.len() as int);
                invalid_keys_v(entries@, path, entries@.len() as int) + missing_v(
                    required@,
                    vals.map_values(|x: (Seq<char>, usize)| x.0),
                    path,
                    required@.len() as int,
                ) + object_v(s, entries@, vals, path, vals.len() as int)
            },
            _ => mismatch_v("object"@, path),
        },
        SchemaIr::Array { items, min_items, max_items } => match v {
            CborValue::Array(vals) => length_checks_v(
                "array"@,
                "SCHEMA_ARRAY_MIN_ITEMS"@,
                "SCHEMA_ARRAY_MAX_ITEMS"@,
                "min_items"@,
                "max_items"@,
                vals@.len(),
                min_items,
                max_items,
                path,
            ) + array_v(s, vals@, path, vals@.len() as int),
            _ => mismatch_v("array"@, path),
        },
        SchemaIr::String { min_len, max_len, regex, format } => match v {
            CborValue::Text(t) => string_v(t@, min_len, max_len, regex, format, path),
            _ => mismatch_v("string"@, path),
        },
        SchemaIr::Int { min, max } => match v {
            CborValue::Integer(i, _) => int_v(i as int, min, max, path),
            _ => mismatch_v("integer"@, path),
        },
        SchemaIr::Float { min, max } => match v {
            CborValue::Float(f) => float_v(f, min, max, path),
            CborValue::Integer(_, f) => float_v(f, min, max, path),
            _ => mismatch_v("number"@, path),
        },
        SchemaIr::Bool => if v is Bool {
            Seq::empty()
        } else {
            mismatch_v("boolean"@, path)
        },
        SchemaIr::Null => if v is Null {
            Seq::empty()
        } else {
            mismatch_v("null"@, path)
        },
        SchemaIr::Bytes => if v is Bytes {
            Seq::empty()
        } else {
            mismatch_v("bytes"@, path)
        },
        SchemaIr::Enum { values } => if exists|i: int| 0 <= i < values@.len() && cbor_eq(#[trigger] values@[i], v) {
            Seq::empty()
        } else {
            err_v("SCHEMA_ENUM"@, "value is not in enum at "@ + path, path)
        },
        SchemaIr::OneOf { variants } => if one_of_ok(s, v, path, variants@.len() as int) {
            Seq::empty()
        } else {
            err_v("SCHEMA_ONE_OF"@, "value does not match any oneOf variant at "@ + path, path)
        },
        SchemaIr::Ref { id } => err_v("SCHEMA_REF_UNSUPPORTED"@, "schema ref '"@ + id@ + "' is not supported"@, path),
    }
}

/// Whether one of the first `n` variants of a union accepts the value
/// without errors (warnings allowed).
pub open spec fn one_of_ok(s: SchemaIr, v: CborValue, path: Seq<char>, n: int) -> bool
    decreases s, 0int, n,
{
    match s {
        SchemaIr::OneOf { variants } => if 0 < n <= variants@.len() {
            proof {
                broadcast use vstd::std_specs::vec::axiom_vec_decreases_to_view;
                assert(decreases_to!(s => variants));
                assert(decreases_to!(variants => variants@));
                assert(decreases_to!(variants@ => variants@[n - 1]));
            }
            one_of_ok(s, v, path, n - 1) || no_errors(validate_v(variants@[n - 1], v, path))
        } else {
            false
        },
        _ => false,
    }
}

/// The diagnostics of the first `n` collected keys of a map: each key is
/// checked against its property's schema, or against the policy for keys
/// that no property names.
pub open spec fn object_v(
    s: SchemaIr,
    entries: Seq<(CborValue, CborValue)>,
    vals: Seq<(Seq<char>, usize)>,
    path: Seq<char>,
    n: int,
) -> Seq<DiagV>
    decreases s, 0int, n,
{
    match s {
        SchemaIr::Object { properties, required, additional } => if 0 < n <= vals.len() && forall|j: int|
            0 <= j < vals.len() ==> #[trigger] vals[j].1 < entries.len() {
            let k = vals[n - 1].0;
            let val = entries[vals[n - 1].1 as int].1;
            let sub = path + "."@ + k;
            let p = key_index(keys_of(properties@), k);
            let here = if 0 <= p < properties@.len() {
                proof {
                    broadcast use vstd::std_specs::vec::axiom_vec_decreases_to_view;
                    assert(decreases_to!(s => properties));
                    assert(decreases_to!(properties => properties@));
                    assert(decreases_to!(properties@ => properties@[p]));
                    assert(decreases_to!(properties@[p] => properties@[p].1));
                }
                validate_v(properties@[p].1, val, sub)
            } else {
                match additional {
                    AdditionalProperties::Allow => Seq::empty(),
                    AdditionalProperties::Forbid => err_v(
                        "SCHEMA_ADDITIONAL_FORBIDDEN"@,
                        "additional property '"@ + k + "' not allowed at "@ + path,
                        sub,
                    ),
                    AdditionalProperties::Schema(b) => {
                        proof {
                            assert(decreases_to!(s => additional));
                            assert(decreases_to!(additional => b));
                        }
                        validate_v(*b, val, sub)
                    },
                }
            };
            object_v(s, entries, vals, path, n - 1) + here
        } else {
            Seq::empty()
        },
        _ => Seq::empty(),
    }
}

/// The diagnostics of the first `n` items of an array, each at `path[i]`.
pub open spec fn array_v(s: SchemaIr, vals: Seq<CborValue>, path: Seq<char>, n: int) -> Seq<DiagV>
    decreases s, 0int, n,
{
    match s {
        SchemaIr::Array { items, .. } => if 0 < n <= vals.len() {
            proof {
                assert(decreases_to!(s => items));
            }
            array_v(s, vals, path, n - 1) + validate_v(*items, vals[n - 1], path + "["@ + dec((n - 1) as nat) + "]"@)
        } else {
            Seq::empty()
        },
        _ => Seq::empty(),
    }
}


// ---------------------------------------------------------------------------
// Executable validation
// ---------------------------------------------------------------------------

fn push_diag(diags: &mut Vec<SchemaDiagnostic>, code: &str, severity: Severity, message: String, path: String)
    ensures
        diags_v(final(diags)@) == diags_v(old(diags)@) + seq![
            DiagV { code: code@, severity, message: message@, path: path@ },
        ],
{
    let d = SchemaDiagnostic { code: String::from_str(code), severity, message, path };
    let ghost before = diags@;
    diags.push(d);
    assert(diags_v(diags@) =~= diags_v(before) + seq![d@]);
}

fn require_kind(kind: &str, ok: bool, path: &str, diags: &mut Vec<SchemaDiagnostic>)
    ensures
        diags_v(final(diags)@) == diags_v(old(diags)@) + if ok { Seq::empty() } else { mismatch_v(kind@, path@) },
{
    if !ok {
        let m = concat3("expected ", kind, " at ");
        push_diag(diags, "SCHEMA_TYPE_MISMATCH", Severity::Error, concat(m.as_str(), path), String::from_str(path));
    } else {
        assert(diags_v(diags@) =~= diags_v(diags@) + Seq::<DiagV>::empty());
    }
}

/// `a == b` on CBOR values.
pub fn cbor_equal(a: &CborValue, b: &CborValue) -> (r: bool)
    ensures
        r == cbor_eq(*a, *b),
    decreases a,
{
    match (a, b) {
        (CborValue::Integer(i, _), CborValue::Integer(j, _)) => *i == *j,
        (CborValue::Bytes(x), CborValue::Bytes(y)) => {
            if x.len() != y.len() {
                return false;
            }
            let mut i: usize = 0;
            while i < x.len()
                invariant
                    i <= x.len(),
                    x.len() == y.len(),
                    *a == CborValue::Bytes(*x),
                    *b == CborValue::Bytes(*y),
                    forall|k: int| 0 <= k < i ==> x@[k] == y@[k],
                decreases x.len() - i,
            {
                if x[i] != y[i] {
                    assert(x@[i as int] != y@[i as int]);
                    return false;
                }
                i = i + 1;
            }
            assert(x@ =~= y@);
            true
        },
        (CborValue::Float(x), CborValue::Float(y)) => match (x.key, y.key) {
            (Some(p), Some(q)) => p == q,
            _ => false,
        },
        (CborValue::Text(x), CborValue::Text(y)) => str_eq(x.as_str(), y.as_str()),
        (CborValue::Bool(x), CborValue::Bool(y)) => *x == *y,
        (CborValue::Null, CborValue::Null) => true,
        (CborValue::Tag(t, x), CborValue::Tag(u, y)) => *t == *u && cbor_equal(&**x, &**y),
        (CborValue::Array(xs), CborValue::Array(ys)) => {
            if xs.len() != ys.len() {
                return false;
            }
            let mut i: usize = 0;
            while i < xs.len()
                invariant
                    i <= xs.len(),
                    xs.len() == ys.len(),
                    *a == CborValue::Array(*xs),
                    *b == CborValue::Array(*ys),
                    forall|k: int| 0 <= k < i ==> cbor_eq(#[trigger] xs@[k], ys@[k]),
                decreases xs.len() - i,
            {
                proof {
                    broadcast use vstd::std_specs::vec::axiom_vec_decreases_to_view;
                    assert(decreases_to!(*a => (*a)->Array_0));
                    assert(decreases_to!(*xs => xs@));
                    assert(decreases_to!(xs@ => xs@[i as int]));
                }
                if !cbor_equal(&xs[i], &ys[i]) {
                    return false;
                }
                i = i + 1;
            }
            true
        },
        (CborValue::Mapping(xs), CborValue::Mapping(ys)) => {
            if xs.len() != ys.len() {
                return false;
            }
            let mut i: usize = 0;
            while i < xs.len()
                invariant
                    i <= xs.len(),
                    xs.len() == ys.len(),
                    *a == CborValue::Mapping(*xs),
                    *b == CborValue::Mapping(*ys),
                    forall|k: int| 0 <= k < i ==> cbor_eq((#[trigger] xs@[k]).0, ys@[k].0) && cbor_eq(xs@[k].1, ys@[k].1),
                decreases xs.len() - i,
            {
                proof {
                    broadcast use vstd::std_specs::vec::axiom_vec_decreases_to_view;
                    assert(decreases_to!(*a => (*a)->Mapping_0));
                    assert(decreases_to!(*xs => xs@));
                    assert(decreases_to!(xs@ => xs@[i as int]));
                    assert(decreases_to!(xs@[i as int] => xs@[i as int].0));
                    assert(decreases_to!(xs@[i as int] => xs@[i as int].1));
                }
                if !cbor_equal(&xs[i].0, &ys[i].0) {
                    return false;
                }
                if !cbor_equal(&xs[i].1, &ys[i].1) {
                    return false;
                }
                i = i + 1;
            }
            true
        },
        _ => false,
    }
}

fn length_checks(
    what: &str,
    code_min: &str,
    code_max: &str,
    bound_min: &str,
    bound_max: &str,
    len: u64,
    min: Option<u64>,
    max: Option<u64>,
    path: &str,
    diags: &mut Vec<SchemaDiagnostic>,
)
    ensures
        diags_v(final(diags)@) == diags_v(old(diags)@) + length_checks_v(
            what@,
            code_min@,
            code_max@,
            bound_min@,
            bound_max@,
            len as nat,
            min,
            max,
            path@,
        ),
{
    let ghost start = diags_v(diags@);
    let lt = u64_to_dec(len);
    if let Some(m) = min {
        if len < m {
            let a = concat3(what, " length ", lt.as_str());
            let b = concat3(a.as_str(), " < ", bound_min);
            let c = concat3(b.as_str(), " ", u64_to_dec(m).as_str());
            push_diag(diags, code_min, Severity::Error, concat3(c.as_str(), " at ", path), String::from_str(path));
        }
    }
    let ghost mid = diags_v(diags@);
    if let Some(m) = max {
        if len > m {
            let a = concat3(what, " length ", lt.as_str());
            let b = concat3(a.as_str(), " > ", bound_max);
            let c = concat3(b.as_str(), " ", u64_to_dec(m).as_str());
            push_diag(diags, code_max, Severity::Error, concat3(c.as_str(), " at ", path), String::from_str(path));
        }
    }
    proof {
        let v = length_checks_v(what@, code_min@, code_max@, bound_min@, bound_max@, len as nat, min, max, path@);
        assert(diags_v(diags@) =~= start + v);
    }
}

fn validate_string(
    min_len: Option<u64>,
    max_len: Option<u64>,
    regex: &Option<String>,
    format: &Option<String>,
    text: &String,
    path: &str,
    diags: &mut Vec<SchemaDiagnostic>,
)
    ensures
        diags_v(final(diags)@) == diags_v(old(diags)@) + string_v(text@, min_len, max_len, *regex, *format, path@),
{
    let ghost start = diags_v(diags@);
    let len = text.as_str().unicode_len() as u64;
    length_checks("string", "SCHEMA_STRING_MIN_LEN", "SCHEMA_STRING_MAX_LEN", "min_len", "max_len", len, min_len, max_len, path, diags);
    let ghost mid = diags_v(diags@);
    if regex.is_some() {
        push_diag(
            diags,
            "SCHEMA_REGEX_UNSUPPORTED",
            Severity::Warning,
            concat("regex constraint not enforced at ", path),
            String::from_str(path),
        );
    }
    let ghost mid2 = diags_v(diags@);
    if format.is_some() {
        push_diag(
            diags,
            "SCHEMA_FORMAT_UNSUPPORTED",
            Severity::Warning,
            concat("format constraint not enforced at ", path),
            String::from_str(path),
        );
    }
    proof {
        assert(diags_v(diags@) =~= start + string_v(text@, min_len, max_len, *regex, *format, path@));
    }
}

fn validate_int(min: Option<i64>, max: Option<i64>, num: i128, path: &str, diags: &mut Vec<SchemaDiagnostic>)
    ensures
        diags_v(final(diags)@) == diags_v(old(diags)@) + int_v(num as int, min, max, path@),
{
    let ghost start = diags_v(diags@);
    let nt = i128_to_dec(num);
    if let Some(m) = min {
        if num < m as i128 {
            let a = concat3("integer ", nt.as_str(), " < min ");
            let b = concat3(a.as_str(), i128_to_dec(m as i128).as_str(), " at ");
            push_diag(diags, "SCHEMA_INT_MIN", Severity::Error, concat(b.as_str(), path), String::from_str(path));
        }
    }
    if let Some(m) = max {
        if num > m as i128 {
            let a = concat3("integer ", nt.as_str(), " > max ");
            let b = concat3(a.as_str(), i128_to_dec(m as i128).as_str(), " at ");
            push_diag(diags, "SCHEMA_INT_MAX", Severity::Error, concat(b.as_str(), path), String::from_str(path));
        }
    }
    proof {
        assert(diags_v(diags@) =~= start + int_v(num as int, min, max, path@));
    }
}

fn float_less(a: &FloatRepr, b: &FloatRepr) -> (r: bool)
    ensures
        r == float_lt(*a, *b),
{
    match (a.key, b.key) {
        (Some(x), Some(y)) => x < y,
        _ => false,
    }
}

fn validate_float(min: &Option<FloatRepr>, max: &Option<FloatRepr>, num: &FloatRepr, path: &str, diags: &mut Vec<SchemaDiagnostic>)
    ensures
        diags_v(final(diags)@) == diags_v(old(diags)@) + float_v(*num, *min, *max, path@),
{
    let ghost start = diags_v(diags@);
    if let Some(m) = min {
        if float_less(num, m) {
            let a = concat3("number ", num.text.as_str(), " < min ");
            let b = concat3(a.as_str(), m.text.as_str(), " at ");
            push_diag(diags, "SCHEMA_FLOAT_MIN", Severity::Error, concat(b.as_str(), path), String::from_str(path));
        }
    }
    if let Some(m) = max {
        if float_less(m, num) {
            let a = concat3("number ", num.text.as_str(), " > max ");
            let b = concat3(a.as_str(), m.text.as_str(), " at ");
            push_diag(diags, "SCHEMA_FLOAT_MAX", Severity::Error, concat(b.as_str(), path), String::from_str(path));
        }
    }
    proof {
        assert(diags_v(diags@) =~= start + float_v(*num, *min, *max, path@));
    }
}


proof fn lemma_sorted_insert_elems<T>(e: Seq<(Seq<char>, T)>, k: Seq<char>, v: T)
    ensures
        forall|j: int| 0 <= j < sorted_insert_v(e, k, v).len() ==> #[trigger] sorted_insert_v(e, k, v)[j] == (k, v)
            || e.contains(sorted_insert_v(e, k, v)[j]),
{
    let keys = e.map_values(|x: (Seq<char>, T)| x.0);
    let p = crate::assoc::sorted_pos(keys, k);
    let r = sorted_insert_v(e, k, v);
    crate::assoc::lemma_sorted_pos_props(keys, k);
    assert forall|j: int| 0 <= j < r.len() implies #[trigger] r[j] == (k, v) || e.contains(r[j]) by {
        if p < e.len() && e[p].0 == k {
            if j != p {
                assert(r[j] == e[j]);
            }
        } else {
            if j < p {
                assert(r[j] == e[j]);
            } else if j > p {
                assert(r[j] == e[j - 1]);
            }
        }
    }
}

/// The collected positions point into the map.
proof fn lemma_collect_bounds(entries: Seq<(CborValue, CborValue)>, n: int)
    requires
        0 <= n <= entries.len(),
    ensures
        forall|j: int| 0 <= j < collect_v(entries, n).len() ==> (#[trigger] collect_v(entries, n)[j]).1 < n,
    decreases n,
{
    if n > 0 {
        lemma_collect_bounds(entries, n - 1);
        let prev = collect_v(entries, n - 1);
        match entries[n - 1].0 {
            CborValue::Text(k) => {
                lemma_sorted_insert_elems(prev, k@, (n - 1) as usize);
                let r = collect_v(entries, n);
                assert forall|j: int| 0 <= j < r.len() implies (#[trigger] r[j]).1 < n by {
                    if r[j] != (k@, (n - 1) as usize) {
                        let i = choose|i: int| 0 <= i < prev.len() && prev[i] == r[j];
                        assert(prev[i].1 < n - 1);
                    }
                }
            },
            _ => {},
        }
    }
}

proof fn lemma_one_of_mono(s: SchemaIr, v: CborValue, path: Seq<char>, m: int, n: int)
    requires
        0 <= m <= n,
        s matches SchemaIr::OneOf { variants } && n <= variants@.len(),
        one_of_ok(s, v, path, m),
    ensures
        one_of_ok(s, v, path, n),
    decreases n - m,
{
    if m < n {
        lemma_one_of_mono(s, v, path, m, n - 1);
    }
}

fn all_non_error(ds: &Vec<SchemaDiagnostic>) -> (r: bool)
    ensures
        r == no_errors(diags_v(ds@)),
{
    let mut i: usize = 0;
    while i < ds.len()
        invariant
            i <= ds.len(),
            forall|k: int| 0 <= k < i ==> #[trigger] diags_v(ds@)[k].severity != Severity::Error,
        decreases ds.len() - i,
    {
        if ds[i].severity == Severity::Error {
            assert(diags_v(ds@)[i as int].severity == Severity::Error);
            return false;
        }
        i = i + 1;
    }
    true
}

fn validate_enum(values: &Vec<CborValue>, value: &CborValue, path: &str, diags: &mut Vec<SchemaDiagnostic>)
    ensures
        diags_v(final(diags)@) == diags_v(old(diags)@) + if exists|i: int| 0 <= i < values@.len() && cbor_eq(#[trigger] values@[i], *value) {
            Seq::empty()
        } else {
            err_v("SCHEMA_ENUM"@, "value is not in enum at "@ + path@, path@)
        },
{
    let mut i: usize = 0;
    while i < values.len()
        invariant
            i <= values.len(),
            forall|k: int| 0 <= k < i ==> !cbor_eq(#[trigger] values@[k], *value),
        decreases values.len() - i,
    {
        if cbor_equal(&values[i], value) {
            assert(diags_v(diags@) =~= diags_v(diags@) + Seq::<DiagV>::empty());
            return;
        }
        i = i + 1;
    }
    push_diag(diags, "SCHEMA_ENUM", Severity::Error, concat("value is not in enum at ", path), String::from_str(path));
}

fn validate_object(schema: &SchemaIr, value: &CborValue, path: &str, diags: &mut Vec<SchemaDiagnostic>)
    requires
        *schema is Object,
    ensures
        diags_v(final(diags)@) == diags_v(old(diags)@) + validate_v(*schema, *value, path@),
    decreases schema, 0int,
{
    let ghost start = diags_v(diags@);
    match schema {
        SchemaIr::Object { properties, required, additional } => {
            let entries = match value {
                CborValue::Mapping(e) => e,
                _ => {
                    require_kind("object", false, path, diags);
                    return;
                },
            };
            let mut vals: Vec<(String, usize)> = Vec::new();
            let mut i: usize = 0;
            assert(keys_of(vals@) =~= Seq::<Seq<char>>::empty());
            assert(kv(vals@) =~= Seq::<(Seq<char>, usize)>::empty());
            while i < entries.len()
                invariant
                    i <= entries.len(),
                    kv(vals@) == collect_v(entries@, i as int),
                    sorted(keys_of(vals@)),
                    diags_v(diags@) == start + invalid_keys_v(entries@, path@, i as int),
                decreases entries.len() - i,
            {
                match &entries[i].0 {
                    CborValue::Text(k) => {
                        crate::assoc::sorted_insert(&mut vals, k.clone(), i);
                        assert(diags_v(diags@) =~= start + invalid_keys_v(entries@, path@, i + 1));
                    },
                    _ => {
                        push_diag(
                            diags,
                            "SCHEMA_INVALID_KEY",
                            Severity::Error,
                            concat("non-string object key at ", path),
                            String::from_str(path),
                        );
                        assert(diags_v(diags@) =~= start + invalid_keys_v(entries@, path@, i + 1));
                    },
                }
                i = i + 1;
            }
            let ghost cv = kv(vals@);
            let ghost inv = invalid_keys_v(entries@, path@, entries@.len() as int);
            let ghost keys = cv.map_values(|x: (Seq<char>, usize)| x.0);
            assert(keys =~= keys_of(vals@));
            let mut j: usize = 0;
            assert(diags_v(diags@) =~= start + inv + missing_v(required@, keys, path@, 0));
            while j < required.len()
                invariant
                    j <= required.len(),
                    keys == keys_of(vals@),
                    diags_v(diags@) == start + inv + missing_v(required@, keys, path@, j as int),
                decreases required.len() - j,
            {
                let key = &required[j];
                if !crate::assoc::has_key(&vals, key.as_str()) {
                    let a = concat3("missing required field '", key.as_str(), "' at ");
                    let m = concat(a.as_str(), path);
                    let p = concat3(path, ".", key.as_str());
                    push_diag(diags, "SCHEMA_REQUIRED_MISSING", Severity::Error, m, p);
                }
                assert(diags_v(diags@) =~= start + inv + missing_v(required@, keys, path@, j + 1));
                j = j + 1;
            }
            let ghost miss = missing_v(required@, keys, path@, required@.len() as int);
            proof {
                lemma_collect_bounds(entries@, entries@.len() as int);
            }
            let mut t: usize = 0;
            assert(diags_v(diags@) =~= start + inv + miss + object_v(*schema, entries@, cv, path@, 0));
            while t < vals.len()
                invariant
                    t <= vals.len(),
                    *schema == (SchemaIr::Object { properties: *properties, required: *required, additional: *additional }),
                    *value == CborValue::Mapping(*entries),
                    cv == kv(vals@),
                    cv == collect_v(entries@, entries@.len() as int),
                    forall|q: int| 0 <= q < cv.len() ==> (#[trigger] cv[q]).1 < entries@.len(),
                    diags_v(diags@) == start + inv + miss + object_v(*schema, entries@, cv, path@, t as int),
                decreases vals.len() - t,
            {
                let key = &vals[t].0;
                let idx = vals[t].1;
                assert(cv[t as int] == (key@, idx));
                let sub = concat3(path, ".", key.as_str());
                let ghost before = diags_v(diags@);
                match crate::assoc::find_key(properties, key.as_str()) {
                    Some(p) => {
                        proof {
                            broadcast use vstd::std_specs::vec::axiom_vec_decreases_to_view;
                            assert(decreases_to!(*schema => *properties));
                            assert(decreases_to!(*properties => properties@));
                            assert(decreases_to!(properties@ => properties@[p as int]));
                            assert(decreases_to!(properties@[p as int] => properties@[p as int].1));
                        }
                        validate_inner(&properties[p].1, &entries[idx].1, sub.as_str(), diags);
                    },
                    None => match additional {
                        AdditionalProperties::Allow => {},
                        AdditionalProperties::Forbid => {
                            let a = concat3("additional property '", key.as_str(), "' not allowed at ");
                            push_diag(diags, "SCHEMA_ADDITIONAL_FORBIDDEN", Severity::Error, concat(a.as_str(), path), sub);
                        },
                        AdditionalProperties::Schema(b) => {
                            proof {
                                assert(decreases_to!(*schema => *additional));
                            }
                            validate_inner(&**b, &entries[idx].1, sub.as_str(), diags);
                        },
                    },
                }
                assert(diags_v(diags@) =~= start + inv + miss + object_v(*schema, entries@, cv, path@, t + 1));
                t = t + 1;
            }
        },
        _ => {},
    }
}

fn validate_array(schema: &SchemaIr, value: &CborValue, path: &str, diags: &mut Vec<SchemaDiagnostic>)
    requires
        *schema is Array,
    ensures
        diags_v(final(diags)@) == diags_v(old(diags)@) + validate_v(*schema, *value, path@),
    decreases schema, 0int,
{
    let ghost start = diags_v(diags@);
    match schema {
        SchemaIr::Array { items, min_items, max_items } => {
            let vals = match value {
                CborValue::Array(v) => v,
                _ => {
                    require_kind("array", false, path, diags);
                    return;
                },
            };
            length_checks(
                "array",
                "SCHEMA_ARRAY_MIN_ITEMS",
                "SCHEMA_ARRAY_MAX_ITEMS",
                "min_items",
                "max_items",
                vals.len() as u64,
                *min_items,
                *max_items,
                path,
                diags,
            );
            let ghost lc = diags_v(diags@);
            let mut i: usize = 0;
            assert(diags_v(diags@) =~= lc + array_v(*schema, vals@, path@, 0));
            while i < vals.len()
                invariant
                    i <= vals.len(),
                    *schema == (SchemaIr::Array { items: *items, min_items: *min_items, max_items: *max_items }),
                    diags_v(diags@) == lc + array_v(*schema, vals@, path@, i as int),
                decreases vals.len() - i,
            {
                let a = concat3(path, "[", u64_to_dec(i as u64).as_str());
                let sub = concat(a.as_str(), "]");
                proof {
                    assert(decreases_to!(*schema => *items));
                }
                validate_inner(&**items, &vals[i], sub.as_str(), diags);
                assert(diags_v(diags@) =~= lc + array_v(*schema, vals@, path@, i + 1));
                i = i + 1;
            }
        },
        _ => {},
    }
}

fn validate_one_of(schema: &SchemaIr, value: &CborValue, path: &str, diags: &mut Vec<SchemaDiagnostic>)
    requires
        *schema is OneOf,
    ensures
        diags_v(final(diags)@) == diags_v(old(diags)@) + validate_v(*schema, *value, path@),
    decreases schema, 0int,
{
    match schema {
        SchemaIr::OneOf { variants } => {
            let mut i: usize = 0;
            while i < variants.len()
                invariant
                    i <= variants.len(),
                    *schema == (SchemaIr::OneOf { variants: *variants }),
                    !one_of_ok(*schema, *value, path@, i as int),
                decreases variants.len() - i,
            {
                let mut local: Vec<SchemaDiagnostic> = Vec::new();
                proof {
                    broadcast use vstd::std_specs::vec::axiom_vec_decreases_to_view;
                    assert(decreases_to!(*schema => (*schema)->variants));
                    assert(decreases_to!(*variants => variants@));
                    assert(decreases_to!(variants@ => variants@[i as int]));
                }
                validate_inner(&variants[i], value, path, &mut local);
                assert(diags_v(local@) =~= validate_v(variants@[i as int], *value, path@));
                if all_non_error(&local) {
                    proof {
                        lemma_one_of_mono(*schema, *value, path@, i + 1, variants@.len() as int);
                    }
                    assert(diags_v(diags@) =~= diags_v(diags@) + Seq::<DiagV>::empty());
                    return;
                }
                i = i + 1;
            }
            push_diag(
                diags,
                "SCHEMA_ONE_OF",
                Severity::Error,
                concat("value does not match any oneOf variant at ", path),
                String::from_str(path),
            );
        },
        _ => {},
    }
}

fn validate_inner(schema: &SchemaIr, value: &CborValue, path: &str, diags: &mut Vec<SchemaDiagnostic>)
    ensures
        diags_v(final(diags)@) == diags_v(old(diags)@) + validate_v(*schema, *value, path@),
    decreases schema, 1int,
{
    match schema {
        SchemaIr::Object { .. } => validate_object(schema, value, path, diags),
        SchemaIr::Array { .. } => validate_array(schema, value, path, diags),
        SchemaIr::String { min_len, max_len, regex, format } => match value {
            CborValue::Text(t) => validate_string(*min_len, *max_len, regex, format, t, path, diags),
            _ => require_kind("string", false, path, diags),
        },
        SchemaIr::Int { min, max } => match value {
            CborValue::Integer(i, _) => validate_int(*min, *max, *i, path, diags),
            _ => require_kind("integer", false, path, diags),
        },
        SchemaIr::Float { min, max } => match value {
            CborValue::Float(f) => validate_float(min, max, f, path, diags),
            CborValue::Integer(_, f) => validate_float(min, max, f, path, diags),
            _ => require_kind("number", false, path, diags),
        },
        SchemaIr::Bool => require_kind("boolean", matches!(value, CborValue::Bool(_)), path, diags),
        SchemaIr::Null => require_kind("null", matches!(value, CborValue::Null), path, diags),
        SchemaIr::Bytes => require_kind("bytes", matches!(value, CborValue::Bytes(_)), path, diags),
        SchemaIr::Enum { values } => validate_enum(values, value, path, diags),
        SchemaIr::OneOf { .. } => validate_one_of(schema, value, path, diags),
        SchemaIr::Ref { id } => {
            let m = concat3("schema ref '", id.as_str(), "' is not supported");
            push_diag(diags, "SCHEMA_REF_UNSUPPORTED", Severity::Error, m, String::from_str(path));
        },
    }
}

/// Validates a value against a schema from its root, `$`.
pub fn validate_value_against_schema(schema: &SchemaIr, value: &CborValue) -> (r: Vec<SchemaDiagnostic>)
    ensures
        diags_v(r@) == validate_v(*schema, *value, "$"@),
{
    let mut diags: Vec<SchemaDiagnostic> = Vec::new();
    validate_inner(schema, value, "$", &mut diags);
    assert(diags_v(diags@) =~= Seq::<DiagV>::empty() + validate_v(*schema, *value, "$"@));
    diags
}


// ---------------------------------------------------------------------------
// Where diagnostics point
// ---------------------------------------------------------------------------

/// Every diagnostic points at `path` or below it.
pub open spec fn all_within(ds: Seq<DiagV>, path: Seq<char>) -> bool {
    forall|i: int| 0 <= i < ds.len() ==> starts_with((#[trigger] ds[i]).path, path)
}

proof fn lemma_within_concat(a: Seq<DiagV>, b: Seq<DiagV>, path: Seq<char>)
    requires
        all_within(a, path),
        all_within(b, path),
    ensures
        all_within(a + b, path),
{
    assert forall|i: int| 0 <= i < (a + b).len() implies starts_with((#[trigger] (a + b)[i]).path, path) by {
        if i < a.len() {
            assert((a + b)[i] == a[i]);
        } else {
            assert((a + b)[i] == b[i - a.len()]);
        }
    }
}

proof fn lemma_starts_with_extend(path: Seq<char>, x: Seq<char>)
    ensures
        starts_with(path + x, path),
{
    assert((path + x).subrange(0, path.len() as int) =~= path);
}

proof fn lemma_within_below(ds: Seq<DiagV>, path: Seq<char>, x: Seq<char>)
    requires
        all_within(ds, path + x),
    ensures
        all_within(ds, path),
{
    assert forall|i: int| 0 <= i < ds.len() implies starts_with((#[trigger] ds[i]).path, path) by {
        let q = ds[i].path;
        assert(q.subrange(0, (path + x).len() as int) == path + x);
        assert(q.subrange(0, path.len() as int) =~= (path + x).subrange(0, path.len() as int));
        lemma_starts_with_extend(path, x);
    }
}

proof fn lemma_here_within(code: Seq<char>, message: Seq<char>, path: Seq<char>)
    ensures
        all_within(err_v(code, message, path), path),
        all_within(warn_v(code, message, path), path),
{
    assert(path.subrange(0, path.len() as int) =~= path);
}

proof fn lemma_invalid_keys_within(entries: Seq<(CborValue, CborValue)>, path: Seq<char>, n: int)
    ensures
        all_within(invalid_keys_v(entries, path, n), path),
    decreases n,
{
    if n > 0 {
        lemma_invalid_keys_within(entries, path, n - 1);
        lemma_here_within("SCHEMA_INVALID_KEY"@, "non-string object key at "@ + path, path);
        let here = match entries[n - 1].0 {
            CborValue::Text(_) => Seq::<DiagV>::empty(),
            _ => err_v("SCHEMA_INVALID_KEY"@, "non-string object key at "@ + path, path),
        };
        lemma_within_concat(invalid_keys_v(entries, path, n - 1), here, path);
    }
}

proof fn lemma_missing_within(required: Seq<String>, keys: Seq<Seq<char>>, path: Seq<char>, n: int)
    ensures
        all_within(missing_v(required, keys, path, n), path),
    decreases n,
{
    if n > 0 {
        lemma_missing_within(required, keys, path, n - 1);
        let k = required[n - 1]@;
        let e = err_v("SCHEMA_REQUIRED_MISSING"@, "missing required field '"@ + k + "' at "@ + path, path + "."@ + k);
        assert(path + "."@ + k =~= path + ("."@ + k));
        lemma_starts_with_extend(path, "."@ + k);
        let here = if keys.contains(k) { Seq::<DiagV>::empty() } else { e };
        lemma_within_concat(missing_v(required, keys, path, n - 1), here, path);
    }
}

proof fn lemma_checks_within(s: SchemaIr, v: CborValue, path: Seq<char>)
    ensures
        match (s, v) {
            (SchemaIr::String { min_len, max_len, regex, format }, CborValue::Text(t)) => all_within(
                string_v(t@, min_len, max_len, regex, format, path),
                path,
            ),
            (SchemaIr::Int { min, max }, CborValue::Integer(i, _)) => all_within(int_v(i as int, min, max, path), path),
            (SchemaIr::Float { min, max }, CborValue::Float(f)) => all_within(float_v(f, min, max, path), path),
            (SchemaIr::Float { min, max }, CborValue::Integer(_, f)) => all_within(float_v(f, min, max, path), path),
            (SchemaIr::Array { min_items, max_items, .. }, CborValue::Array(vals)) => all_within(
                length_checks_v(
                    "array"@,
                    "SCHEMA_ARRAY_MIN_ITEMS"@,
                    "SCHEMA_ARRAY_MAX_ITEMS"@,
                    "min_items"@,
                    "max_items"@,
                    vals@.len(),
                    min_items,
                    max_items,
                    path,
                ),
                path,
            ),
            _ => true,
        },
{
    assert(path.subrange(0, path.len() as int) =~= path);
}

/// Validation reports every finding at the validated value's path or below.
pub proof fn law_diagnostics_within_path(s: SchemaIr, v: CborValue, path: Seq<char>)
    ensures
        all_within(validate_v(s, v, path), path),
    decreases s, 1int, 0int,
{
    assert(path.subrange(0, path.len() as int) =~= path);
    lemma_checks_within(s, v, path);
    match s {
        SchemaIr::Object { properties, required, additional } => match v {
            CborValue::Mapping(entries) => {
                let vals = collect_v(entries@, entries@.len() as int);
                let keys = vals.map_values(|x: (Seq<char>, usize)| x.0);
                lemma_invalid_keys_within(entries@, path, entries@.len() as int);
                lemma_missing_within(required@, keys, path, required@.len() as int);
                lemma_object_within(s, entries@, vals, path, vals.len() as int);
                lemma_within_concat(
                    invalid_keys_v(entries@, path, entries@.len() as int),
                    missing_v(required@, keys, path, required@.len() as int),
                    path,
                );
                lemma_within_concat(
                    invalid_keys_v(entries@, path, entries@.len() as int) + missing_v(required@, keys, path, required@.len() as int),
                    object_v(s, entries@, vals, path, vals.len() as int),
                    path,
                );
            },
            _ => {},
        },
        SchemaIr::Array { items, min_items, max_items } => match v {
            CborValue::Array(vals) => {
                lemma_array_within(s, vals@, path, vals@.len() as int);
                lemma_within_concat(
                    length_checks_v(
                        "array"@,
                        "SCHEMA_ARRAY_MIN_ITEMS"@,
                        "SCHEMA_ARRAY_MAX_ITEMS"@,
                        "min_items"@,
                        "max_items"@,
                        vals@.len(),
                        min_items,
                        max_items,
                        path,
                    ),
                    array_v(s, vals@, path, vals@.len() as int),
                    path,
                );
            },
            _ => {},
        },
        _ => {},
    }
}

proof fn lemma_object_within(
    s: SchemaIr,
    entries: Seq<(CborValue, CborValue)>,
    vals: Seq<(Seq<char>, usize)>,
    path: Seq<char>,
    n: int,
)
    ensures
        all_within(object_v(s, entries, vals, path, n), path),
    decreases s, 0int, n,
{
    match s {
        SchemaIr::Object { properties, required, additional } => if 0 < n <= vals.len() && forall|j: int|
            0 <= j < vals.len() ==> #[trigger] vals[j].1 < entries.len() {
            let k = vals[n - 1].0;
            let val = entries[vals[n - 1].1 as int].1;
            let sub = path + "."@ + k;
            assert(sub =~= path + ("."@ + k));
            lemma_starts_with_extend(path, "."@ + k);
            let p = key_index(keys_of(properties@), k);
            let here = if 0 <= p < properties@.len() {
                validate_v(properties@[p].1, val, sub)
            } else {
                match additional {
                    AdditionalProperties::Allow => Seq::empty(),
                    AdditionalProperties::Forbid => err_v(
                        "SCHEMA_ADDITIONAL_FORBIDDEN"@,
                        "additional property '"@ + k + "' not allowed at "@ + path,
                        sub,
                    ),
                    AdditionalProperties::Schema(b) => validate_v(*b, val, sub),
                }
            };
            if 0 <= p < properties@.len() {
                broadcast use vstd::std_specs::vec::axiom_vec_decreases_to_view;
                assert(decreases_to!(s => properties));
                assert(decreases_to!(properties => properties@));
                assert(decreases_to!(properties@ => properties@[p]));
                assert(decreases_to!(properties@[p] => properties@[p].1));
                law_diagnostics_within_path(properties@[p].1, val, sub);
            } else {
                match additional {
                    AdditionalProperties::Allow => {},
                    AdditionalProperties::Forbid => {
                        assert(sub.subrange(0, sub.len() as int) =~= sub);
                    },
                    AdditionalProperties::Schema(b) => {
                        assert(decreases_to!(s => additional));
                        assert(decreases_to!(additional => b));
                        law_diagnostics_within_path(*b, val, sub);
                    },
                }
            }
            assert(all_within(here, sub));
            lemma_within_below(here, path, "."@ + k);
            lemma_object_within(s, entries, vals, path, n - 1);
            lemma_within_concat(object_v(s, entries, vals, path, n - 1), here, path);
        },
        _ => {},
    }
}

proof fn lemma_array_within(s: SchemaIr, vals: Seq<CborValue>, path: Seq<char>, n: int)
    ensures
        all_within(array_v(s, vals, path, n), path),
    decreases s, 0int, n,
{
    match s {
        SchemaIr::Array { items, .. } => if 0 < n <= vals.len() {
            assert(decreases_to!(s => items));
            let x = "["@ + dec((n - 1) as nat) + "]"@;
            let sub = path + "["@ + dec((n - 1) as nat) + "]"@;
            assert(sub =~= path + x);
            law_diagnostics_within_path(*items, vals[n - 1], sub);
            lemma_within_below(validate_v(*items, vals[n - 1], sub), path, x);
            lemma_array_within(s, vals, path, n - 1);
            lemma_within_concat(array_v(s, vals, path, n - 1), validate_v(*items, vals[n - 1], sub), path);
        },
        _ => {},
    }
}

// ---------------------------------------------------------------------------
// Bounds
// ---------------------------------------------------------------------------

/// Some diagnostic is an error with this code.
pub open spec fn has_error(ds: Seq<DiagV>, code: Seq<char>) -> bool {
    exists|i: int| 0 <= i < ds.len() && (#[trigger] ds[i]).severity == Severity::Error && ds[i].code == code
}

proof fn lemma_has_error_prefix(a: Seq<DiagV>, b: Seq<DiagV>, code: Seq<char>)
    requires
        has_error(a, code),
    ensures
        has_error(a + b, code),
{
    let i = choose|i: int| 0 <= i < a.len() && (#[trigger] a[i]).severity == Severity::Error && a[i].code == code;
    assert((a + b)[i] == a[i]);
}

proof fn lemma_has_error_suffix(a: Seq<DiagV>, b: Seq<DiagV>, code: Seq<char>)
    requires
        has_error(b, code),
    ensures
        has_error(a + b, code),
{
    let i = choose|i: int| 0 <= i < b.len() && (#[trigger] b[i]).severity == Severity::Error && b[i].code == code;
    assert((a + b)[a.len() + i] == b[i]);
}

proof fn lemma_no_errors_split(a: Seq<DiagV>, b: Seq<DiagV>)
    requires
        no_errors(a + b),
    ensures
        no_errors(a),
        no_errors(b),
{
    assert forall|i: int| 0 <= i < a.len() implies #[trigger] a[i].severity != Severity::Error by {
        assert((a + b)[i] == a[i]);
    }
    assert forall|i: int| 0 <= i < b.len() implies #[trigger] b[i].severity != Severity::Error by {
        assert((a + b)[a.len() + i] == b[i]);
    }
}

proof fn lemma_length_checks(
    what: Seq<char>,
    code_min: Seq<char>,
    code_max: Seq<char>,
    bound_min: Seq<char>,
    bound_max: Seq<char>,
    len: nat,
    min: Option<u64>,
    max: Option<u64>,
    path: Seq<char>,
)
    ensures
        ({
            let ds = length_checks_v(what, code_min, code_max, bound_min, bound_max, len, min, max, path);
            &&& (min matches Some(m) && len < m ==> has_error(ds, code_min))
            &&& (max matches Some(m) && len > m ==> has_error(ds, code_max))
            &&& (no_errors(ds) ==> (min matches Some(m) ==> len >= m) && (max matches Some(m) ==> len <= m))
        }),
{
    let a = match min {
        Some(m) => if len < m {
            err_v(code_min, what + " length "@ + dec(len) + " < "@ + bound_min + " "@ + dec(m as nat) + " at "@ + path, path)
        } else {
            Seq::empty()
        },
        None => Seq::empty(),
    };
    let b = match max {
        Some(m) => if len > m {
            err_v(code_max, what + " length "@ + dec(len) + " > "@ + bound_max + " "@ + dec(m as nat) + " at "@ + path, path)
        } else {
            Seq::empty()
        },
        None => Seq::empty(),
    };
    assert(length_checks_v(what, code_min, code_max, bound_min, bound_max, len, min, max, path) == a + b);
    if min matches Some(m) && len < m {
        assert(a[0].severity == Severity::Error && a[0].code == code_min);
        lemma_has_error_prefix(a, b, code_min);
    }
    if max matches Some(m) && len > m {
        assert(b[0].severity == Severity::Error && b[0].code == code_max);
        lemma_has_error_suffix(a, b, code_max);
    }
    if no_errors(a + b) {
        lemma_no_errors_split(a, b);
        if min matches Some(m) && len < m {
            assert(a[0].severity == Severity::Error);
        }
        if max matches Some(m) && len > m {
            assert(b[0].severity == Severity::Error);
        }
    }
}

/// A text shorter than a string schema's `min_len` gets a
/// `SCHEMA_STRING_MIN_LEN` error, one longer than its `max_len` a
/// `SCHEMA_STRING_MAX_LEN` error; a text with no error meets both bounds.
pub proof fn law_string_length_bounds(
    min_len: Option<u64>,
    max_len: Option<u64>,
    regex: Option<String>,
    format: Option<String>,
    text: String,
    path: Seq<char>,
)
    ensures
        ({
            let ds = validate_v(SchemaIr::String { min_len, max_len, regex, format }, CborValue::Text(text), path);
            &&& (min_len matches Some(m) && text@.len() < m ==> has_error(ds, "SCHEMA_STRING_MIN_LEN"@))
            &&& (max_len matches Some(m) && text@.len() > m ==> has_error(ds, "SCHEMA_STRING_MAX_LEN"@))
            &&& (no_errors(ds) ==> (min_len matches Some(m) ==> text@.len() >= m) && (max_len matches Some(m)
                ==> text@.len() <= m))
        }),
{
    let lc = length_checks_v(
        "string"@,
        "SCHEMA_STRING_MIN_LEN"@,
        "SCHEMA_STRING_MAX_LEN"@,
        "min_len"@,
        "max_len"@,
        text@.len(),
        min_len,
        max_len,
        path,
    );
    lemma_length_checks(
        "string"@,
        "SCHEMA_STRING_MIN_LEN"@,
        "SCHEMA_STRING_MAX_LEN"@,
        "min_len"@,
        "max_len"@,
        text@.len(),
        min_len,
        max_len,
        path,
    );
    let ds = validate_v(SchemaIr::String { min_len, max_len, regex, format }, CborValue::Text(text), path);
    let rest = ds.subrange(lc.len() as int, ds.len() as int);
    assert(ds =~= lc + rest);
    if min_len matches Some(m) && text@.len() < m {
        lemma_has_error_prefix(lc, rest, "SCHEMA_STRING_MIN_LEN"@);
    }
    if max_len matches Some(m) && text@.len() > m {
        lemma_has_error_prefix(lc, rest, "SCHEMA_STRING_MAX_LEN"@);
    }
    if no_errors(ds) {
        lemma_no_errors_split(lc, rest);
    }
}

/// An array with fewer items than `min_items` gets a
/// `SCHEMA_ARRAY_MIN_ITEMS` error, one with more than `max_items` a
/// `SCHEMA_ARRAY_MAX_ITEMS` error; an array with no error meets both bounds.
pub proof fn law_array_length_bounds(
    items: Box<SchemaIr>,
    min_items: Option<u64>,
    max_items: Option<u64>,
    vals: Vec<CborValue>,
    path: Seq<char>,
)
    ensures
        ({
            let ds = validate_v(SchemaIr::Array { items, min_items, max_items }, CborValue::Array(vals), path);
            &&& (min_items matches Some(m) && vals@.len() < m ==> has_error(ds, "SCHEMA_ARRAY_MIN_ITEMS"@))
            &&& (max_items matches Some(m) && vals@.len() > m ==> has_error(ds, "SCHEMA_ARRAY_MAX_ITEMS"@))
            &&& (no_errors(ds) ==> (min_items matches Some(m) ==> vals@.len() >= m) && (max_items matches Some(m)
                ==> vals@.len() <= m))
        }),
{
    let lc = length_checks_v(
        "array"@,
        "SCHEMA_ARRAY_MIN_ITEMS"@,
        "SCHEMA_ARRAY_MAX_ITEMS"@,
        "min_items"@,
        "max_items"@,
        vals@.len(),
        min_items,
        max_items,
        path,
    );
    lemma_length_checks(
        "array"@,
        "SCHEMA_ARRAY_MIN_ITEMS"@,
        "SCHEMA_ARRAY_MAX_ITEMS"@,
        "min_items"@,
        "max_items"@,
        vals@.len(),
        min_items,
        max_items,
        path,
    );
    let ds = validate_v(SchemaIr::Array { items, min_items, max_items }, CborValue::Array(vals), path);
    let rest = ds.subrange(lc.len() as int, ds.len() as int);
    assert(ds =~= lc + rest);
    if min_items matches Some(m) && vals@.len() < m {
        lemma_has_error_prefix(lc, rest, "SCHEMA_ARRAY_MIN_ITEMS"@);
    }
    if max_items matches Some(m) && vals@.len() > m {
        lemma_has_error_prefix(lc, rest, "SCHEMA_ARRAY_MAX_ITEMS"@);
    }
    if no_errors(ds) {
        lemma_no_errors_split(lc, rest);
    }
}

/// An integer below an integer schema's `min` gets a `SCHEMA_INT_MIN`
/// error, one above its `max` a `SCHEMA_INT_MAX` error; an integer with no
/// error lies within both bounds.
pub proof fn law_int_bounds(min: Option<i64>, max: Option<i64>, n: i128, f: FloatRepr, path: Seq<char>)
    ensures
        ({
            let ds = validate_v(SchemaIr::Int { min, max }, CborValue::Integer(n, f), path);
            &&& (min matches Some(m) && n < m ==> has_error(ds, "SCHEMA_INT_MIN"@))
            &&& (max matches Some(m) && n > m ==> has_error(ds, "SCHEMA_INT_MAX"@))
            &&& (no_errors(ds) ==> (min matches Some(m) ==> n >= m) && (max matches Some(m) ==> n <= m))
        }),
{
    let a = match min {
        Some(m) => if n < m {
            err_v("SCHEMA_INT_MIN"@, "integer "@ + int_dec(n as int) + " < min "@ + int_dec(m as int) + " at "@ + path, path)
        } else {
            Seq::empty()
        },
        None => Seq::empty(),
    };
    let b = match max {
        Some(m) => if n > m {
            err_v("SCHEMA_INT_MAX"@, "integer "@ + int_dec(n as int) + " > max "@ + int_dec(m as int) + " at "@ + path, path)
        } else {
            Seq::empty()
        },
        None => Seq::empty(),
    };
    let ds = validate_v(SchemaIr::Int { min, max }, CborValue::Integer(n, f), path);
    assert(ds == a + b);
    if min matches Some(m) && n < m {
        assert(a[0].severity == Severity::Error && a[0].code == "SCHEMA_INT_MIN"@);
        lemma_has_error_prefix(a, b, "SCHEMA_INT_MIN"@);
    }
    if max matches Some(m) && n > m {
        assert(b[0].severity == Severity::Error && b[0].code == "SCHEMA_INT_MAX"@);
        lemma_has_error_suffix(a, b, "SCHEMA_INT_MAX"@);
    }
    if no_errors(ds) {
        lemma_no_errors_split(a, b);
        if min matches Some(m) && n < m {
            assert(a[0].severity == Severity::Error);
        }
        if max matches Some(m) && n > m {
            assert(b[0].severity == Severity::Error);
        }
    }
}

} // verus!
