use vstd::prelude::*;
use crate::text::str_eq;

verus! {

/// A JSON number as the flow documents carry it: an unsigned or negative
/// integer, or any other number kept as its decimal text.
#[derive(Debug)]
pub enum JsonNumber {
    PosInt(u64),
    NegInt(i64),
    Float(String),
}

/// A JSON value. Objects keep their entries in order; lookups take the first
/// entry with a given key.
#[derive(Debug)]
pub enum JsonValue {
    Null,
    Bool(bool),
    Number(JsonNumber),
    String(String),
    Array(Vec<JsonValue>),
    Object(Vec<(String, JsonValue)>),
}

/// Mathematical model of a number.
pub enum NumV {
    PosInt(u64),
    NegInt(i64),
    Float(Seq<char>),
}

/// Mathematical model of a JSON value: strings as `Seq<char>`, arrays and
/// objects as sequences.
pub enum JsonV {
    Null,
    Bool(bool),
    Number(NumV),
    Str(Seq<char>),
    Array(Seq<JsonV>),
    Object(Seq<(Seq<char>, JsonV)>),
}

pub open spec fn num_view(n: JsonNumber) -> NumV {
    match n {
        JsonNumber::PosInt(u) => NumV::PosInt(u),
        JsonNumber::NegInt(i) => NumV::NegInt(i),
        JsonNumber::Float(s) => NumV::Float(s@),
    }
}

impl View for JsonNumber {
    type V = NumV;

    open spec fn view(&self) -> NumV {
        num_view(*self)
    }
}

pub open spec fn jv(v: JsonValue) -> JsonV
    decreases v,
{
    match v {
        JsonValue::Null => JsonV::Null,
        JsonValue::Bool(b) => JsonV::Bool(b),
        JsonValue::Number(n) => JsonV::Number(num_view(n)),
        JsonValue::String(s) => JsonV::Str(s@),
        JsonValue::Array(items) => JsonV::Array(jv_seq(items@)),
        JsonValue::Object(entries) => JsonV::Object(jv_entries(entries@)),
    }
}

pub open spec fn jv_seq(s: Seq<JsonValue>) -> Seq<JsonV>
    decreases s,
{
    if s.len() == 0 {
        Seq::empty()
    } else {
        jv_seq(s.drop_last()).push(jv(s.last()))
    }
}

pub open spec fn jv_entries(s: Seq<(String, JsonValue)>) -> Seq<(Seq<char>, JsonV)>
    decreases s,
{
    if s.len() == 0 {
        Seq::empty()
    } else {
        jv_entries(s.drop_last()).push((s.last().0@, jv(s.last().1)))
    }
}

impl View for JsonValue {
    type V = JsonV;

    open spec fn view(&self) -> JsonV {
        jv(*self)
    }
}


pub proof fn lemma_jv_seq(s: Seq<JsonValue>)
    ensures
        jv_seq(s).len() == s.len(),
        forall|i: int| 0 <= i < s.len() ==> #[trigger] jv_seq(s)[i] == jv(s[i]),
    decreases s.len(),
{
    if s.len() > 0 {
        lemma_jv_seq(s.drop_last());
        assert forall|i: int| 0 <= i < s.len() implies #[trigger] jv_seq(s)[i] == jv(s[i]) by {
            if i < s.len() - 1 {
                assert(s.drop_last()[i] == s[i]);
            }
        }
    }
}

pub proof fn lemma_jv_entries(s: Seq<(String, JsonValue)>)
    ensures
        jv_entries(s).len() == s.len(),
        forall|i: int|
            0 <= i < s.len() ==> #[trigger] jv_entries(s)[i] == (s[i].0@, jv(s[i].1)),
    decreases s.len(),
{
    if s.len() > 0 {
        lemma_jv_entries(s.drop_last());
        assert forall|i: int| 0 <= i < s.len() implies #[trigger] jv_entries(s)[i] == (
        s[i].0@,
        jv(s[i].1),
        ) by {
            if i < s.len() - 1 {
                assert(s.drop_last()[i] == s[i]);
            }
        }
    }
}

/// Two entry lists with equal keys and values, position by position, have
/// equal models.
pub proof fn lemma_jv_entries_ext(a: Seq<(String, JsonValue)>, b: Seq<(String, JsonValue)>)
    requires
        a.len() == b.len(),
        forall|i: int| 0 <= i < a.len() ==> a[i].0@ == b[i].0@ && jv(a[i].1) == jv(b[i].1),
    ensures
        jv_entries(a) == jv_entries(b),
{
    lemma_jv_entries(a);
    lemma_jv_entries(b);
    assert(jv_entries(a) =~= jv_entries(b));
}

pub proof fn lemma_jv_seq_ext(a: Seq<JsonValue>, b: Seq<JsonValue>)
    requires
        a.len() == b.len(),
        forall|i: int| 0 <= i < a.len() ==> jv(a[i]) == jv(b[i]),
    ensures
        jv_seq(a) == jv_seq(b),
{
    lemma_jv_seq(a);
    lemma_jv_seq(b);
    assert(jv_seq(a) =~= jv_seq(b));
}

// ---------------------------------------------------------------------------
// Objects as ordered entry lists
// ---------------------------------------------------------------------------

pub type Entries = Seq<(Seq<char>, JsonV)>;

/// Position of the first entry with key `k`, or -1.
pub open spec fn key_pos(e: Entries, k: Seq<char>) -> int
    decreases e.len(),
{
    if e.len() == 0 {
        -1
    } else if e[0].0 == k {
        0
    } else {
        let p = key_pos(e.drop_first(), k);
        if p < 0 {
            -1
        } else {
            p + 1
        }
    }
}

pub proof fn lemma_key_pos(e: Entries, k: Seq<char>)
    ensures
        -1 <= key_pos(e, k) < e.len(),
        key_pos(e, k) == -1 <==> (forall|j: int| 0 <= j < e.len() ==> (#[trigger] e[j]).0 != k),
        key_pos(e, k) >= 0 ==> e[key_pos(e, k)].0 == k,
        forall|j: int| 0 <= j < key_pos(e, k) ==> (#[trigger] e[j]).0 != k,
    decreases e.len(),
{
    if e.len() > 0 && e[0].0 != k {
        let t = e.drop_first();
        lemma_key_pos(t, k);
        assert forall|j: int| 0 < j < e.len() implies e[j] == t[j - 1] by {}
        if key_pos(t, k) == -1 {
            assert forall|j: int| 0 <= j < e.len() implies (#[trigger] e[j]).0 != k by {
                if j > 0 {
                    assert(e[j] == t[j - 1]);
                }
            }
        } else {
            assert forall|j: int| 0 <= j < key_pos(e, k) implies (#[trigger] e[j]).0 != k by {
                if j > 0 {
                    assert(e[j] == t[j - 1]);
                }
            }
        }
        if key_pos(e, k) == -1 {
            assert forall|j: int| 0 <= j < t.len() implies (#[trigger] t[j]).0 != k by {
                assert(e[j + 1] == t[j]);
            }
        }
    }
}

/// Value of the first entry with key `k`.
pub open spec fn obj_get_v(e: Entries, k: Seq<char>) -> Option<JsonV> {
    let p = key_pos(e, k);
    if p >= 0 {
        Some(e[p].1)
    } else {
        None
    }
}

pub open spec fn has_key(e: Entries, k: Seq<char>) -> bool {
    key_pos(e, k) >= 0
}

/// `Map::insert`: replaces the value of an existing key in place, or appends.
pub open spec fn obj_insert_v(e: Entries, k: Seq<char>, v: JsonV) -> Entries {
    let p = key_pos(e, k);
    if p >= 0 {
        e.update(p, (k, v))
    } else {
        e.push((k, v))
    }
}

/// `Map::remove`: drops the entry with key `k`, keeping the others in order.
pub open spec fn obj_remove_v(e: Entries, k: Seq<char>) -> Entries {
    let p = key_pos(e, k);
    if p >= 0 {
        e.remove(p)
    } else {
        e
    }
}

/// The model of an object's entry list.
pub open spec fn ev(e: Seq<(String, JsonValue)>) -> Entries {
    jv_entries(e)
}

proof fn lemma_key_pos_same_keys(a: Entries, b: Entries, k: Seq<char>)
    requires
        a.len() == b.len(),
        forall|i: int| 0 <= i < a.len() ==> (#[trigger] a[i]).0 == b[i].0,
    ensures
        key_pos(a, k) == key_pos(b, k),
    decreases a.len(),
{
    if a.len() > 0 {
        assert(a[0].0 == b[0].0);
        assert forall|i: int| 0 <= i < a.drop_first().len() implies (
        #[trigger] a.drop_first()[i]).0 == b.drop_first()[i].0 by {
            assert(a[i + 1].0 == b[i + 1].0);
        }
        lemma_key_pos_same_keys(a.drop_first(), b.drop_first(), k);
    }
}

pub proof fn lemma_key_pos_push(e: Entries, x: (Seq<char>, JsonV), k: Seq<char>)
    ensures
        key_pos(e.push(x), k) == if key_pos(e, k) >= 0 {
            key_pos(e, k)
        } else if x.0 == k {
            e.len() as int
        } else {
            -1
        },
    decreases e.len(),
{
    let ex = e.push(x);
    if e.len() > 0 {
        assert(ex[0] == e[0]);
        let t = e.drop_first();
        assert(ex.drop_first() =~= t.push(x));
        lemma_key_pos_push(t, x, k);
        assert(key_pos(ex, k) == if ex[0].0 == k { 0 } else {
            let p = key_pos(ex.drop_first(), k);
            if p < 0 { -1 } else { p + 1 }
        });
    } else {
        assert(e.push(x).drop_first() =~= Seq::<(Seq<char>, JsonV)>::empty());
        assert(e.push(x)[0] == x);
        assert(key_pos(ex.drop_first(), k) == -1);
    }
}

/// Reading a key from an object with one more entry at its end.
pub proof fn lemma_get_push(e: Entries, x: (Seq<char>, JsonV), k: Seq<char>)
    ensures
        obj_get_v(e.push(x), k) == if has_key(e, k) {
            obj_get_v(e, k)
        } else if x.0 == k {
            Some(x.1)
        } else {
            None
        },
{
    lemma_key_pos_push(e, x, k);
    lemma_key_pos(e, k);
    if has_key(e, k) {
        assert(e.push(x)[key_pos(e, k)] == e[key_pos(e, k)]);
    }
}

/// A value read back from an object right after it was written there.
pub proof fn lemma_insert_then_get(e: Entries, k: Seq<char>, v: JsonV, k2: Seq<char>)
    ensures
        obj_get_v(obj_insert_v(e, k, v), k2) == if k2 == k {
            Some(v)
        } else {
            obj_get_v(e, k2)
        },
{
    lemma_key_pos(e, k);
    lemma_key_pos(e, k2);
    let p = key_pos(e, k);
    let e2 = obj_insert_v(e, k, v);
    if p >= 0 {
        lemma_key_pos_same_keys(e2, e, k2);
        if k2 != k && key_pos(e, k2) >= 0 {
            assert(key_pos(e, k2) != p);
        }
    } else {
        lemma_key_pos_push(e, (k, v), k2);
    }
}

// ---------------------------------------------------------------------------
// Executable operations
// ---------------------------------------------------------------------------

pub fn clone_number(n: &JsonNumber) -> (r: JsonNumber)
    ensures
        r@ == n@,
{
    match n {
        JsonNumber::PosInt(u) => JsonNumber::PosInt(*u),
        JsonNumber::NegInt(i) => JsonNumber::NegInt(*i),
        JsonNumber::Float(s) => JsonNumber::Float(s.clone()),
    }
}

/// A copy of a value, equal to it in the model.
pub fn deep_clone(v: &JsonValue) -> (r: JsonValue)
    ensures
        r@ == v@,
    decreases v,
{
    match v {
        JsonValue::Null => JsonValue::Null,
        JsonValue::Bool(b) => JsonValue::Bool(*b),
        JsonValue::Number(n) => JsonValue::Number(clone_number(n)),
        JsonValue::String(s) => JsonValue::String(s.clone()),
        JsonValue::Array(items) => {
            let mut out: Vec<JsonValue> = Vec::new();
            let mut i: usize = 0;
            while i < items.len()
                invariant
                    i <= items.len(),
                    *v == JsonValue::Array(*items),
                    out@.len() == i,
                    forall|k: int| 0 <= k < i ==> jv(#[trigger] out@[k]) == jv(items@[k]),
                decreases items.len() - i,
            {
                proof {
                    broadcast use vstd::std_specs::vec::axiom_vec_decreases_to_view;
                    assert(*v == JsonValue::Array(*items));
                    assert(decreases_to!(*v => (*v)->Array_0));
                    assert(decreases_to!(*items => items@));
                    assert(decreases_to!(items@ => items@[i as int]));
                }
                let c = deep_clone(&items[i]);
                out.push(c);
                i = i + 1;
            }
            proof {
                lemma_jv_seq_ext(out@, items@);
            }
            JsonValue::Array(out)
        },
        JsonValue::Object(entries) => {
            let out = clone_entries(entries);
            JsonValue::Object(out)
        },
    }
}

/// A copy of an entry list, equal to it in the model.
pub fn clone_entries(entries: &Vec<(String, JsonValue)>) -> (out: Vec<(String, JsonValue)>)
    ensures
        ev(out@) == ev(entries@),
    decreases entries,
{
    let mut out: Vec<(String, JsonValue)> = Vec::new();
    let mut i: usize = 0;
    while i < entries.len()
        invariant
            i <= entries.len(),
            out@.len() == i,
            forall|k: int|
                0 <= k < i ==> (#[trigger] out@[k]).0@ == entries@[k].0@ && jv(out@[k].1) == jv(
                    entries@[k].1,
                ),
        decreases entries.len() - i,
    {
        let key = entries[i].0.clone();
        proof {
            broadcast use vstd::std_specs::vec::axiom_vec_decreases_to_view;
            assert(decreases_to!(entries => entries@));
            assert(decreases_to!(entries@ => entries@[i as int]));
            assert(decreases_to!(entries@[i as int] => entries@[i as int].1));
        }
        let val = deep_clone(&entries[i].1);
        out.push((key, val));
        i = i + 1;
    }
    proof {
        lemma_jv_entries_ext(out@, entries@);
    }
    out
}


/// Position of the first entry with a key.
pub fn obj_position(entries: &Vec<(String, JsonValue)>, key: &str) -> (r: Option<usize>)
    ensures
        match r {
            Some(i) => key_pos(ev(entries@), key@) == i as int && i < entries@.len(),
            None => key_pos(ev(entries@), key@) == -1,
        },
{
    proof {
        lemma_jv_entries(entries@);
        lemma_key_pos(ev(entries@), key@);
    }
    let mut i: usize = 0;
    while i < entries.len()
        invariant
            i <= entries.len(),
            ev(entries@).len() == entries@.len(),
            forall|j: int| 0 <= j < i ==> (#[trigger] ev(entries@)[j]).0 != key@,
            forall|j: int|
                0 <= j < entries@.len() ==> #[trigger] ev(entries@)[j] == (
                    entries@[j].0@,
                    jv(entries@[j].1),
                ),
        decreases entries.len() - i,
    {
        if str_eq(entries[i].0.as_str(), key) {
            proof {
                let e = ev(entries@);
                lemma_key_pos(e, key@);
                let p = key_pos(e, key@);
                if p != i {
                    if p < i && p >= 0 {
                        assert(e[p].0 != key@);
                    } else {
                        assert(e[i as int].0 == key@);
                    }
                }
            }
            return Some(i);
        }
        i = i + 1;
    }
    None
}

/// The value stored under a key.
pub fn obj_get<'a>(entries: &'a Vec<(String, JsonValue)>, key: &str) -> (r: Option<&'a JsonValue>)
    ensures
        match r {
            Some(x) => obj_get_v(ev(entries@), key@) == Some(jv(*x)),
            None => obj_get_v(ev(entries@), key@) is None,
        },
{
    proof {
        lemma_jv_entries(entries@);
    }
    match obj_position(entries, key) {
        Some(i) => Some(&entries[i].1),
        None => None,
    }
}

/// Whether an object has a key.
pub fn obj_has(entries: &Vec<(String, JsonValue)>, key: &str) -> (r: bool)
    ensures
        r == has_key(ev(entries@), key@),
{
    obj_position(entries, key).is_some()
}

/// `Map::insert`.
pub fn obj_insert(entries: &mut Vec<(String, JsonValue)>, key: String, value: JsonValue)
    ensures
        ev(final(entries)@) == obj_insert_v(ev(old(entries)@), key@, jv(value)),
{
    proof {
        lemma_jv_entries(entries@);
    }
    let ghost kv = key@;
    let ghost vv = jv(value);
    match obj_position(entries, key.as_str()) {
        Some(i) => {
            let ghost before = entries@;
            entries.set(i, (key, value));
            proof {
                lemma_jv_entries(entries@);
                assert(ev(entries@) =~= ev(before).update(i as int, (kv, vv)));
            }
        },
        None => {
            let ghost before = entries@;
            entries.push((key, value));
            proof {
                lemma_jv_entries(entries@);
                assert(ev(entries@) =~= ev(before).push((kv, vv)));
            }
        },
    }
}

/// `Map::remove`, giving back the removed value.
pub fn obj_remove(entries: &mut Vec<(String, JsonValue)>, key: &str) -> (r: Option<JsonValue>)
    ensures
        ev(final(entries)@) == obj_remove_v(ev(old(entries)@), key@),
        match r {
            Some(x) => obj_get_v(ev(old(entries)@), key@) == Some(jv(x)),
            None => obj_get_v(ev(old(entries)@), key@) is None,
        },
{
    proof {
        lemma_jv_entries(entries@);
    }
    match obj_position(entries, key) {
        Some(i) => {
            let ghost before = entries@;
            let (_k, v) = entries.remove(i);
            proof {
                lemma_jv_entries(entries@);
                assert(ev(entries@) =~= ev(before).remove(i as int));
            }
            Some(v)
        },
        None => None,
    }
}

impl JsonValue {
    pub fn is_null(&self) -> (r: bool)
        ensures
            r == (self@ is Null),
    {
        match self {
            JsonValue::Null => true,
            _ => false,
        }
    }

    pub fn as_str(&self) -> (r: Option<&String>)
        ensures
            match r {
                Some(s) => self@ == JsonV::Str(s@),
                None => !(self@ is Str),
            },
    {
        match self {
            JsonValue::String(s) => Some(s),
            _ => None,
        }
    }

    pub fn as_bool(&self) -> (r: Option<bool>)
        ensures
            match r {
                Some(b) => self@ == JsonV::Bool(b),
                None => !(self@ is Bool),
            },
    {
        match self {
            JsonValue::Bool(b) => Some(*b),
            _ => None,
        }
    }

    pub fn as_object(&self) -> (r: Option<&Vec<(String, JsonValue)>>)
        ensures
            match r {
                Some(e) => self@ == JsonV::Object(ev(e@)),
                None => !(self@ is Object),
            },
    {
        match self {
            JsonValue::Object(e) => Some(e),
            _ => None,
        }
    }

    pub fn as_array(&self) -> (r: Option<&Vec<JsonValue>>)
        ensures
            match r {
                Some(a) => self@ == JsonV::Array(jv_seq(a@)),
                None => !(self@ is Array),
            },
    {
        match self {
            JsonValue::Array(a) => Some(a),
            _ => None,
        }
    }

    /// `value.get(key)`: the field of an object, or nothing for other values.
    pub fn get(&self, key: &str) -> (r: Option<&JsonValue>)
        ensures
            match r {
                Some(x) => self@ matches JsonV::Object(e) && obj_get_v(e, key@) == Some(jv(*x)),
                None => !(self@ matches JsonV::Object(e) && has_key(e, key@)),
            },
    {
        match self {
            JsonValue::Object(e) => obj_get(e, key),
            _ => None,
        }
    }

    pub fn from_str(s: &str) -> (r: JsonValue)
        ensures
            r@ == JsonV::Str(s@),
    {
        JsonValue::String(String::from_str(s))
    }

    pub fn empty_object() -> (r: JsonValue)
        ensures
            r@ == JsonV::Object(Seq::empty()),
    {
        JsonValue::Object(Vec::new())
    }
}

/// `value.get(key)` in the model.
pub open spec fn get_v(v: JsonV, k: Seq<char>) -> Option<JsonV> {
    match v {
        JsonV::Object(e) => obj_get_v(e, k),
        _ => None,
    }
}


/// Equality of JSON values as `serde_json` compares them: arrays element by
/// element, objects as maps (same size, and every key of one bound to an
/// equal value in the other), scalars by value.
pub open spec fn json_eq(a: JsonV, b: JsonV) -> bool
    decreases a,
{
    match a {
        JsonV::Null => b is Null,
        JsonV::Bool(x) => b == JsonV::Bool(x),
        JsonV::Number(x) => b == JsonV::Number(x),
        JsonV::Str(x) => b == JsonV::Str(x),
        JsonV::Array(xs) => b matches JsonV::Array(ys) && xs.len() == ys.len()
            && forall|i: int| 0 <= i < xs.len() ==> json_eq(#[trigger] xs[i], ys[i]),
        JsonV::Object(ea) => b matches JsonV::Object(eb) && ea.len() == eb.len()
            && forall|i: int| 0 <= i < ea.len() ==>
                (obj_get_v(eb, #[trigger] ea[i].0) matches Some(v) && json_eq(ea[i].1, v)),
    }
}

/// `a == b` on JSON values.
pub fn json_equal(a: &JsonValue, b: &JsonValue) -> (r: bool)
    ensures
        r == json_eq(a@, b@),
    decreases a,
{
    match (a, b) {
        (JsonValue::Null, JsonValue::Null) => true,
        (JsonValue::Bool(x), JsonValue::Bool(y)) => *x == *y,
        (JsonValue::Number(x), JsonValue::Number(y)) => match (x, y) {
            (JsonNumber::PosInt(p), JsonNumber::PosInt(q)) => *p == *q,
            (JsonNumber::NegInt(p), JsonNumber::NegInt(q)) => *p == *q,
            (JsonNumber::Float(p), JsonNumber::Float(q)) => str_eq(p.as_str(), q.as_str()),
            _ => false,
        },
        (JsonValue::String(x), JsonValue::String(y)) => str_eq(x.as_str(), y.as_str()),
        (JsonValue::Array(xs), JsonValue::Array(ys)) => {
            proof {
                lemma_jv_seq(xs@);
                lemma_jv_seq(ys@);
            }
            if xs.len() != ys.len() {
                return false;
            }
            let mut i: usize = 0;
            while i < xs.len()
                invariant
                    i <= xs.len(),
                    xs.len() == ys.len(),
                    *a == JsonValue::Array(*xs),
                    a@ == JsonV::Array(jv_seq(xs@)),
                    b@ == JsonV::Array(jv_seq(ys@)),
                    jv_seq(xs@).len() == xs@.len(),
                    jv_seq(ys@).len() == ys@.len(),
                    forall|k: int| 0 <= k < xs@.len() ==> #[trigger] jv_seq(xs@)[k] == jv(xs@[k]),
                    forall|k: int| 0 <= k < ys@.len() ==> #[trigger] jv_seq(ys@)[k] == jv(ys@[k]),
                    forall|k: int| 0 <= k < i ==> json_eq(#[trigger] jv_seq(xs@)[k], jv_seq(ys@)[k]),
                decreases xs.len() - i,
            {
                proof {
                    broadcast use vstd::std_specs::vec::axiom_vec_decreases_to_view;
                    assert(decreases_to!(*a => (*a)->Array_0));
                    assert(decreases_to!(*xs => xs@));
                    assert(decreases_to!(xs@ => xs@[i as int]));
                }
                if !json_equal(&xs[i], &ys[i]) {
                    assert(!json_eq(jv_seq(xs@)[i as int], jv_seq(ys@)[i as int]));
                    return false;
                }
                i = i + 1;
            }
            true
        },
        (JsonValue::Object(ea), JsonValue::Object(eb)) => {
            proof {
                lemma_jv_entries(ea@);
                lemma_jv_entries(eb@);
            }
            if ea.len() != eb.len() {
                return false;
            }
            let mut i: usize = 0;
            while i < ea.len()
                invariant
                    i <= ea.len(),
                    ea.len() == eb.len(),
                    *a == JsonValue::Object(*ea),
                    a@ == JsonV::Object(ev(ea@)),
                    b@ == JsonV::Object(ev(eb@)),
                    ev(ea@).len() == ea@.len(),
                    ev(eb@).len() == eb@.len(),
                    forall|k: int| 0 <= k < ea@.len() ==> #[trigger] ev(ea@)[k] == (ea@[k].0@, jv(ea@[k].1)),
                    forall|k: int| 0 <= k < i ==>
                        (obj_get_v(ev(eb@), #[trigger] ev(ea@)[k].0) matches Some(v) && json_eq(ev(ea@)[k].1, v)),
                decreases ea.len() - i,
            {
                proof {
                    broadcast use vstd::std_specs::vec::axiom_vec_decreases_to_view;
                    assert(decreases_to!(*a => (*a)->Object_0));
                    assert(decreases_to!(*ea => ea@));
                    assert(decreases_to!(ea@ => ea@[i as int]));
                    assert(decreases_to!(ea@[i as int] => ea@[i as int].1));
                }
                let ghost e_i = ev(ea@)[i as int];
                match obj_get(eb, ea[i].0.as_str()) {
                    None => {
                        assert(!(obj_get_v(ev(eb@), e_i.0) matches Some(v) && json_eq(e_i.1, v)));
                        return false;
                    },
                    Some(v) => {
                        if !json_equal(&ea[i].1, v) {
                            assert(!(obj_get_v(ev(eb@), e_i.0) matches Some(v) && json_eq(e_i.1, v)));
                            return false;
                        }
                    },
                }
                i = i + 1;
            }
            true
        },
        _ => false,
    }
}

} // verus!
