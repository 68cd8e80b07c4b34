//! Ordered maps keyed by text, kept as lists of entries: in insertion order
//! (as `IndexMap` keeps them) or in key order (as `BTreeMap` keeps them).
use vstd::prelude::*;
use crate::text::str_eq;

verus! {

/// The keys of an entry list.
pub open spec fn keys_of<T>(e: Seq<(String, T)>) -> Seq<Seq<char>> {
    e.map_values(|x: (String, T)| x.0@)
}

pub proof fn lemma_keys_push<T>(e: Seq<(String, T)>, x: (String, T))
    ensures
        keys_of(e.push(x)) == keys_of(e).push(x.0@),
{
    assert(keys_of(e.push(x)) =~= keys_of(e).push(x.0@));
}

/// Position of the first occurrence of `k`, or -1.
pub open spec fn key_index(keys: Seq<Seq<char>>, k: Seq<char>) -> int
    decreases keys.len(),
{
    if keys.len() == 0 {
        -1
    } else if keys[0] == k {
        0
    } else {
        let p = key_index(keys.drop_first(), k);
        if p < 0 {
            -1
        } else {
            p + 1
        }
    }
}

pub proof fn lemma_key_index(keys: Seq<Seq<char>>, k: Seq<char>)
    ensures
        -1 <= key_index(keys, k) < keys.len(),
        key_index(keys, k) == -1 <==> !keys.contains(k),
        key_index(keys, k) >= 0 ==> keys[key_index(keys, k)] == k,
        forall|j: int| 0 <= j < key_index(keys, k) ==> #[trigger] keys[j] != k,
    decreases keys.len(),
{
    if keys.len() > 0 && keys[0] != k {
        let t = keys.drop_first();
        lemma_key_index(t, k);
        assert forall|j: int| 0 < j < keys.len() implies keys[j] == t[j - 1] by {}
        if key_index(t, k) == -1 {
            assert forall|j: int| 0 <= j < keys.len() implies #[trigger] keys[j] != k by {
                if j > 0 {
                    assert(keys[j] == t[j - 1]);
                }
            }
        } else {
            assert forall|j: int| 0 <= j < key_index(keys, k) implies #[trigger] keys[j] != k by {
                if j > 0 {
                    assert(keys[j] == t[j - 1]);
                }
            }
        }
        if keys.contains(k) {
            let j = choose|j: int| 0 <= j < keys.len() && keys[j] == k;
            assert(t[j - 1] == k);
        }
    }
    if keys.len() > 0 && keys[0] == k {
        assert(keys.contains(k));
    }
}

/// Keys that occur at most once each.
pub open spec fn unique(keys: Seq<Seq<char>>) -> bool {
    forall|i: int, j: int| 0 <= i < j < keys.len() ==> keys[i] != keys[j]
}

/// Position of the first entry with a key.
pub fn find_key<T>(e: &Vec<(String, T)>, key: &str) -> (r: Option<usize>)
    ensures
        match r {
            Some(i) => i < e@.len() && key_index(keys_of(e@), key@) == i as int,
            None => key_index(keys_of(e@), key@) == -1,
        },
{
    let ghost keys = keys_of(e@);
    proof {
        lemma_key_index(keys, key@);
    }
    let mut i: usize = 0;
    while i < e.len()
        invariant
            i <= e.len(),
            keys == keys_of(e@),
            keys.len() == e@.len(),
            forall|j: int| 0 <= j < i ==> #[trigger] keys[j] != key@,
        decreases e.len() - i,
    {
        assert(keys[i as int] == e@[i as int].0@);
        if str_eq(e[i].0.as_str(), key) {
            proof {
                assert(keys[i as int] == key@);
                assert(keys.contains(key@));
                lemma_key_index(keys, key@);
                let p = key_index(keys, key@);
                assert(p >= 0);
                if p < i {
                    assert(keys[p] != key@);
                } else if p > i {
                    assert(keys[i as int] != key@);
                }
            }
            return Some(i);
        }
        i = i + 1;
    }
    proof {
        lemma_key_index(keys, key@);
        if keys.contains(key@) {
            let j = choose|j: int| 0 <= j < keys.len() && keys[j] == key@;
            assert(keys[j] != key@);
        }
    }
    None
}

/// Whether an entry list has a key.
pub fn has_key<T>(e: &Vec<(String, T)>, key: &str) -> (r: bool)
    ensures
        r == keys_of(e@).contains(key@),
{
    proof {
        lemma_key_index(keys_of(e@), key@);
    }
    find_key(e, key).is_some()
}

// ---------------------------------------------------------------------------
// Key order
// ---------------------------------------------------------------------------

/// Lexicographic order of texts by code point, the order of `str`'s `Ord`.
pub open spec fn seq_lt(a: Seq<char>, b: Seq<char>) -> bool
    decreases a.len(),
{
    if a.len() == 0 {
        b.len() > 0
    } else if b.len() == 0 {
        false
    } else if a[0] != b[0] {
        (a[0] as int) < (b[0] as int)
    } else {
        seq_lt(a.drop_first(), b.drop_first())
    }
}

pub proof fn lemma_lt_irrefl(a: Seq<char>)
    ensures
        !seq_lt(a, a),
    decreases a.len(),
{
    if a.len() > 0 {
        lemma_lt_irrefl(a.drop_first());
    }
}

pub proof fn lemma_lt_trans(a: Seq<char>, b: Seq<char>, c: Seq<char>)
    requires
        seq_lt(a, b),
        seq_lt(b, c),
    ensures
        seq_lt(a, c),
    decreases a.len(),
{
    if a.len() > 0 && b.len() > 0 && c.len() > 0 {
        if a[0] == b[0] && b[0] == c[0] {
            lemma_lt_trans(a.drop_first(), b.drop_first(), c.drop_first());
        }
    }
}

pub proof fn lemma_lt_total(a: Seq<char>, b: Seq<char>)
    requires
        a != b,
    ensures
        seq_lt(a, b) || seq_lt(b, a),
    decreases a.len(),
{
    if a.len() > 0 && b.len() > 0 && a[0] == b[0] {
        if a.drop_first() == b.drop_first() {
            assert(a =~= seq![a[0]] + a.drop_first());
            assert(b =~= seq![b[0]] + b.drop_first());
        }
        lemma_lt_total(a.drop_first(), b.drop_first());
    } else if a.len() == 0 && b.len() == 0 {
        assert(a =~= b);
    } else if a.len() > 0 && b.len() > 0 {
        assert((a[0] as int) != (b[0] as int));
    }
}

pub proof fn lemma_lt_asym(a: Seq<char>, b: Seq<char>)
    requires
        seq_lt(a, b),
    ensures
        !seq_lt(b, a),
{
    if seq_lt(b, a) {
        lemma_lt_trans(a, b, a);
        lemma_lt_irrefl(a);
    }
}

/// `a < b` on texts.
pub fn str_lt(a: &str, b: &str) -> (r: bool)
    ensures
        r == seq_lt(a@, b@),
{
    let n = a.unicode_len();
    let m = b.unicode_len();
    let mut i: usize = 0;
    proof {
        assert(a@.skip(0) =~= a@);
        assert(b@.skip(0) =~= b@);
    }
    while i < n && i < m
        invariant
            n == a@.len(),
            m == b@.len(),
            i <= n,
            i <= m,
            seq_lt(a@, b@) == seq_lt(a@.skip(i as int), b@.skip(i as int)),
        decreases n - i,
    {
        let ca = a.get_char(i);
        let cb = b.get_char(i);
        if ca != cb {
            proof {
                assert(a@.skip(i as int)[0] == ca);
                assert(b@.skip(i as int)[0] == cb);
            }
            return (ca as u32) < (cb as u32);
        }
        proof {
            assert(a@.skip(i as int).drop_first() =~= a@.skip(i + 1));
            assert(b@.skip(i as int).drop_first() =~= b@.skip(i + 1));
        }
        i = i + 1;
    }
    proof {
        assert(a@.skip(i as int).len() == n - i);
        assert(b@.skip(i as int).len() == m - i);
    }
    i < m
}

/// Keys in strictly increasing order.
pub open spec fn sorted(keys: Seq<Seq<char>>) -> bool {
    forall|i: int, j: int| 0 <= i < j < keys.len() ==> seq_lt(keys[i], keys[j])
}

/// Entries with their keys as text.
pub open spec fn kv<T>(e: Seq<(String, T)>) -> Seq<(Seq<char>, T)> {
    e.map_values(|x: (String, T)| (x.0@, x.1))
}

/// Number of keys before the place of `k` in a sorted key list.
pub open spec fn sorted_pos(keys: Seq<Seq<char>>, k: Seq<char>) -> int
    decreases keys.len(),
{
    if keys.len() == 0 {
        0
    } else if seq_lt(keys[0], k) {
        1 + sorted_pos(keys.drop_first(), k)
    } else {
        0
    }
}

/// `BTreeMap::insert` on a sorted entry list: replaces the value of an
/// existing key, or puts the new entry where its key belongs.
pub open spec fn sorted_insert_v<T>(e: Seq<(Seq<char>, T)>, k: Seq<char>, v: T) -> Seq<(Seq<char>, T)> {
    let keys = e.map_values(|x: (Seq<char>, T)| x.0);
    let p = sorted_pos(keys, k);
    if p < e.len() && e[p].0 == k {
        e.update(p, (k, v))
    } else {
        e.insert(p, (k, v))
    }
}

pub proof fn lemma_sorted_pos(keys: Seq<Seq<char>>, k: Seq<char>, i: int)
    requires
        0 <= i <= keys.len(),
        forall|j: int| 0 <= j < i ==> seq_lt(#[trigger] keys[j], k),
        i == keys.len() || !seq_lt(keys[i], k),
    ensures
        sorted_pos(keys, k) == i,
    decreases i,
{
    if i > 0 {
        assert(seq_lt(keys[0], k));
        assert forall|j: int| 0 <= j < i - 1 implies seq_lt(#[trigger] keys.drop_first()[j], k) by {
            assert(keys.drop_first()[j] == keys[j + 1]);
        }
        if i < keys.len() {
            assert(keys.drop_first()[i - 1] == keys[i]);
        }
        lemma_sorted_pos(keys.drop_first(), k, i - 1);
    }
}

/// Insertion into a list sorted by key, keeping it sorted.
pub fn sorted_insert<T>(e: &mut Vec<(String, T)>, key: String, value: T)
    requires
        sorted(keys_of(old(e)@)),
    ensures
        sorted(keys_of(final(e)@)),
        kv(final(e)@) == sorted_insert_v(kv(old(e)@), key@, value),
{
    let ghost k = key@;
    let ghost old_e = e@;
    let ghost keys = keys_of(old_e);
    let mut i: usize = 0;
    while i < e.len() && str_lt(e[i].0.as_str(), key.as_str())
        invariant
            e@ == old_e,
            keys == keys_of(old_e),
            k == key@,
            i <= e.len(),
            forall|j: int| 0 <= j < i ==> seq_lt(#[trigger] keys[j], k),
        decreases e.len() - i,
    {
        assert(keys[i as int] == e@[i as int].0@);
        i = i + 1;
    }
    proof {
        let kk = kv(old_e).map_values(|x: (Seq<char>, T)| x.0);
        assert(kk =~= keys);
        if i < e.len() {
            assert(keys[i as int] == e@[i as int].0@);
        }
        lemma_sorted_pos(keys, k, i as int);
    }
    if i < e.len() && str_eq(e[i].0.as_str(), key.as_str()) {
        e.set(i, (key, value));
        proof {
            assert(kv(e@) =~= kv(old_e).update(i as int, (k, value)));
            assert(keys_of(e@) =~= keys);
        }
    } else {
        e.insert(i, (key, value));
        proof {
            assert(kv(e@) =~= kv(old_e).insert(i as int, (k, value)));
            let nk = keys_of(e@);
            assert(nk =~= keys.insert(i as int, k));
            if i < old_e.len() {
                assert(keys[i as int] == old_e[i as int].0@);
                lemma_lt_total(keys[i as int], k);
            }
            assert forall|a: int, b: int| 0 <= a < b < nk.len() implies seq_lt(nk[a], nk[b]) by {
                if b < i {
                } else if b == i {
                } else if a < i {
                    // keys[a] < k < keys[i] <= keys[b - 1]
                    if b - 1 > i {
                        lemma_lt_trans(k, keys[i as int], keys[b - 1]);
                    }
                    lemma_lt_trans(keys[a], k, keys[b - 1]);
                } else if a == i {
                    if b - 1 > i {
                        lemma_lt_trans(k, keys[i as int], keys[b - 1]);
                    }
                } else {
                }
            }
        }
    }
}


// ---------------------------------------------------------------------------
// Insertion-ordered maps
// ---------------------------------------------------------------------------

pub open spec fn kseq<V>(e: Seq<(Seq<char>, V)>) -> Seq<Seq<char>> {
    e.map_values(|x: (Seq<char>, V)| x.0)
}

/// `IndexMap::get`.
pub open spec fn aget<V>(e: Seq<(Seq<char>, V)>, k: Seq<char>) -> Option<V> {
    let p = key_index(kseq(e), k);
    if p >= 0 {
        Some(e[p].1)
    } else {
        None
    }
}

/// `IndexMap::insert`: an existing key keeps its place and takes the new
/// value; a new key goes last.
pub open spec fn ains<V>(e: Seq<(Seq<char>, V)>, k: Seq<char>, v: V) -> Seq<(Seq<char>, V)> {
    let p = key_index(kseq(e), k);
    if p >= 0 {
        e.update(p, (k, v))
    } else {
        e.push((k, v))
    }
}

/// Inserting keeps keys distinct.
pub proof fn lemma_ains_unique<V>(e: Seq<(Seq<char>, V)>, k: Seq<char>, v: V)
    requires
        unique(kseq(e)),
    ensures
        unique(kseq(ains(e, k, v))),
{
    let ks = kseq(e);
    lemma_key_index(ks, k);
    let p = key_index(ks, k);
    let r = ains(e, k, v);
    let kr = kseq(r);
    if p >= 0 {
        assert(kr =~= ks);
    } else {
        assert forall|i: int, j: int| 0 <= i < j < kr.len() implies kr[i] != kr[j] by {
            if j == kr.len() - 1 {
                assert(kr[j] == k);
                assert(kr[i] == ks[i]);
            } else {
                assert(kr[i] == ks[i] && kr[j] == ks[j]);
            }
        }
    }
}

pub proof fn lemma_kv_keys<T>(e: Seq<(String, T)>)
    ensures
        kseq(kv(e)) == keys_of(e),
{
    assert(kseq(kv(e)) =~= keys_of(e));
}

/// `IndexMap::insert` on an entry list.
pub fn insert_key<T>(e: &mut Vec<(String, T)>, key: String, value: T)
    ensures
        kv(final(e)@) == ains(kv(old(e)@), key@, value),
{
    proof {
        lemma_kv_keys(e@);
    }
    let ghost k = key@;
    let ghost before = e@;
    match find_key(e, key.as_str()) {
        Some(i) => {
            e.set(i, (key, value));
            proof {
                assert(kv(e@) =~= kv(before).update(i as int, (k, value)));
            }
        },
        None => {
            e.push((key, value));
            proof {
                assert(kv(e@) =~= kv(before).push((k, value)));
            }
        },
    }
}

/// `IndexMap::get` on an entry list.
pub fn get_key<'a, T>(e: &'a Vec<(String, T)>, key: &str) -> (r: Option<&'a T>)
    ensures
        match r {
            Some(x) => aget(kv(e@), key@) == Some(*x),
            None => aget(kv(e@), key@) is None,
        },
{
    proof {
        lemma_kv_keys(e@);
    }
    match find_key(e, key) {
        Some(i) => Some(&e[i].1),
        None => None,
    }
}


/// Values mapped entry by entry.
pub open spec fn map_vals<T, U>(e: Seq<(Seq<char>, T)>, f: spec_fn(T) -> U) -> Seq<(Seq<char>, U)> {
    e.map_values(|x: (Seq<char>, T)| (x.0, f(x.1)))
}

/// Sorted insertion does not depend on the values.
pub proof fn lemma_sorted_insert_map<T, U>(e: Seq<(Seq<char>, T)>, k: Seq<char>, v: T, f: spec_fn(T) -> U)
    ensures
        sorted_insert_v(map_vals(e, f), k, f(v)) == map_vals(sorted_insert_v(e, k, v), f),
{
    let me = map_vals(e, f);
    let ke = e.map_values(|x: (Seq<char>, T)| x.0);
    let kme = me.map_values(|x: (Seq<char>, U)| x.0);
    assert(ke =~= kme);
    let p = sorted_pos(ke, k);
    lemma_sorted_pos_props(ke, k);
    if p < e.len() {
        assert(me[p].0 == e[p].0);
    }
    if p < e.len() && e[p].0 == k {
        assert(map_vals(e.update(p, (k, v)), f) =~= me.update(p, (k, f(v))));
    } else {
        assert(map_vals(e.insert(p, (k, v)), f) =~= me.insert(p, (k, f(v))));
    }
}

/// `IndexMap::insert` does not depend on the values.
pub proof fn lemma_ains_map<T, U>(e: Seq<(Seq<char>, T)>, k: Seq<char>, v: T, f: spec_fn(T) -> U)
    ensures
        ains(map_vals(e, f), k, f(v)) == map_vals(ains(e, k, v), f),
{
    let me = map_vals(e, f);
    assert(kseq(e) =~= kseq(me));
    let p = key_index(kseq(e), k);
    if p >= 0 {
        lemma_key_index(kseq(e), k);
        assert(map_vals(e.update(p, (k, v)), f) =~= me.update(p, (k, f(v))));
    } else {
        assert(map_vals(e.push((k, v)), f) =~= me.push((k, f(v))));
    }
}

/// A sorted list stays sorted under sorted insertion (model level).
pub proof fn lemma_sorted_insert_keys<T>(e: Seq<(Seq<char>, T)>, k: Seq<char>, v: T)
    requires
        sorted(e.map_values(|x: (Seq<char>, T)| x.0)),
    ensures
        sorted(sorted_insert_v(e, k, v).map_values(|x: (Seq<char>, T)| x.0)),
{
    let keys = e.map_values(|x: (Seq<char>, T)| x.0);
    let p = sorted_pos(keys, k);
    lemma_sorted_pos_props(keys, k);
    let r = sorted_insert_v(e, k, v);
    let nk = r.map_values(|x: (Seq<char>, T)| x.0);
    if p < e.len() && e[p].0 == k {
        assert(nk =~= keys.update(p, k));
        assert(keys[p] == k);
        assert(nk =~= keys);
    } else {
        assert(nk =~= keys.insert(p, k));
        if p < e.len() {
            assert(keys[p] == e[p].0);
            lemma_lt_total(keys[p], k);
        }
        assert forall|a: int, b: int| 0 <= a < b < nk.len() implies seq_lt(nk[a], nk[b]) by {
            if b < p {
            } else if b == p {
            } else if a < p {
                if b - 1 > p {
                    lemma_lt_trans(k, keys[p], keys[b - 1]);
                }
                lemma_lt_trans(keys[a], k, keys[b - 1]);
            } else if a == p {
                if b - 1 > p {
                    lemma_lt_trans(k, keys[p], keys[b - 1]);
                }
            } else {
            }
        }
    }
}

pub proof fn lemma_sorted_pos_props(keys: Seq<Seq<char>>, k: Seq<char>)
    ensures
        0 <= sorted_pos(keys, k) <= keys.len(),
        forall|j: int| 0 <= j < sorted_pos(keys, k) ==> seq_lt(#[trigger] keys[j], k),
        sorted_pos(keys, k) < keys.len() ==> !seq_lt(keys[sorted_pos(keys, k)], k),
    decreases keys.len(),
{
    if keys.len() > 0 && seq_lt(keys[0], k) {
        let t = keys.drop_first();
        lemma_sorted_pos_props(t, k);
        assert forall|j: int| 0 <= j < sorted_pos(keys, k) implies seq_lt(#[trigger] keys[j], k) by {
            if j > 0 {
                assert(keys[j] == t[j - 1]);
            }
        }
        if sorted_pos(keys, k) < keys.len() {
            assert(keys[sorted_pos(keys, k)] == t[sorted_pos(t, k)]);
        }
    }
}

/// Inserting a key larger than all present keys appends it.
pub proof fn lemma_sorted_insert_last<T>(e: Seq<(Seq<char>, T)>, k: Seq<char>, v: T)
    requires
        forall|j: int| 0 <= j < e.len() ==> seq_lt(#[trigger] e[j].0, k),
    ensures
        sorted_insert_v(e, k, v) == e.push((k, v)),
{
    let keys = e.map_values(|x: (Seq<char>, T)| x.0);
    assert forall|j: int| 0 <= j < keys.len() implies seq_lt(#[trigger] keys[j], k) by {
        assert(keys[j] == e[j].0);
    }
    lemma_sorted_pos(keys, k, keys.len() as int);
    assert(e.insert(e.len() as int, (k, v)) =~= e.push((k, v)));
}


/// Lookup does not depend on the values.
pub proof fn lemma_aget_map<T, U>(e: Seq<(Seq<char>, T)>, k: Seq<char>, f: spec_fn(T) -> U)
    ensures
        aget(map_vals(e, f), k) == match aget(e, k) {
            Some(v) => Some(f(v)),
            None => None,
        },
{
    assert(kseq(e) =~= kseq(map_vals(e, f)));
    lemma_key_index(kseq(e), k);
}


/// The first position of a key is where it first occurs.
pub proof fn lemma_key_index_at(keys: Seq<Seq<char>>, k: Seq<char>, i: int)
    requires
        0 <= i < keys.len(),
        keys[i] == k,
        forall|j: int| 0 <= j < i ==> keys[j] != k,
    ensures
        key_index(keys, k) == i,
{
    lemma_key_index(keys, k);
    assert(keys.contains(k));
}

/// Looking a key up after an insertion.
pub proof fn lemma_ains_aget<V>(e: Seq<(Seq<char>, V)>, k: Seq<char>, v: V, k2: Seq<char>)
    ensures
        aget(ains(e, k, v), k2) == (if k2 == k { Some(v) } else { aget(e, k2) }),
        kseq(ains(e, k, v)) == (if kseq(e).contains(k) { kseq(e) } else { kseq(e).push(k) }),
{
    let ks = kseq(e);
    lemma_key_index(ks, k);
    lemma_key_index(ks, k2);
    let p = key_index(ks, k);
    if p >= 0 {
        let e2 = e.update(p, (k, v));
        assert(kseq(e2) =~= ks);
    } else {
        let e2 = e.push((k, v));
        let ks2 = kseq(e2);
        assert(ks2 =~= ks.push(k));
        lemma_key_index(ks2, k2);
        if k2 == k {
            assert forall|j: int| 0 <= j < ks.len() implies ks2[j] != k by {
                assert(ks2[j] == ks[j]);
                if ks[j] == k {
                    assert(ks.contains(k));
                }
            }
            lemma_key_index_at(ks2, k, ks.len() as int);
        } else {
            let q = key_index(ks, k2);
            if q >= 0 {
                assert forall|j: int| 0 <= j < q implies ks2[j] != k2 by {
                    assert(ks2[j] == ks[j]);
                }
                lemma_key_index_at(ks2, k2, q);
            } else {
                if ks2.contains(k2) {
                    let j = choose|j: int| 0 <= j < ks2.len() && ks2[j] == k2;
                    if j < ks.len() {
                        assert(ks[j] == k2);
                        assert(ks.contains(k2));
                    }
                }
            }
        }
    }
}

} // verus!
