//! Identifiers for inserted steps.
use vstd::prelude::*;
use crate::model::strs_v;
use crate::text::{
    is_ascii_alnum, is_ascii_alpha, char_is_ascii_alnum, char_is_ascii_alpha, chars_of, push_char,
    trim, trim_seq, str_eq, dec, digit_char, u64_to_dec,
};

verus! {

/// The character kept in a slug: ASCII letters, digits, `_` and `-` stay,
/// anything else becomes `_`.
pub open spec fn slug_char(c: char) -> char {
    if is_ascii_alnum(c) || c == '_' || c == '-' {
        c
    } else {
        '_'
    }
}

/// A slug of a text: its characters mapped by `slug_char`, with `_` in front
/// when it would not start with a letter or `_`; `_` for an empty text.
pub open spec fn slugify_v(s: Seq<char>) -> Seq<char> {
    if s.len() == 0 {
        seq!['_']
    } else {
        let body = s.map_values(|c: char| slug_char(c));
        if is_ascii_alpha(body[0]) || body[0] == '_' {
            body
        } else {
            seq!['_'] + body
        }
    }
}

pub fn slugify(raw: &str) -> (out: String)
    ensures
        out@ == slugify_v(raw@),
        out@.len() > 0,
{
    let chars = chars_of(raw);
    let mut out = String::new();
    let mut idx: usize = 0;
    while idx < chars.len()
        invariant
            idx <= chars.len(),
            chars@ == raw@,
            idx == 0 ==> out@.len() == 0,
            idx > 0 ==> out@ == slugify_v(raw@.subrange(0, idx as int)),
        decreases chars.len() - idx,
    {
        let ch = chars[idx];
        let safe = if char_is_ascii_alnum(ch) || ch == '_' || ch == '-' {
            ch
        } else {
            '_'
        };
        let ghost before = out@;
        if idx == 0 && !(char_is_ascii_alpha(safe) || safe == '_') {
            push_char(&mut out, '_');
        }
        push_char(&mut out, safe);
        proof {
            let cur = raw@.subrange(0, idx + 1);
            let body = cur.map_values(|c: char| slug_char(c));
            if idx > 0 {
                let pre = raw@.subrange(0, idx as int);
                let pbody = pre.map_values(|c: char| slug_char(c));
                assert(body =~= pbody.push(safe));
                assert(body[0] == pbody[0]);
            } else {
                assert(body =~= seq![safe]);
            }
        }
        idx = idx + 1;
    }
    if out.as_str().unicode_len() == 0 {
        proof {
            assert(raw@.len() == 0);
        }
        let mut u = String::new();
        push_char(&mut u, '_');
        return u;
    }
    proof {
        assert(raw@.subrange(0, chars.len() as int) =~= raw@);
    }
    out
}

/// Hints that stand for "no name chosen yet".
pub open spec fn is_placeholder_v(hint: Seq<char>) -> bool {
    let t = trim_seq(hint);
    ||| t.len() == 0
    ||| t == "STEP"@
    ||| t == "NODE"@
    ||| t == "COMPONENT_STEP"@
    ||| t == "INSERT_NODE"@
    ||| t == "NEW_NODE"@
}

pub fn is_placeholder_value(hint: &str) -> (r: bool)
    ensures
        r == is_placeholder_v(hint@),
{
    let trimmed = trim(hint);
    let t = trimmed.as_str();
    t.unicode_len() == 0 || str_eq(t, "STEP") || str_eq(t, "NODE") || str_eq(t, "COMPONENT_STEP")
        || str_eq(t, "INSERT_NODE") || str_eq(t, "NEW_NODE")
}

pub open spec fn opt_placeholder_v(hint: Option<Seq<char>>) -> bool {
    match hint {
        None => true,
        Some(h) => is_placeholder_v(h),
    }
}

fn is_placeholder(hint: Option<&str>) -> (r: bool)
    ensures
        r == opt_placeholder_v(
            match hint {
                Some(h) => Some(h@),
                None => None,
            },
        ),
{
    match hint {
        None => true,
        Some(h) => is_placeholder_value(h),
    }
}

/// The preferred identifier: the slug of a real hint, otherwise the slug of
/// the component, `__after__` and the slug of the anchor.
pub open spec fn base_id_v(hint: Option<Seq<char>>, component_id: Seq<char>, anchor: Seq<char>) -> Seq<char> {
    if !opt_placeholder_v(hint) {
        slugify_v(hint->0)
    } else {
        slugify_v(component_id) + "__after__"@ + slugify_v(anchor)
    }
}

/// The `n`-th alternative to a taken identifier.
pub open spec fn numbered_id_v(base: Seq<char>, n: nat) -> Seq<char> {
    base + "__"@ + dec(n)
}

proof fn lemma_dec_len(n: nat)
    ensures
        dec(n).len() >= 1,
        n >= 10 ==> dec(n).len() >= 2,
    decreases n,
{
    if n >= 10 {
        lemma_dec_len(n / 10);
    }
}

/// Different numbers have different decimal texts.
pub proof fn lemma_dec_injective(a: nat, b: nat)
    requires
        dec(a) == dec(b),
    ensures
        a == b,
    decreases a,
{
    lemma_dec_len(a);
    lemma_dec_len(b);
    if a < 10 && b < 10 {
        assert(dec(a)[0] == dec(b)[0]);
        assert(dec(a)[0] == digit_char(a));
        assert(dec(b)[0] == digit_char(b));
        assert(digit_char(a) as int == a + 48);
        assert(digit_char(b) as int == b + 48);
    } else if a >= 10 && b >= 10 {
        assert(dec(a).last() == dec(b).last());
        assert(dec(a).last() == digit_char(a % 10));
        assert(dec(b).last() == digit_char(b % 10));
        assert(digit_char(a % 10) as int == a % 10 + 48);
        assert(digit_char(b % 10) as int == b % 10 + 48);
        assert(dec(a).drop_last() =~= dec(a / 10));
        assert(dec(b).drop_last() =~= dec(b / 10));
        lemma_dec_injective(a / 10, b / 10);
        assert(a == 10 * (a / 10) + a % 10) by (nonlinear_arith);
        assert(b == 10 * (b / 10) + b % 10) by (nonlinear_arith);
    } else {
        assert(dec(a).len() != dec(b).len());
    }
}

proof fn lemma_numbered_injective(base: Seq<char>, a: nat, b: nat)
    requires
        numbered_id_v(base, a) == numbered_id_v(base, b),
    ensures
        a == b,
{
    let pa = base + "__"@;
    let x = numbered_id_v(base, a);
    assert(x.skip(pa.len() as int) =~= dec(a));
    assert(numbered_id_v(base, b).skip(pa.len() as int) =~= dec(b));
    lemma_dec_injective(a, b);
}

/// Among `n + 1` different texts, at least one is not in a list of `n`.
proof fn lemma_pigeonhole(existing: Seq<Seq<char>>, base: Seq<char>)
    ensures
        exists|k: nat| 2 <= k <= existing.len() + 2 && !existing.contains(#[trigger] numbered_id_v(base, k)),
{
    let n = existing.len();
    if forall|k: nat| 2 <= k <= n + 2 ==> existing.contains(#[trigger] numbered_id_v(base, k)) {
        let pos = |k: int| existing.index_of(numbered_id_v(base, k as nat));
        let dom = vstd::set_lib::set_int_range(2, n as int + 3);
        let s = vstd::set_lib::set_int_range(0, n as int);
        vstd::set_lib::lemma_int_range(2, n as int + 3);
        vstd::set_lib::lemma_int_range(0, n as int);
        assert forall|k: int| dom.contains(k) implies 0 <= #[trigger] pos(k) < n && existing[pos(k)]
            == numbered_id_v(base, k as nat) by {
            assert(existing.contains(numbered_id_v(base, k as nat)));
        }
        assert forall|a: int, b: int|
            dom.contains(a) && dom.contains(b) && #[trigger] pos(a) == #[trigger] pos(b) implies a == b by {
            assert(existing[pos(a)] == numbered_id_v(base, a as nat));
            assert(existing[pos(b)] == numbered_id_v(base, b as nat));
            lemma_numbered_injective(base, a as nat, b as nat);
        }
        let img = dom.map(pos);
        vstd::set_lib::lemma_map_size(dom, img, pos);
        assert forall|i: int| img.contains(i) implies s.contains(i) by {
            let k = choose|k: int| dom.contains(k) && pos(k) == i;
        }
        vstd::set_lib::lemma_len_subset(img, s);
        assert(false);
    }
}

/// `r` is the preferred identifier when that is free, and otherwise the
/// first numbered alternative that is free.
pub open spec fn chosen_id_v(ex: Seq<Seq<char>>, base: Seq<char>, r: Seq<char>) -> bool {
    ||| (r == base && !ex.contains(base))
    ||| (ex.contains(base) && exists|n: nat|
        2 <= n && r == numbered_id_v(base, n) && forall|m: nat|
            2 <= m < n ==> ex.contains(#[trigger] numbered_id_v(base, m)))
}

/// The first free numbered alternative.
pub open spec fn first_free_v(ex: Seq<Seq<char>>, base: Seq<char>) -> nat {
    choose|n: nat|
        2 <= n && !ex.contains(numbered_id_v(base, n)) && forall|m: nat|
            2 <= m < n ==> ex.contains(#[trigger] numbered_id_v(base, m))
}

/// The identifier chosen for a new node.
pub open spec fn gen_id_v(ex: Seq<Seq<char>>, base: Seq<char>) -> Seq<char> {
    if !ex.contains(base) {
        base
    } else {
        numbered_id_v(base, first_free_v(ex, base))
    }
}

pub proof fn lemma_chosen_is_gen(ex: Seq<Seq<char>>, base: Seq<char>, r: Seq<char>)
    requires
        chosen_id_v(ex, base, r),
        !ex.contains(r),
    ensures
        r == gen_id_v(ex, base),
{
    if ex.contains(base) {
        let n = choose|n: nat|
            2 <= n && r == numbered_id_v(base, n) && forall|m: nat|
                2 <= m < n ==> ex.contains(#[trigger] numbered_id_v(base, m));
        assert(2 <= n && !ex.contains(numbered_id_v(base, n)) && forall|m: nat|
            2 <= m < n ==> ex.contains(#[trigger] numbered_id_v(base, m)));
        let f = first_free_v(ex, base);
        if f < n {
            assert(ex.contains(numbered_id_v(base, f)));
        } else if n < f {
            assert(ex.contains(numbered_id_v(base, n)));
        }
    }
}

/// Identifier for a new node: the preferred identifier when it is free,
/// otherwise the first of `base__2`, `base__3`, ... that is free.
pub fn generate_node_id(
    hint: Option<&str>,
    component_id: &str,
    operation: Option<&str>,
    pack_alias: Option<&str>,
    anchor: &str,
    existing: &Vec<String>,
) -> (r: String)
    requires
        existing@.len() + 3 <= u64::MAX,
    ensures
        !strs_v(existing@).contains(r@),
        r@ == gen_id_v(
            strs_v(existing@),
            base_id_v(
                match hint {
                    Some(h) => Some(h@),
                    None => None,
                },
                component_id@,
                anchor@,
            ),
        ),
        chosen_id_v(
            strs_v(existing@),
            base_id_v(
                match hint {
                    Some(h) => Some(h@),
                    None => None,
                },
                component_id@,
                anchor@,
            ),
            r@,
        ),
{
    let ghost ex = strs_v(existing@);
    let ghost hv = match hint {
        Some(h) => Some(h@),
        None => None,
    };
    let ghost bv = base_id_v(hv, component_id@, anchor@);
    let base = if !is_placeholder(hint) {
        slugify(hint.unwrap())
    } else {
        let mut b = slugify(component_id);
        b.append("__after__");
        b.append(slugify(anchor).as_str());
        b
    };
    assert(base@ == bv);
    if !contains_text(existing, base.as_str()) {
        proof {
            lemma_chosen_is_gen(ex, bv, base@);
        }
        return base;
    }
    proof {
        lemma_pigeonhole(ex, base@);
    }
    let limit: u64 = (existing.len() as u64) + 2;
    let mut idx: u64 = 2;
    loop
        invariant
            2 <= idx <= limit + 1,
            limit == ex.len() + 2,
            ex == strs_v(existing@),
            ex.contains(base@),
            base@ == bv,
            bv == base_id_v(
                match hint {
                    Some(h) => Some(h@),
                    None => None,
                },
                component_id@,
                anchor@,
            ),
            forall|m: nat| 2 <= m < idx ==> ex.contains(#[trigger] numbered_id_v(base@, m)),
            exists|k: nat| 2 <= k <= ex.len() + 2 && !ex.contains(#[trigger] numbered_id_v(base@, k)),
        decreases limit + 1 - idx,
    {
        let mut candidate = String::new();
        candidate.append(base.as_str());
        candidate.append("__");
        candidate.append(u64_to_dec(idx).as_str());
        if !contains_text(existing, candidate.as_str()) {
            assert(candidate@ =~= numbered_id_v(base@, idx as nat));
            proof {
                let n = idx as nat;
                assert(2 <= n && candidate@ == numbered_id_v(bv, n) && forall|m: nat|
                    2 <= m < n ==> ex.contains(#[trigger] numbered_id_v(bv, m)));
                assert(chosen_id_v(ex, bv, candidate@));
                lemma_chosen_is_gen(ex, bv, candidate@);
            }
            return candidate;
        }
        assert(candidate@ =~= numbered_id_v(base@, idx as nat));
        proof {
            if idx == limit {
                let k = choose|k: nat| 2 <= k <= ex.len() + 2 && !ex.contains(#[trigger] numbered_id_v(base@, k));
                assert(k < idx || k == idx);
                if k < idx {
                    assert(ex.contains(numbered_id_v(base@, k)));
                }
                assert(false);
            }
        }
        idx = idx + 1;
    }
}

/// Whether a list of texts contains one.
pub fn contains_text(v: &Vec<String>, s: &str) -> (r: bool)
    ensures
        r == strs_v(v@).contains(s@),
{
    let ghost m = strs_v(v@);
    let mut i: usize = 0;
    while i < v.len()
        invariant
            i <= v.len(),
            m == strs_v(v@),
            forall|k: int| 0 <= k < i ==> m[k] != s@,
        decreases v.len() - i,
    {
        if str_eq(v[i].as_str(), s) {
            assert(m[i as int] == s@);
            return true;
        }
        i = i + 1;
    }
    false
}

} // verus!
