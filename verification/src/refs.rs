//! Component references (`oci://`, `repo://`, `store://`, `file://`) and the
//! names derived from them, capability groups, and the small texts the
//! command line shows.
use vstd::prelude::*;
use crate::assoc::{kv, kseq, keys_of, sorted, sorted_insert, sorted_insert_v, lemma_kv_keys};
use crate::error::{opt_str, opt_ref};
use crate::model::strs_v;
use crate::text::{
    chars_of, string_of, string_of_range, push_char, concat, concat3, str_eq, str_starts_with, starts_with, trim, trim_seq,
    split_once, split_once_v, strip_prefix, str_contains_char, lower_seq, char_to_ascii_lower, replace_char, replace_char_v,
};

verus! {

// ---------------------------------------------------------------------------
// Text helpers for references
// ---------------------------------------------------------------------------

/// `str::trim_start_matches`: `p` removed from the front as often as it
/// occurs there.
pub open spec fn strip_all_v(s: Seq<char>, p: Seq<char>) -> Seq<char>
    decreases s.len(),
{
    if p.len() > 0 && starts_with(s, p) {
        strip_all_v(s.skip(p.len() as int), p)
    } else {
        s
    }
}

pub fn trim_start_matches(s: &str, p: &str) -> (r: String)
    ensures
        r@ == strip_all_v(s@, p@),
{
    let mut cur = String::from_str(s);
    if p.unicode_len() == 0 {
        return cur;
    }
    loop
        invariant
            strip_all_v(s@, p@) == strip_all_v(cur@, p@),
            p@.len() > 0,
        decreases cur@.len(),
    {
        match strip_prefix(cur.as_str(), p) {
            Some(rest) => {
                cur = rest;
            },
            None => {
                return cur;
            },
        }
    }
}

/// Position of the first character of `s` that is in `set`, or -1.
pub open spec fn pos_any(s: Seq<char>, set: Seq<char>) -> int
    decreases s.len(),
{
    if s.len() == 0 {
        -1
    } else if set.contains(s[0]) {
        0
    } else {
        let p = pos_any(s.drop_first(), set);
        if p < 0 {
            -1
        } else {
            p + 1
        }
    }
}

proof fn lemma_pos_any(s: Seq<char>, set: Seq<char>)
    ensures
        -1 <= pos_any(s, set) < s.len(),
        pos_any(s, set) >= 0 ==> set.contains(s[pos_any(s, set)]),
        forall|j: int| 0 <= j < s.len() && (pos_any(s, set) < 0 || j < pos_any(s, set)) ==> !set.contains(#[trigger] s[j]),
    decreases s.len(),
{
    if s.len() > 0 && !set.contains(s[0]) {
        let t = s.drop_first();
        lemma_pos_any(t, set);
        assert forall|j: int| 0 < j < s.len() implies s[j] == t[j - 1] by {}
    }
}

/// The text before the first character in `set`, or all of it
/// (`s.split(set).next()`).
pub open spec fn before_any(s: Seq<char>, set: Seq<char>) -> Seq<char> {
    let p = pos_any(s, set);
    if p < 0 {
        s
    } else {
        s.subrange(0, p)
    }
}

pub fn text_before_any(s: &str, set: &Vec<char>) -> (r: String)
    ensures
        r@ == before_any(s@, set@),
{
    proof {
        lemma_pos_any(s@, set@);
    }
    let v = chars_of(s);
    let mut i: usize = 0;
    while i < v.len()
        invariant
            i <= v.len(),
            v@ == s@,
            forall|j: int| 0 <= j < i ==> !set@.contains(#[trigger] v@[j]),
        decreases v.len() - i,
    {
        let c = v[i];
        let mut k: usize = 0;
        let mut found = false;
        while k < set.len()
            invariant
                k <= set.len(),
                found == exists|q: int| 0 <= q < k && set@[q] == c,
            decreases set.len() - k,
        {
            if set[k] == c {
                found = true;
            }
            k = k + 1;
        }
        if found {
            proof {
                lemma_pos_any(s@, set@);
                let q = choose|q: int| 0 <= q < set.len() && set@[q] == c;
                assert(set@.contains(c));
                let p = pos_any(s@, set@);
                if p < 0 || p > i {
                    assert(!set@.contains(v@[i as int]));
                }
                if 0 <= p < i {
                    assert(set@.contains(s@[p]));
                }
            }
            return string_of_range(&v, 0, i);
        }
        proof {
            if set@.contains(c) {
                let q = choose|q: int| 0 <= q < set@.len() && set@[q] == c;
                assert(exists|q: int| 0 <= q < set.len() && set@[q] == c);
            }
        }
        i = i + 1;
    }
    proof {
        lemma_pos_any(s@, set@);
        let p = pos_any(s@, set@);
        if p >= 0 {
            assert(set@.contains(s@[p]));
        }
    }
    String::from_str(s)
}

/// The text after the last character in `set`, or all of it
/// (`s.rsplit(set).next()`).
pub open spec fn after_last_any(s: Seq<char>, set: Seq<char>) -> Seq<char>
    decreases s.len(),
{
    if s.len() == 0 {
        s
    } else if set.contains(s.last()) {
        Seq::empty()
    } else {
        after_last_any(s.drop_last(), set).push(s.last())
    }
}

pub fn text_after_last_any(s: &str, set: &Vec<char>) -> (r: String)
    ensures
        r@ == after_last_any(s@, set@),
{
    let v = chars_of(s);
    let mut out = String::new();
    let mut i: usize = 0;
    proof {
        assert(v@.subrange(0, 0) =~= Seq::<char>::empty());
    }
    while i < v.len()
        invariant
            i <= v.len(),
            v@ == s@,
            out@ == after_last_any(v@.subrange(0, i as int), set@),
        decreases v.len() - i,
    {
        let ghost cur = v@.subrange(0, i + 1);
        proof {
            assert(cur.drop_last() =~= v@.subrange(0, i as int));
            assert(cur.last() == v@[i as int]);
        }
        let c = v[i];
        let mut k: usize = 0;
        let mut found = false;
        while k < set.len()
            invariant
                k <= set.len(),
                found == exists|q: int| 0 <= q < k && set@[q] == c,
            decreases set.len() - k,
        {
            if set[k] == c {
                found = true;
            }
            k = k + 1;
        }
        proof {
            if set@.contains(c) {
                let q = choose|q: int| 0 <= q < set@.len() && set@[q] == c;
                assert(exists|q: int| 0 <= q < set.len() && set@[q] == c);
            }
            if found {
                let q = choose|q: int| 0 <= q < set.len() && set@[q] == c;
                assert(set@.contains(c));
            }
        }
        if found {
            out = String::new();
        } else {
            push_char(&mut out, c);
        }
        i = i + 1;
    }
    proof {
        assert(v@.subrange(0, v.len() as int) =~= s@);
    }
    out
}

/// Every character in `set` replaced by `to`.
pub open spec fn replace_any_v(s: Seq<char>, set: Seq<char>, to: char) -> Seq<char> {
    s.map_values(|c: char| if set.contains(c) { to } else { c })
}

pub fn replace_any(s: &str, set: &Vec<char>, to: char) -> (r: String)
    ensures
        r@ == replace_any_v(s@, set@, to),
{
    let v = chars_of(s);
    let mut out = String::new();
    let mut i: usize = 0;
    while i < v.len()
        invariant
            i <= v.len(),
            v@ == s@,
            out@ == replace_any_v(s@.subrange(0, i as int), set@, to),
        decreases v.len() - i,
    {
        let c = v[i];
        let mut k: usize = 0;
        let mut found = false;
        while k < set.len()
            invariant
                k <= set.len(),
                found == exists|q: int| 0 <= q < k && set@[q] == c,
            decreases set.len() - k,
        {
            if set[k] == c {
                found = true;
            }
            k = k + 1;
        }
        proof {
            if set@.contains(c) {
                let q = choose|q: int| 0 <= q < set@.len() && set@[q] == c;
                assert(exists|q: int| 0 <= q < set.len() && set@[q] == c);
            }
            if found {
                let q = choose|q: int| 0 <= q < set.len() && set@[q] == c;
                assert(set@.contains(c));
            }
        }
        push_char(&mut out, if found { to } else { c });
        proof {
            assert(replace_any_v(s@.subrange(0, i + 1), set@, to) =~= replace_any_v(s@.subrange(0, i as int), set@, to).push(
                if set@.contains(c) { to } else { c },
            ));
        }
        i = i + 1;
    }
    proof {
        assert(s@.subrange(0, v.len() as int) =~= s@);
    }
    out
}

// ---------------------------------------------------------------------------
// References
// ---------------------------------------------------------------------------

pub open spec fn strip_schemes_v(r: Seq<char>) -> Seq<char> {
    strip_all_v(strip_all_v(strip_all_v(r, "oci://"@), "repo://"@), "store://"@)
}

/// A file-name-like key for a reference: its schemes removed and `/`, `:`
/// and `@` turned into `_`.
pub open spec fn fixture_key_v(r: Seq<char>) -> Seq<char> {
    replace_any_v(strip_all_v(strip_schemes_v(r), "file://"@), seq!['/', ':', '@'], '_')
}

pub fn fixture_key(reference: &str) -> (r: String)
    ensures
        r@ == fixture_key_v(reference@),
{
    let a = trim_start_matches(reference, "oci://");
    let b = trim_start_matches(a.as_str(), "repo://");
    let c = trim_start_matches(b.as_str(), "store://");
    let d = trim_start_matches(c.as_str(), "file://");
    let mut set: Vec<char> = Vec::new();
    set.push('/');
    set.push(':');
    set.push('@');
    assert(set@ =~= seq!['/', ':', '@']);
    replace_any(d.as_str(), &set, '_')
}

/// The reference without its scheme (the first of `oci://`, `repo://`,
/// `store://`, `file://` that it starts with), or as it is.
pub open spec fn strip_scheme_v(r: Seq<char>) -> Seq<char> {
    if starts_with(r, "oci://"@) {
        r.skip(6)
    } else if starts_with(r, "repo://"@) {
        r.skip(7)
    } else if starts_with(r, "store://"@) {
        r.skip(8)
    } else if starts_with(r, "file://"@) {
        r.skip(7)
    } else {
        r
    }
}

pub fn strip_reference_scheme(reference: &str) -> (r: String)
    ensures
        r@ == strip_scheme_v(reference@),
{
    proof {
        reveal_strlit("oci://");
        reveal_strlit("repo://");
        reveal_strlit("store://");
        reveal_strlit("file://");
    }
    if let Some(rest) = strip_prefix(reference, "oci://") {
        return rest;
    }
    if let Some(rest) = strip_prefix(reference, "repo://") {
        return rest;
    }
    if let Some(rest) = strip_prefix(reference, "store://") {
        return rest;
    }
    if let Some(rest) = strip_prefix(reference, "file://") {
        return rest;
    }
    String::from_str(reference)
}

/// What is wrong with an `oci://` reference, if anything: it needs a public
/// registry host (with a dot, not `localhost`, `127.*` or `0.*`) and a
/// repository.
pub open spec fn oci_problem(r: Seq<char>) -> Option<Seq<char>> {
    let rest = trim_seq(if starts_with(r, "oci://"@) { r.skip(6) } else { Seq::empty() });
    if rest.len() == 0 {
        Some("oci:// references must include a registry host and repository"@)
    } else {
        let (h, p) = match split_once_v(rest, '/') {
            Some((a, b)) => (a, b),
            None => (rest, Seq::empty()),
        };
        let host = trim_seq(h);
        let repo = trim_seq(p);
        if host.len() == 0 || repo.len() == 0 {
            Some("oci:// references must be in the form oci://<host>/<repo>"@)
        } else if host == "localhost"@ || starts_with(host, "localhost:"@) || starts_with(host, "127."@) || starts_with(
            host,
            "0."@,
        ) {
            Some("oci:// references must use a public registry host"@)
        } else if !host.contains('.') {
            Some("oci:// references must include a public registry host"@)
        } else {
            None
        }
    }
}

pub fn validate_oci_reference(reference: &str) -> (r: Result<(), String>)
    ensures
        match r {
            Ok(()) => oci_problem(reference@) is None,
            Err(m) => oci_problem(reference@) == Some(m@),
        },
{
    proof {
        reveal_strlit("oci://");
    }
    let raw = match strip_prefix(reference, "oci://") {
        Some(rest) => rest,
        None => String::new(),
    };
    let rest = trim(raw.as_str());
    if rest.unicode_len() == 0 {
        return Err(String::from_str("oci:// references must include a registry host and repository"));
    }
    let (h, p) = match split_once(rest.as_str(), '/') {
        Some((a, b)) => (a, b),
        None => (rest.clone(), String::new()),
    };
    let host = trim(h.as_str());
    let repo = trim(p.as_str());
    proof {
        assert(trim_seq(Seq::<char>::empty()) =~= Seq::<char>::empty()) by {
            crate::text::lemma_trim_empty();
        }
    }
    if host.unicode_len() == 0 || repo.unicode_len() == 0 {
        return Err(String::from_str("oci:// references must be in the form oci://<host>/<repo>"));
    }
    if str_eq(host.as_str(), "localhost") || str_starts_with(host.as_str(), "localhost:") || str_starts_with(
        host.as_str(),
        "127.",
    ) || str_starts_with(host.as_str(), "0.") {
        return Err(String::from_str("oci:// references must use a public registry host"));
    }
    if !str_contains_char(host.as_str(), '.') {
        return Err(String::from_str("oci:// references must include a public registry host"));
    }
    Ok(())
}

/// What is wrong with a component reference, if anything.
pub open spec fn component_ref_problem(r: Seq<char>) -> Option<Seq<char>> {
    if starts_with(r, "oci://"@) {
        oci_problem(r)
    } else if starts_with(r, "repo://"@) || starts_with(r, "store://"@) {
        let rest = trim_seq(
            match crate::text::find_sub_split_v(r, "://"@) {
                Some(tail) => tail,
                None => Seq::empty(),
            },
        );
        if rest.len() == 0 {
            Some("--component must include a reference after the scheme"@)
        } else {
            None
        }
    } else {
        Some("--component must start with oci://, repo://, or store://"@)
    }
}

pub fn validate_component_ref(reference: &str) -> (r: Result<(), String>)
    ensures
        match r {
            Ok(()) => component_ref_problem(reference@) is None,
            Err(m) => component_ref_problem(reference@) == Some(m@),
        },
{
    if str_starts_with(reference, "oci://") {
        return validate_oci_reference(reference);
    }
    if str_starts_with(reference, "repo://") || str_starts_with(reference, "store://") {
        let tail = match crate::text::split_once_str(reference, "://") {
            Some(t) => t,
            None => String::new(),
        };
        let rest = trim(tail.as_str());
        proof {
            crate::text::lemma_trim_empty();
        }
        if rest.unicode_len() == 0 {
            return Err(String::from_str("--component must include a reference after the scheme"));
        }
        return Ok(());
    }
    Err(String::from_str("--component must start with oci://, repo://, or store://"))
}


/// The node identifier suggested by the options: the explicit one, else the
/// last path segment of the component reference (schemes removed, tag or
/// digest dropped, `_` read as `-`) when that is not empty, else the local
/// file's stem with `_` read as `-` when that is not empty.
pub open spec fn node_id_hint_v(node_id: Option<Seq<char>>, component_ref: Option<Seq<char>>, wasm_stem: Option<Seq<char>>) -> Option<
    Seq<char>,
> {
    match node_id {
        Some(id) => Some(id),
        None => {
            let from_ref = match component_ref {
                Some(r) => {
                    let base = before_any(after_last_any(strip_schemes_v(r), seq!['/', '\\']), seq![':', '@']);
                    if base.len() > 0 {
                        Some(replace_char_v(base, '_', '-'))
                    } else {
                        None
                    }
                },
                None => None,
            };
            match from_ref {
                Some(h) => Some(h),
                None => match wasm_stem {
                    Some(stem) => if stem.len() > 0 {
                        Some(replace_char_v(stem, '_', '-'))
                    } else {
                        None
                    },
                    None => None,
                },
            }
        },
    }
}

pub fn infer_node_id_hint(node_id: Option<&str>, component_ref: Option<&str>, wasm_stem: Option<&str>) -> (r: Option<
    String,
>)
    ensures
        opt_str(r) == node_id_hint_v(opt_ref(node_id), opt_ref(component_ref), opt_ref(wasm_stem)),
{
    if let Some(explicit) = node_id {
        return Some(String::from_str(explicit));
    }
    if let Some(comp_ref) = component_ref {
        let a = trim_start_matches(comp_ref, "oci://");
        let b = trim_start_matches(a.as_str(), "repo://");
        let c = trim_start_matches(b.as_str(), "store://");
        let mut seps: Vec<char> = Vec::new();
        seps.push('/');
        seps.push('\\');
        assert(seps@ =~= seq!['/', '\\']);
        let last = text_after_last_any(c.as_str(), &seps);
        let mut tags: Vec<char> = Vec::new();
        tags.push(':');
        tags.push('@');
        assert(tags@ =~= seq![':', '@']);
        let base = text_before_any(last.as_str(), &tags);
        if base.unicode_len() > 0 {
            return Some(replace_char(base.as_str(), '_', '-'));
        }
    }
    if let Some(stem) = wasm_stem {
        let normalized = replace_char(stem, '_', '-');
        if normalized.unicode_len() > 0 {
            return Some(normalized);
        }
    }
    None
}

/// The banner shown before a component's questions.
pub fn wizard_header(component: &str, mode: &str) -> (r: String)
    ensures
        r@ == "== "@ + component@ + " ("@ + mode@ + ") =="@,
{
    let mut s = concat3("== ", component, " (");
    s.append(mode);
    s.append(") ==");
    s
}

pub fn to_ascii_lowercase(s: &str) -> (r: String)
    ensures
        r@ == lower_seq(s@),
{
    let v = chars_of(s);
    let mut out = String::new();
    let mut i: usize = 0;
    while i < v.len()
        invariant
            i <= v.len(),
            v@ == s@,
            out@ == lower_seq(s@.subrange(0, i as int)),
        decreases v.len() - i,
    {
        push_char(&mut out, char_to_ascii_lower(v[i]));
        proof {
            assert(lower_seq(s@.subrange(0, i + 1)) =~= lower_seq(s@.subrange(0, i as int)).push(
                crate::text::ascii_lower(v@[i as int]),
            ));
        }
        i = i + 1;
    }
    proof {
        assert(s@.subrange(0, v.len() as int) =~= s@);
    }
    out
}

/// The group a capability belongs to: `wasi.x…` and `host.x…` become
/// `wasi:x` and `host:x`, `a.b…` becomes `a:b`, names with a colon stay;
/// all lower-cased and trimmed.
pub open spec fn capability_group_v(raw: Seq<char>) -> Seq<char> {
    let n = lower_seq(trim_seq(raw));
    let seps = seq!['.', ':', '/'];
    if n.len() == 0 {
        n
    } else if starts_with(n, "wasi."@) {
        "wasi:"@ + before_any(n.skip(5), seps)
    } else if starts_with(n, "host."@) {
        "host:"@ + before_any(n.skip(5), seps)
    } else if n.contains(':') {
        n
    } else {
        match split_once_v(n, '.') {
            Some((left, right)) => left + ":"@ + before_any(right, seps),
            None => n,
        }
    }
}

pub fn normalize_capability_group(raw: &str) -> (r: String)
    ensures
        r@ == capability_group_v(raw@),
{
    let t = trim(raw);
    let n = to_ascii_lowercase(t.as_str());
    if n.unicode_len() == 0 {
        return n;
    }
    let mut seps: Vec<char> = Vec::new();
    seps.push('.');
    seps.push(':');
    seps.push('/');
    assert(seps@ =~= seq!['.', ':', '/']);
    proof {
        reveal_strlit("wasi.");
        reveal_strlit("host.");
    }
    if let Some(rest) = strip_prefix(n.as_str(), "wasi.") {
        let head = text_before_any(rest.as_str(), &seps);
        return concat("wasi:", head.as_str());
    }
    if let Some(rest) = strip_prefix(n.as_str(), "host.") {
        let head = text_before_any(rest.as_str(), &seps);
        return concat("host:", head.as_str());
    }
    if str_contains_char(n.as_str(), ':') {
        return n;
    }
    match split_once(n.as_str(), '.') {
        Some((left, right)) => {
            let head = text_before_any(right.as_str(), &seps);
            concat3(left.as_str(), ":", head.as_str())
        },
        None => n,
    }
}

/// The capability groups as a set: in key order, each once.
pub open spec fn groups_entries(caps: Seq<Seq<char>>) -> Seq<(Seq<char>, ())>
    decreases caps.len(),
{
    if caps.len() == 0 {
        Seq::empty()
    } else {
        sorted_insert_v(groups_entries(caps.drop_last()), capability_group_v(caps.last()), ())
    }
}

pub open spec fn groups_v(caps: Seq<Seq<char>>) -> Seq<Seq<char>> {
    kseq(groups_entries(caps))
}

pub fn grouped_capabilities(caps: &Vec<String>) -> (r: Vec<String>)
    ensures
        strs_v(r@) == groups_v(strs_v(caps@)),
        sorted(strs_v(r@)),
{
    let ghost cv = strs_v(caps@);
    let mut set: Vec<(String, ())> = Vec::new();
    let mut i: usize = 0;
    proof {
        assert(cv.subrange(0, 0) =~= Seq::<Seq<char>>::empty());
        assert(kv(set@) =~= Seq::<(Seq<char>, ())>::empty());
        assert(keys_of(set@) =~= Seq::<Seq<char>>::empty());
    }
    while i < caps.len()
        invariant
            i <= caps.len(),
            cv == strs_v(caps@),
            kv(set@) == groups_entries(cv.subrange(0, i as int)),
            sorted(keys_of(set@)),
        decreases caps.len() - i,
    {
        let ghost cur = cv.subrange(0, i + 1);
        proof {
            assert(cur.drop_last() =~= cv.subrange(0, i as int));
            assert(cur.last() == caps@[i as int]@);
        }
        let g = normalize_capability_group(caps[i].as_str());
        sorted_insert(&mut set, g, ());
        i = i + 1;
    }
    proof {
        assert(cv.subrange(0, caps.len() as int) =~= cv);
    }
    let mut out: Vec<String> = Vec::new();
    let mut j: usize = 0;
    while j < set.len()
        invariant
            j <= set.len(),
            out@.len() == j,
            forall|k: int| 0 <= k < j ==> (#[trigger] out@[k])@ == set@[k].0@,
        decreases set.len() - j,
    {
        out.push(set[j].0.clone());
        j = j + 1;
    }
    proof {
        lemma_kv_keys(set@);
        assert(strs_v(out@) =~= keys_of(set@));
    }
    out
}

} // verus!
