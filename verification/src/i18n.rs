//! Translations keyed by message key and locale, locale fallback, and
//! lookup of texts with a fallback.
use vstd::prelude::*;
use crate::assoc::{aget, ains, kv, kseq, keys_of, get_key, insert_key, lemma_kv_keys, lemma_aget_map, lemma_ains_map, lemma_ains_aget, map_vals};
use crate::error::{FlowError, FlowErrorLocation, opt_str, opt_ref};
use crate::flow_ir::{str_pairs_v, clone_str_pairs, lemma_str_pairs_v};
use crate::model::{strs_v, lemma_strs_push};
use crate::text::{
    trim, trim_seq, split_once, split_once_v, str_eq, concat3, replace_first, replace_first_v,
    text_before, before_char, replace_char, replace_char_v, eq_ignore_ascii_case, eq_ignore_case_v,
};

verus! {

/// Translations: for each message key, a value per locale.
#[derive(Debug)]
pub struct I18nCatalog {
    entries: Vec<(String, Vec<(String, String)>)>,
}

pub type CatalogEntriesV = Seq<(Seq<char>, Seq<(Seq<char>, Seq<char>)>)>;

pub open spec fn catalog_entries_v(e: Seq<(String, Vec<(String, String)>)>) -> CatalogEntriesV {
    e.map_values(|x: (String, Vec<(String, String)>)| (x.0@, str_pairs_v(x.1@)))
}

impl View for I18nCatalog {
    type V = CatalogEntriesV;

    closed spec fn view(&self) -> CatalogEntriesV {
        catalog_entries_v(self.entries@)
    }
}

/// The translation of `key` into `locale`, if there is one.
pub open spec fn tr_get(c: CatalogEntriesV, key: Seq<char>, locale: Seq<char>) -> Option<Seq<char>> {
    match aget(c, key) {
        Some(l) => aget(l, locale),
        None => None,
    }
}

/// The catalog after setting the translation of `key` into `locale`.
pub open spec fn tr_insert(c: CatalogEntriesV, key: Seq<char>, locale: Seq<char>, value: Seq<char>) -> CatalogEntriesV {
    let l = match aget(c, key) {
        Some(l) => l,
        None => Seq::empty(),
    };
    ains(c, key, ains(l, locale, value))
}

proof fn lemma_catalog_entries_v(e: Seq<(String, Vec<(String, String)>)>)
    ensures
        catalog_entries_v(e) == map_vals(kv(e), |x: Vec<(String, String)>| str_pairs_v(x@)),
        kseq(catalog_entries_v(e)) == keys_of(e),
{
    assert(catalog_entries_v(e) =~= map_vals(kv(e), |x: Vec<(String, String)>| str_pairs_v(x@)));
    assert(kseq(catalog_entries_v(e)) =~= keys_of(e));
}

impl I18nCatalog {
    pub fn new() -> (c: Self)
        ensures
            c@ == Seq::<(Seq<char>, Seq<(Seq<char>, Seq<char>)>)>::empty(),
    {
        let c = I18nCatalog { entries: Vec::new() };
        assert(c@ =~= Seq::<(Seq<char>, Seq<(Seq<char>, Seq<char>)>)>::empty());
        c
    }

    /// Sets the translation of `key` into `locale`.
    pub fn insert(&mut self, key: &str, locale: &str, value: String)
        ensures
            final(self)@ == tr_insert(old(self)@, key@, locale@, value@),
    {
        proof {
            lemma_catalog_entries_v(self.entries@);
        }
        let ghost before = self.entries@;
        let mut locales: Vec<(String, String)> = match get_key(&self.entries, key) {
            Some(l) => clone_str_pairs(l),
            None => Vec::new(),
        };
        proof {
            lemma_aget_map(kv(before), key@, |x: Vec<(String, String)>| str_pairs_v(x@));
            lemma_str_pairs_v(locales@);
        }
        let ghost l0 = locales@;
        insert_key(&mut locales, String::from_str(locale), value);
        proof {
            lemma_str_pairs_v(l0);
            lemma_str_pairs_v(locales@);
            lemma_ains_map(kv(l0), locale@, value, |x: String| x@);
            if aget(kv(before), key@) is None {
                assert(str_pairs_v(l0) =~= Seq::<(Seq<char>, Seq<char>)>::empty());
            }
        }
        let ghost new_l = locales;
        insert_key(&mut self.entries, String::from_str(key), locales);
        proof {
            lemma_catalog_entries_v(self.entries@);
            lemma_ains_map(kv(before), key@, new_l, |x: Vec<(String, String)>| str_pairs_v(x@));
        }
    }

    /// The translation of `key` into `locale`, if there is one.
    pub fn get(&self, key: &str, locale: &str) -> (r: Option<&str>)
        ensures
            match r {
                Some(s) => tr_get(self@, key@, locale@) == Some(s@),
                None => tr_get(self@, key@, locale@) is None,
            },
    {
        proof {
            lemma_catalog_entries_v(self.entries@);
            lemma_aget_map(kv(self.entries@), key@, |x: Vec<(String, String)>| str_pairs_v(x@));
        }
        match get_key(&self.entries, key) {
            Some(l) => {
                proof {
                    lemma_str_pairs_v(l@);
                    lemma_aget_map(kv(l@), locale@, |x: String| x@);
                }
                match get_key(l, locale) {
                    Some(v) => Some(v.as_str()),
                    None => None,
                }
            },
            None => None,
        }
    }
}

/// A translation read back for the key and locale it was set for gives the
/// value set; any other key and locale keep what they had.
pub proof fn law_catalog_insert_then_get(
    c: CatalogEntriesV,
    key: Seq<char>,
    locale: Seq<char>,
    value: Seq<char>,
    key2: Seq<char>,
    locale2: Seq<char>,
)
    ensures
        tr_get(tr_insert(c, key, locale, value), key2, locale2) == (if key2 == key && locale2 == locale {
            Some(value)
        } else {
            tr_get(c, key2, locale2)
        }),
{
    let l = match aget(c, key) {
        Some(l) => l,
        None => Seq::empty(),
    };
    lemma_ains_aget(c, key, ains(l, locale, value), key2);
    lemma_ains_aget(l, locale, value, locale2);
    if key2 == key && aget(c, key) is None {
        assert(aget(Seq::<(Seq<char>, Seq<char>)>::empty(), locale2) is None);
    }
}

// ---------------------------------------------------------------------------
// Locales
// ---------------------------------------------------------------------------

/// The locales to try in turn: the given one (trimmed, `en` if empty), its
/// language alone when it has a region and is not English, then `en`.
pub open spec fn fallback_chain_v(locale: Seq<char>) -> Seq<Seq<char>> {
    let t = trim_seq(locale);
    let cur = if t.len() == 0 { "en"@ } else { t };
    let with_lang = match split_once_v(cur, '-') {
        Some((lang, _)) => if lang.len() > 0 && lang != "en"@ {
            seq![cur, lang]
        } else {
            seq![cur]
        },
        None => seq![cur],
    };
    if with_lang.contains("en"@) {
        with_lang
    } else {
        with_lang.push("en"@)
    }
}

pub fn locale_fallback_chain(locale: &str) -> (r: Vec<String>)
    ensures
        strs_v(r@) == fallback_chain_v(locale@),
{
    let mut out: Vec<String> = Vec::new();
    let mut current = trim(locale);
    if current.unicode_len() == 0 {
        current = String::from_str("en");
    }
    proof {
        reveal_strlit("en");
    }
    let ghost cur = current@;
    out.push(current.clone());
    let has_en = str_eq(current.as_str(), "en");
    match split_once(current.as_str(), '-') {
        Some((language, _region)) => {
            if language.unicode_len() > 0 && !str_eq(language.as_str(), "en") {
                out.push(language);
            }
        },
        None => {},
    }
    let ghost w = strs_v(out@);
    proof {
        assert(w =~= match split_once_v(cur, '-') {
            Some((lang, _)) => if lang.len() > 0 && lang != "en"@ {
                seq![cur, lang]
            } else {
                seq![cur]
            },
            None => seq![cur],
        });
    }
    if !has_en {
        let ghost before = out@;
        out.push(String::from_str("en"));
        proof {
            lemma_strs_push(before, out@.last());
            if w.contains("en"@) {
                let j = choose|j: int| 0 <= j < w.len() && w[j] == "en"@;
                assert(j == 0 || j == 1);
            }
        }
    } else {
        assert(w[0] == "en"@);
        assert(w.contains("en"@));
    }
    out
}


// ---------------------------------------------------------------------------
// Texts
// ---------------------------------------------------------------------------

/// A message key with an optional fallback text.
#[derive(Debug)]
pub struct I18nText {
    pub key: String,
    pub fallback: Option<String>,
}

impl I18nText {
    pub fn new(key: &str, fallback: Option<String>) -> (r: Self)
        ensures
            r.key@ == key@,
            opt_str(r.fallback) == opt_str(fallback),
    {
        I18nText { key: String::from_str(key), fallback }
    }
}

/// The first of `cands` into which `key` is translated, and the translation.
pub open spec fn first_hit(c: CatalogEntriesV, key: Seq<char>, cands: Seq<Seq<char>>) -> Option<Seq<char>>
    decreases cands.len(),
{
    if cands.len() == 0 {
        None
    } else {
        match tr_get(c, key, cands[0]) {
            Some(v) => Some(v),
            None => first_hit(c, key, cands.drop_first()),
        }
    }
}

/// The text in the first locale of the fallback chain that has it, else the
/// fallback text, else the key itself.
pub open spec fn resolve_text_v(key: Seq<char>, fallback: Option<Seq<char>>, c: CatalogEntriesV, locale: Seq<char>) -> Seq<char> {
    match first_hit(c, key, fallback_chain_v(locale)) {
        Some(v) => v,
        None => match fallback {
            Some(f) => f,
            None => key,
        },
    }
}

pub fn resolve_text(text: &I18nText, catalog: &I18nCatalog, locale: &str) -> (r: String)
    ensures
        r@ == resolve_text_v(text.key@, opt_str(text.fallback), catalog@, locale@),
{
    let chain = locale_fallback_chain(locale);
    let ghost cands = strs_v(chain@);
    let mut i: usize = 0;
    proof {
        assert(cands.skip(0) =~= cands);
    }
    while i < chain.len()
        invariant
            i <= chain.len(),
            cands == strs_v(chain@),
            cands == fallback_chain_v(locale@),
            first_hit(catalog@, text.key@, cands) == first_hit(catalog@, text.key@, cands.skip(i as int)),
        decreases chain.len() - i,
    {
        let ghost rest = cands.skip(i as int);
        proof {
            assert(rest[0] == chain@[i as int]@);
            assert(rest.drop_first() =~= cands.skip(i + 1));
        }
        match catalog.get(text.key.as_str(), chain[i].as_str()) {
            Some(v) => {
                return String::from_str(v);
            },
            None => {},
        }
        i = i + 1;
    }
    proof {
        assert(cands.skip(chain.len() as int) =~= Seq::<Seq<char>>::empty());
    }
    match &text.fallback {
        Some(f) => f.clone(),
        None => text.key.clone(),
    }
}

pub fn resolve_cli_text(catalog: &I18nCatalog, locale: &str, key: &str, fallback: &str) -> (r: String)
    ensures
        r@ == resolve_text_v(key@, Some(fallback@), catalog@, locale@),
{
    let text = I18nText::new(key, Some(String::from_str(fallback)));
    resolve_text(&text, catalog, locale)
}

/// Each `{}` in turn, from the first, replaced by the next argument.
pub open spec fn fill_template_v(t: Seq<char>, args: Seq<Seq<char>>) -> Seq<char>
    decreases args.len(),
{
    if args.len() == 0 {
        t
    } else {
        replace_first_v(fill_template_v(t, args.drop_last()), "{}"@, args.last())
    }
}

pub fn resolve_cli_template(catalog: &I18nCatalog, locale: &str, key: &str, fallback: &str, args: &Vec<&str>) -> (r: String)
    ensures
        r@ == fill_template_v(
            resolve_text_v(key@, Some(fallback@), catalog@, locale@),
            args@.map_values(|a: &str| a@),
        ),
{
    let mut out = resolve_cli_text(catalog, locale, key, fallback);
    let ghost t = out@;
    let ghost av = args@.map_values(|a: &str| a@);
    let mut i: usize = 0;
    proof {
        assert(av.subrange(0, 0) =~= Seq::<Seq<char>>::empty());
    }
    while i < args.len()
        invariant
            i <= args.len(),
            av == args@.map_values(|a: &str| a@),
            out@ == fill_template_v(t, av.subrange(0, i as int)),
        decreases args.len() - i,
    {
        proof {
            assert(av.subrange(0, i + 1).drop_last() =~= av.subrange(0, i as int));
            assert(av.subrange(0, i + 1).last() == args@[i as int]@);
        }
        out = replace_first(out.as_str(), "{}", args[i]);
        i = i + 1;
    }
    proof {
        assert(av.subrange(0, args.len() as int) =~= av);
    }
    out
}

/// Each key with its text; the first key whose text is empty is refused.
pub open spec fn resolve_keys_v(keys: Seq<Seq<char>>, c: CatalogEntriesV, locale: Seq<char>) -> Result<
    Seq<(Seq<char>, Seq<char>)>,
    Seq<char>,
>
    decreases keys.len(),
{
    if keys.len() == 0 {
        Ok(Seq::empty())
    } else {
        match resolve_keys_v(keys.drop_last(), c, locale) {
            Err(k) => Err(k),
            Ok(done) => {
                let k = keys.last();
                let v = resolve_text_v(k, None, c, locale);
                if v.len() == 0 {
                    Err(k)
                } else {
                    Ok(done.push((k, v)))
                }
            },
        }
    }
}

proof fn lemma_resolve_keys_prefix(keys: Seq<Seq<char>>, j: int, c: CatalogEntriesV, locale: Seq<char>)
    requires
        0 <= j <= keys.len(),
        resolve_keys_v(keys.subrange(0, j), c, locale) is Err,
    ensures
        resolve_keys_v(keys, c, locale) == resolve_keys_v(keys.subrange(0, j), c, locale),
    decreases keys.len(),
{
    if j < keys.len() {
        assert(keys.drop_last().subrange(0, j) =~= keys.subrange(0, j));
        lemma_resolve_keys_prefix(keys.drop_last(), j, c, locale);
    } else {
        assert(keys.subrange(0, j) =~= keys);
    }
}

/// The text of each key, in the order given (a set passes its keys in key
/// order); a key with an empty text is refused.
pub fn resolve_keys(keys: &Vec<String>, catalog: &I18nCatalog, locale: &str) -> (r: Result<Vec<(String, String)>, FlowError>)
    ensures
        match r {
            Ok(out) => resolve_keys_v(strs_v(keys@), catalog@, locale@) == Ok::<_, Seq<char>>(str_pairs_v(out@)),
            Err(e) => (resolve_keys_v(strs_v(keys@), catalog@, locale@) matches Err(k) && e matches FlowError::Internal {
                message,
                location,
            } && message@ == "missing translation for key '"@ + k + "'"@ && location.path is None
                && location.line is None && location.column is None),
        },
{
    let ghost ks = strs_v(keys@);
    let mut out: Vec<(String, String)> = Vec::new();
    let mut i: usize = 0;
    proof {
        assert(ks.subrange(0, 0) =~= Seq::<Seq<char>>::empty());
        assert(str_pairs_v(out@) =~= Seq::<(Seq<char>, Seq<char>)>::empty());
    }
    while i < keys.len()
        invariant
            i <= keys.len(),
            ks == strs_v(keys@),
            resolve_keys_v(ks.subrange(0, i as int), catalog@, locale@) == Ok::<_, Seq<char>>(str_pairs_v(out@)),
        decreases keys.len() - i,
    {
        let ghost cur = ks.subrange(0, i + 1);
        proof {
            assert(cur.drop_last() =~= ks.subrange(0, i as int));
            assert(cur.last() == keys@[i as int]@);
        }
        let text = I18nText::new(keys[i].as_str(), None);
        let value = resolve_text(&text, catalog, locale);
        if value.unicode_len() == 0 {
            proof {
                lemma_resolve_keys_prefix(ks, i + 1, catalog@, locale@);
            }
            let msg = concat3("missing translation for key '", keys[i].as_str(), "'");
            return Err(FlowError::Internal { message: msg, location: FlowErrorLocation::new(None, None, None) });
        }
        let ghost before = out@;
        out.push((keys[i].clone(), value));
        proof {
            assert(str_pairs_v(out@) =~= str_pairs_v(before).push((keys@[i as int]@, value@)));
        }
        i = i + 1;
    }
    proof {
        assert(ks.subrange(0, keys.len() as int) =~= ks);
    }
    Ok(out)
}

// ---------------------------------------------------------------------------
// Choosing a locale
// ---------------------------------------------------------------------------

/// The canonical form of a language identifier, if the text is one.
pub uninterp spec fn langid_canonical(s: Seq<char>) -> Option<Seq<char>>;

/// Parses a language identifier (`unic_langid::LanguageIdentifier`'s
/// `FromStr`) and renders it back (`Display`); claims only that the result
/// is a function of the text.
#[verifier::external_body]
fn canonical_language_id(s: &str) -> (r: Option<String>)
    ensures
        match r {
            Some(x) => langid_canonical(s@) == Some(x@),
            None => langid_canonical(s@) is None,
        },
{
    s.parse::<unic_langid::LanguageIdentifier>().ok().map(|l| l.to_string())
}

/// The locale that a raw setting names: trimmed, without encoding (`.…`) or
/// modifier (`@…`), `_` read as `-`; `C`, `POSIX` and empty name none.
pub open spec fn normalize_locale_v(raw: Seq<char>) -> Option<Seq<char>> {
    let t = trim_seq(raw);
    if t.len() == 0 || eq_ignore_case_v(t, "c"@) || eq_ignore_case_v(t, "posix"@) {
        None
    } else {
        langid_canonical(replace_char_v(before_char(before_char(t, '.'), '@'), '_', '-'))
    }
}

pub fn normalize_locale(raw: &str) -> (r: Option<String>)
    ensures
        match r {
            Some(x) => normalize_locale_v(raw@) == Some(x@),
            None => normalize_locale_v(raw@) is None,
        },
{
    let trimmed = trim(raw);
    if trimmed.unicode_len() == 0 || eq_ignore_ascii_case(trimmed.as_str(), "c") || eq_ignore_ascii_case(
        trimmed.as_str(),
        "posix",
    ) {
        return None;
    }
    let without_encoding = text_before(trimmed.as_str(), '.');
    let without_modifier = text_before(without_encoding.as_str(), '@');
    let normalized = replace_char(without_modifier.as_str(), '_', '-');
    canonical_language_id(normalized.as_str())
}

/// The first of the values that names a locale.
pub open spec fn first_locale(values: Seq<Seq<char>>) -> Option<Seq<char>>
    decreases values.len(),
{
    if values.len() == 0 {
        None
    } else {
        match normalize_locale_v(values[0]) {
            Some(l) => Some(l),
            None => first_locale(values.drop_first()),
        }
    }
}

/// The locale to use: the explicit one, else the first of the environment
/// values (`GREENTIC_LOCALE`, `LC_ALL`, `LC_MESSAGES`, `LANG`, unset ones
/// given as empty) that names one, else the system's, else `en`.
pub open spec fn resolve_locale_v(explicit: Option<Seq<char>>, env: Seq<Seq<char>>, system: Option<Seq<char>>) -> Seq<char> {
    let e = match explicit {
        Some(x) => x,
        None => Seq::empty(),
    };
    match normalize_locale_v(e) {
        Some(l) => l,
        None => match first_locale(env) {
            Some(l) => l,
            None => match system {
                Some(s) => match normalize_locale_v(s) {
                    Some(l) => l,
                    None => "en"@,
                },
                None => "en"@,
            },
        },
    }
}

/// The system's preferred locale (`sys_locale::get_locale`); it depends on
/// the machine, so nothing is claimed of it.
#[verifier::external_body]
fn system_locale() -> (r: Option<String>) {
    sys_locale::get_locale()
}

/// The locale to use, given the system's locale as a value.
pub fn resolve_locale_with(explicit: Option<&str>, env_values: &Vec<String>, system: Option<String>) -> (r: String)
    ensures
        r@ == resolve_locale_v(
            opt_ref(explicit),
            strs_v(env_values@),
            opt_str(system),
        ),
{
    let e: &str = match explicit {
        Some(x) => x,
        None => "",
    };
    proof {
        reveal_strlit("");
        assert(e@ == match opt_ref(explicit) {
            Some(x) => x,
            None => Seq::<char>::empty(),
        });
    }
    if let Some(l) = normalize_locale(e) {
        return l;
    }
    let ghost vs = strs_v(env_values@);
    let mut i: usize = 0;
    proof {
        assert(vs.skip(0) =~= vs);
    }
    while i < env_values.len()
        invariant
            i <= env_values.len(),
            vs == strs_v(env_values@),
            first_locale(vs) == first_locale(vs.skip(i as int)),
            e@ == match opt_ref(explicit) {
                Some(x) => x,
                None => Seq::<char>::empty(),
            },
            normalize_locale_v(e@) is None,
        decreases env_values.len() - i,
    {
        proof {
            assert(vs.skip(i as int)[0] == env_values@[i as int]@);
            assert(vs.skip(i as int).drop_first() =~= vs.skip(i + 1));
        }
        if let Some(l) = normalize_locale(env_values[i].as_str()) {
            return l;
        }
        i = i + 1;
    }
    proof {
        assert(vs.skip(env_values.len() as int) =~= Seq::<Seq<char>>::empty());
    }
    if let Some(raw) = system {
        if let Some(l) = normalize_locale(raw.as_str()) {
            return l;
        }
    }
    String::from_str("en")
}

/// The locale to use. The system's locale is read on every call and decides
/// only when neither the explicit value nor the environment values name one.
pub fn resolve_locale(explicit: Option<&str>, env_values: &Vec<String>) -> (r: String)
    ensures
        exists|system: Option<Seq<char>>| r@ == #[trigger] resolve_locale_v(
            opt_ref(explicit),
            strs_v(env_values@),
            system,
        ),
{
    let system = system_locale();
    let r = resolve_locale_with(explicit, env_values, system);
    assert(r@ == resolve_locale_v(
        opt_ref(explicit),
        strs_v(env_values@),
        opt_str(system),
    ));
    r
}

} // verus!
