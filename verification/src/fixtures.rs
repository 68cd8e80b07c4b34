//! Component wizards answered from fixture files: which files of a fixture
//! directory stand for a component's description, question spec and applied
//! config, given the files that exist.
use vstd::prelude::*;
use crate::assoc::{aget, kv, get_key};
use crate::add_step::id::contains_text;
use crate::model::strs_v;
use crate::refs::{fixture_key, fixture_key_v, strip_reference_scheme, strip_scheme_v};
use crate::text::{concat, concat3, ends_with, starts_with, str_starts_with, strip_prefix, strip_suffix, trim, trim_seq};
use crate::wizard_ops::{WizardAbi, WizardMode, mode_name};

verus! {

/// A component's entry in a fixture index: its directory (relative to the
/// fixture root) and the ABI version it was recorded with.
#[derive(Debug)]
pub struct FixtureEntry {
    pub path: Option<String>,
    pub abi_version: Option<String>,
}

/// A fixture index: entries by component reference.
#[derive(Debug)]
pub struct FixtureIndex {
    pub components: Vec<(String, FixtureEntry)>,
}

/// Where the wizard's ABI comes from: known, or the text of a file.
#[derive(Debug)]
pub enum AbiSource {
    Fixed(WizardAbi),
    FromFile(String),
}

/// The files that stand for a component's wizard; without a description
/// file the description is empty.
#[derive(Debug)]
pub struct FixtureWizard {
    pub describe: Option<String>,
    pub qa_spec: String,
    pub apply_answers: String,
    pub abi: AbiSource,
}

pub enum AbiSourceV {
    Fixed(WizardAbi),
    FromFile(Seq<char>),
}

pub struct FixtureWizardV {
    pub describe: Option<Seq<char>>,
    pub qa_spec: Seq<char>,
    pub apply_answers: Seq<char>,
    pub abi: AbiSourceV,
}

impl View for FixtureWizard {
    type V = FixtureWizardV;

    open spec fn view(&self) -> FixtureWizardV {
        FixtureWizardV {
            describe: match self.describe {
                Some(d) => Some(d@),
                None => None,
            },
            qa_spec: self.qa_spec@,
            apply_answers: self.apply_answers@,
            abi: match self.abi {
                AbiSource::Fixed(a) => AbiSourceV::Fixed(a),
                AbiSource::FromFile(p) => AbiSourceV::FromFile(p@),
            },
        }
    }
}

/// `Path::join` on texts: an absolute `rel`, or an empty root, gives `rel`.
pub open spec fn join_v(root: Seq<char>, rel: Seq<char>) -> Seq<char> {
    if starts_with(rel, "/"@) || root.len() == 0 {
        rel
    } else if ends_with(root, "/"@) {
        root + rel
    } else {
        root + "/"@ + rel
    }
}

fn join(root: &str, rel: &str) -> (r: String)
    ensures
        r@ == join_v(root@, rel@),
{
    if str_starts_with(rel, "/") || root.unicode_len() == 0 {
        String::from_str(rel)
    } else if strip_suffix(root, "/").is_some() {
        concat(root, rel)
    } else {
        concat3(root, "/", rel)
    }
}

/// The older interface's name for a mode, where it has another.
pub open spec fn legacy_mode_v(m: WizardMode) -> Option<Seq<char>> {
    if m == WizardMode::Update {
        Some("upgrade"@)
    } else {
        None
    }
}

fn legacy_mode(m: WizardMode) -> (r: Option<&'static str>)
    ensures
        match r {
            Some(s) => legacy_mode_v(m) == Some(s@),
            None => legacy_mode_v(m) is None,
        },
{
    if m == WizardMode::Update {
        Some("upgrade")
    } else {
        None
    }
}

/// The fixture root that a resolver names (`fixture://<root>`).
pub open spec fn fixture_root_v(resolver: Option<Seq<char>>) -> Option<Seq<char>> {
    match resolver {
        Some(r) => if starts_with(r, "fixture://"@) {
            Some(r.skip(10))
        } else {
            None
        },
        None => None,
    }
}

pub fn fixture_root(resolver: Option<&str>) -> (r: Option<String>)
    ensures
        r matches Some(s) ==> fixture_root_v(match resolver { Some(x) => Some(x@), None => None }) == Some(s@),
        r is None ==> fixture_root_v(match resolver { Some(x) => Some(x@), None => None }) is None,
{
    proof {
        reveal_strlit("fixture://");
    }
    match resolver {
        Some(x) => strip_prefix(x, "fixture://"),
        None => None,
    }
}

/// The index entry of a reference: by the reference, else by the reference
/// without its scheme.
pub open spec fn entry_v(index: FixtureIndex, reference: Seq<char>) -> Option<FixtureEntry> {
    match aget(kv(index.components@), reference) {
        Some(e) => Some(e),
        None => aget(kv(index.components@), strip_scheme_v(reference)),
    }
}

/// The directory of an indexed component.
pub open spec fn component_dir_v(root: Seq<char>, reference: Seq<char>, e: FixtureEntry) -> Seq<char> {
    match e.path {
        Some(p) => join_v(root, p@),
        None => join_v(join_v(root, "components"@), fixture_key_v(reference)),
    }
}

/// The file for a mode in an indexed directory: the mode's own file when it
/// exists, else the legacy mode's.
pub open spec fn indexed_file_v(present: Seq<Seq<char>>, own: Seq<char>, legacy: Option<Seq<char>>) -> Seq<char> {
    if present.contains(own) {
        own
    } else {
        match legacy {
            Some(l) => l,
            None => own,
        }
    }
}

/// The file for a mode next to the index: the mode's own file, else the
/// legacy mode's, else the mode-less file, the first that exists.
pub open spec fn flat_file_v(present: Seq<Seq<char>>, own: Seq<char>, legacy: Option<Seq<char>>, plain: Seq<char>) -> Seq<char> {
    if present.contains(own) {
        own
    } else if legacy matches Some(l) && present.contains(l) {
        legacy->0
    } else {
        plain
    }
}

pub open spec fn opt_file_v(dir: Seq<char>, pre: Seq<char>, legacy: Option<Seq<char>>, post: Seq<char>) -> Option<Seq<char>> {
    match legacy {
        Some(l) => Some(join_v(dir, pre + l + post)),
        None => None,
    }
}

pub open spec fn missing_msg_v(what: Seq<char>, reference: Seq<char>, a: Seq<char>, b: Seq<char>) -> Seq<char> {
    "fixture wizard missing "@ + what + " for "@ + reference + " (expected "@ + a + " and "@ + b + ")"@
}

pub open spec fn missing_describe_msg_v(reference: Seq<char>, d: Seq<char>) -> Seq<char> {
    "fixture wizard missing describe for "@ + reference + " (expected "@ + d + ")"@
}

/// The wizard of an indexed component.
pub open spec fn indexed_wizard_v(
    present: Seq<Seq<char>>,
    dir: Seq<char>,
    reference: Seq<char>,
    mode: WizardMode,
    abi_version: Option<Seq<char>>,
) -> Result<Option<FixtureWizardV>, Seq<char>> {
    let m = mode_name(mode);
    let l = legacy_mode_v(mode);
    let describe = join_v(dir, "describe.cbor"@);
    let qa = indexed_file_v(present, join_v(dir, "qa_"@ + m + ".cbor"@), opt_file_v(dir, "qa_"@, l, ".cbor"@));
    let apply = indexed_file_v(
        present,
        join_v(dir, "apply_"@ + m + "_config.cbor"@),
        opt_file_v(dir, "apply_"@, l, "_config.cbor"@),
    );
    if !present.contains(qa) || !present.contains(apply) {
        Err(missing_msg_v("qa/apply"@, reference, qa, apply))
    } else if !present.contains(describe) {
        Err(missing_describe_msg_v(reference, describe))
    } else {
        Ok(
            Some(
                FixtureWizardV {
                    describe: Some(describe),
                    qa_spec: qa,
                    apply_answers: apply,
                    abi: AbiSourceV::Fixed(
                        if abi_version == Some("0.5.0"@) {
                            WizardAbi::Legacy
                        } else {
                            WizardAbi::V6
                        },
                    ),
                },
            ),
        )
    }
}

/// The wizard of a component whose files lie next to the index, named by
/// the reference's fixture key; none when none of its files exist.
pub open spec fn flat_wizard_v(
    present: Seq<Seq<char>>,
    root: Seq<char>,
    reference: Seq<char>,
    mode: WizardMode,
) -> Result<Option<FixtureWizardV>, Seq<char>> {
    let k = fixture_key_v(reference);
    let m = mode_name(mode);
    let l = legacy_mode_v(mode);
    let qa = flat_file_v(
        present,
        join_v(root, k + ".qa-"@ + m + ".cbor"@),
        opt_file_v(root, k + ".qa-"@, l, ".cbor"@),
        join_v(root, k + ".qa-spec.cbor"@),
    );
    let apply = flat_file_v(
        present,
        join_v(root, k + ".apply-"@ + m + "-config.cbor"@),
        opt_file_v(root, k + ".apply-"@, l, "-config.cbor"@),
        join_v(root, k + ".apply-answers.cbor"@),
    );
    let describe = join_v(root, k + ".describe.cbor"@);
    let abi = join_v(root, k + ".abi"@);
    if !present.contains(qa) && !present.contains(apply) && !present.contains(describe) && !present.contains(abi) {
        Ok(None)
    } else if !present.contains(qa) || !present.contains(apply) {
        Err(missing_msg_v("qa-spec/apply-answers"@, reference, qa, apply))
    } else {
        Ok(
            Some(
                FixtureWizardV {
                    describe: if present.contains(describe) {
                        Some(describe)
                    } else {
                        None
                    },
                    qa_spec: qa,
                    apply_answers: apply,
                    abi: if present.contains(abi) {
                        AbiSourceV::FromFile(abi)
                    } else {
                        AbiSourceV::Fixed(WizardAbi::V6)
                    },
                },
            ),
        )
    }
}

/// The fixture wizard of a component: from its index entry when the index
/// has one, else from the files named by its fixture key.
pub open spec fn fixture_wizard_v(
    present: Seq<Seq<char>>,
    root: Seq<char>,
    index: Option<FixtureIndex>,
    reference: Seq<char>,
    mode: WizardMode,
) -> Result<Option<FixtureWizardV>, Seq<char>> {
    match index {
        Some(ix) => match entry_v(ix, reference) {
            Some(e) => indexed_wizard_v(
                present,
                component_dir_v(root, reference, e),
                reference,
                mode,
                match e.abi_version {
                    Some(a) => Some(a@),
                    None => None,
                },
            ),
            None => flat_wizard_v(present, root, reference, mode),
        },
        None => flat_wizard_v(present, root, reference, mode),
    }
}

/// The paths the choice of files looks at, for the caller to test for
/// existence.
pub open spec fn candidates_v(root: Seq<char>, index: Option<FixtureIndex>, reference: Seq<char>, mode: WizardMode) -> Seq<Seq<char>> {
    let m = mode_name(mode);
    let l = legacy_mode_v(mode);
    let entry = match index {
        Some(ix) => entry_v(ix, reference),
        None => None,
    };
    match entry {
        Some(e) => {
            let dir = component_dir_v(root, reference, e);
            seq![join_v(dir, "describe.cbor"@), join_v(dir, "qa_"@ + m + ".cbor"@), join_v(dir, "apply_"@ + m + "_config.cbor"@)]
                + opt_seq_v(opt_file_v(dir, "qa_"@, l, ".cbor"@)) + opt_seq_v(opt_file_v(dir, "apply_"@, l, "_config.cbor"@))
        },
        None => {
            let k = fixture_key_v(reference);
            seq![
                join_v(root, k + ".qa-"@ + m + ".cbor"@),
                join_v(root, k + ".qa-spec.cbor"@),
                join_v(root, k + ".apply-"@ + m + "-config.cbor"@),
                join_v(root, k + ".apply-answers.cbor"@),
                join_v(root, k + ".describe.cbor"@),
                join_v(root, k + ".abi"@),
            ] + opt_seq_v(opt_file_v(root, k + ".qa-"@, l, ".cbor"@)) + opt_seq_v(
                opt_file_v(root, k + ".apply-"@, l, "-config.cbor"@),
            )
        },
    }
}

pub open spec fn opt_seq_v(o: Option<Seq<char>>) -> Seq<Seq<char>> {
    match o {
        Some(x) => seq![x],
        None => Seq::empty(),
    }
}

pub open spec fn opt_index_v(index: Option<&FixtureIndex>) -> Option<FixtureIndex> {
    match index {
        Some(i) => Some(*i),
        None => None,
    }
}

fn file3(dir: &str, a: &str, b: &str, c: &str) -> (r: String)
    ensures
        r@ == join_v(dir@, a@ + b@ + c@),
{
    let name = concat3(a, b, c);
    join(dir, name.as_str())
}

fn opt_file(dir: &str, pre: &str, legacy: Option<&str>, post: &str) -> (r: Option<String>)
    ensures
        match r {
            Some(s) => opt_file_v(dir@, pre@, match legacy { Some(l) => Some(l@), None => None }, post@) == Some(s@),
            None => opt_file_v(dir@, pre@, match legacy { Some(l) => Some(l@), None => None }, post@) is None,
        },
{
    match legacy {
        Some(l) => Some(file3(dir, pre, l, post)),
        None => None,
    }
}

fn push_opt(v: &mut Vec<String>, o: Option<String>)
    ensures
        strs_v(final(v)@) == strs_v(old(v)@) + opt_seq_v(match o { Some(s) => Some(s@), None => None }),
{
    match o {
        Some(s) => {
            let ghost before = v@;
            v.push(s);
            proof {
                assert(strs_v(v@) =~= strs_v(before) + opt_seq_v(match o { Some(s) => Some(s@), None => None }));
            }
        },
        None => {
            assert(opt_seq_v(None) =~= Seq::<Seq<char>>::empty());
            assert(strs_v(v@) =~= strs_v(v@) + Seq::<Seq<char>>::empty());
        },
    }
}

fn find_entry<'a>(index: &'a FixtureIndex, reference: &str) -> (r: Option<&'a FixtureEntry>)
    ensures
        match r {
            Some(e) => entry_v(*index, reference@) == Some(*e),
            None => entry_v(*index, reference@) is None,
        },
{
    match get_key(&index.components, reference) {
        Some(e) => Some(e),
        None => {
            let stripped = strip_reference_scheme(reference);
            get_key(&index.components, stripped.as_str())
        },
    }
}

fn component_dir(root: &str, reference: &str, e: &FixtureEntry) -> (r: String)
    ensures
        r@ == component_dir_v(root@, reference@, *e),
{
    match &e.path {
        Some(p) => join(root, p.as_str()),
        None => {
            let c = join(root, "components");
            let k = fixture_key(reference);
            join(c.as_str(), k.as_str())
        },
    }
}

/// The paths that `fixture_wizard` looks at (see `candidates_v`).
pub fn fixture_candidates(root: &str, index: Option<&FixtureIndex>, reference: &str, mode: WizardMode) -> (r: Vec<String>)
    ensures
        strs_v(r@) == candidates_v(root@, opt_index_v(index), reference@, mode),
{
    let m = mode.as_str();
    let l = legacy_mode(mode);
    let entry = match index {
        Some(ix) => find_entry(ix, reference),
        None => None,
    };
    let mut out: Vec<String> = Vec::new();
    match entry {
        Some(e) => {
            let dir = component_dir(root, reference, e);
            out.push(join(dir.as_str(), "describe.cbor"));
            out.push(file3(dir.as_str(), "qa_", m, ".cbor"));
            out.push(file3(dir.as_str(), "apply_", m, "_config.cbor"));
            let ghost base = strs_v(out@);
            proof {
                assert(base =~= seq![out@[0]@, out@[1]@, out@[2]@]);
            }
            push_opt(&mut out, opt_file(dir.as_str(), "qa_", l, ".cbor"));
            push_opt(&mut out, opt_file(dir.as_str(), "apply_", l, "_config.cbor"));
        },
        None => {
            let k = fixture_key(reference);
            let kq = concat(k.as_str(), ".qa-");
            let ka = concat(k.as_str(), ".apply-");
            out.push(file3(root, k.as_str(), ".qa-", concat(m, ".cbor").as_str()));
            out.push(join(root, concat(k.as_str(), ".qa-spec.cbor").as_str()));
            out.push(file3(root, k.as_str(), ".apply-", concat(m, "-config.cbor").as_str()));
            out.push(join(root, concat(k.as_str(), ".apply-answers.cbor").as_str()));
            out.push(join(root, concat(k.as_str(), ".describe.cbor").as_str()));
            out.push(join(root, concat(k.as_str(), ".abi").as_str()));
            proof {
                let kv = k@;
                assert(kv + ".qa-"@ + (m@ + ".cbor"@) =~= kv + ".qa-"@ + m@ + ".cbor"@);
                assert(kv + ".apply-"@ + (m@ + "-config.cbor"@) =~= kv + ".apply-"@ + m@ + "-config.cbor"@);
            }
            push_opt(&mut out, opt_file(root, kq.as_str(), l, ".cbor"));
            push_opt(&mut out, opt_file(root, ka.as_str(), l, "-config.cbor"));
        },
    }
    proof {
        assert(strs_v(out@) =~= candidates_v(root@, opt_index_v(index), reference@, mode));
    }
    out
}

fn missing_msg(what: &str, reference: &str, a: &str, b: &str) -> (r: String)
    ensures
        r@ == missing_msg_v(what@, reference@, a@, b@),
{
    let x = concat3("fixture wizard missing ", what, " for ");
    let y = concat3(x.as_str(), reference, " (expected ");
    let z = concat3(y.as_str(), a, " and ");
    let r = concat3(z.as_str(), b, ")");
    proof {
        assert(r@ =~= missing_msg_v(what@, reference@, a@, b@));
    }
    r
}

fn missing_describe_msg(reference: &str, d: &str) -> (r: String)
    ensures
        r@ == missing_describe_msg_v(reference@, d@),
{
    let x = concat3("fixture wizard missing describe for ", reference, " (expected ");
    let r = concat3(x.as_str(), d, ")");
    proof {
        assert(r@ =~= missing_describe_msg_v(reference@, d@));
    }
    r
}

fn indexed_file(present: &Vec<String>, own: String, legacy: Option<String>) -> (r: String)
    ensures
        r@ == indexed_file_v(strs_v(present@), own@, match legacy { Some(l) => Some(l@), None => None }),
{
    if contains_text(present, own.as_str()) {
        own
    } else {
        match legacy {
            Some(l) => l,
            None => own,
        }
    }
}

fn flat_file(present: &Vec<String>, own: String, legacy: Option<String>, plain: String) -> (r: String)
    ensures
        r@ == flat_file_v(strs_v(present@), own@, match legacy { Some(l) => Some(l@), None => None }, plain@),
{
    if contains_text(present, own.as_str()) {
        return own;
    }
    match legacy {
        Some(l) => {
            if contains_text(present, l.as_str()) {
                return l;
            }
        },
        None => {},
    }
    plain
}

fn indexed_wizard(present: &Vec<String>, dir: &str, reference: &str, mode: WizardMode, abi_version: &Option<String>) -> (r: Result<
    Option<FixtureWizard>,
    String,
>)
    ensures
        match r {
            Ok(Some(w)) => indexed_wizard_v(strs_v(present@), dir@, reference@, mode, match abi_version { Some(a) => Some(a@), None => None })
                == Ok::<Option<FixtureWizardV>, Seq<char>>(Some(w@)),
            Ok(None) => indexed_wizard_v(strs_v(present@), dir@, reference@, mode, match abi_version { Some(a) => Some(a@), None => None })
                == Ok::<Option<FixtureWizardV>, Seq<char>>(None),
            Err(m) => indexed_wizard_v(strs_v(present@), dir@, reference@, mode, match abi_version { Some(a) => Some(a@), None => None })
                == Err::<Option<FixtureWizardV>, Seq<char>>(m@),
        },
{
    let m = mode.as_str();
    let l = legacy_mode(mode);
    let describe = join(dir, "describe.cbor");
    let qa = indexed_file(present, file3(dir, "qa_", m, ".cbor"), opt_file(dir, "qa_", l, ".cbor"));
    let apply = indexed_file(present, file3(dir, "apply_", m, "_config.cbor"), opt_file(dir, "apply_", l, "_config.cbor"));
    if !contains_text(present, qa.as_str()) || !contains_text(present, apply.as_str()) {
        return Err(missing_msg("qa/apply", reference, qa.as_str(), apply.as_str()));
    }
    if !contains_text(present, describe.as_str()) {
        return Err(missing_describe_msg(reference, describe.as_str()));
    }
    let legacy_abi = match abi_version {
        Some(a) => crate::text::str_eq(a.as_str(), "0.5.0"),
        None => false,
    };
    proof {
        reveal_strlit("0.5.0");
    }
    let abi = if legacy_abi {
        WizardAbi::Legacy
    } else {
        WizardAbi::V6
    };
    Ok(Some(FixtureWizard { describe: Some(describe), qa_spec: qa, apply_answers: apply, abi: AbiSource::Fixed(abi) }))
}

fn flat_wizard(present: &Vec<String>, root: &str, reference: &str, mode: WizardMode) -> (r: Result<Option<FixtureWizard>, String>)
    ensures
        match r {
            Ok(Some(w)) => flat_wizard_v(strs_v(present@), root@, reference@, mode) == Ok::<Option<FixtureWizardV>, Seq<char>>(
                Some(w@),
            ),
            Ok(None) => flat_wizard_v(strs_v(present@), root@, reference@, mode) == Ok::<Option<FixtureWizardV>, Seq<char>>(None),
            Err(m) => flat_wizard_v(strs_v(present@), root@, reference@, mode) == Err::<Option<FixtureWizardV>, Seq<char>>(m@),
        },
{
    let m = mode.as_str();
    let l = legacy_mode(mode);
    let k = fixture_key(reference);
    let kq = concat(k.as_str(), ".qa-");
    let ka = concat(k.as_str(), ".apply-");
    let qa = flat_file(
        present,
        file3(root, kq.as_str(), m, ".cbor"),
        opt_file(root, kq.as_str(), l, ".cbor"),
        join(root, concat(k.as_str(), ".qa-spec.cbor").as_str()),
    );
    let apply = flat_file(
        present,
        file3(root, ka.as_str(), m, "-config.cbor"),
        opt_file(root, ka.as_str(), l, "-config.cbor"),
        join(root, concat(k.as_str(), ".apply-answers.cbor").as_str()),
    );
    let describe = join(root, concat(k.as_str(), ".describe.cbor").as_str());
    let abi = join(root, concat(k.as_str(), ".abi").as_str());
    let has_qa = contains_text(present, qa.as_str());
    let has_apply = contains_text(present, apply.as_str());
    let has_describe = contains_text(present, describe.as_str());
    let has_abi = contains_text(present, abi.as_str());
    if !has_qa && !has_apply && !has_describe && !has_abi {
        return Ok(None);
    }
    if !has_qa || !has_apply {
        return Err(missing_msg("qa-spec/apply-answers", reference, qa.as_str(), apply.as_str()));
    }
    let d = if has_describe {
        Some(describe)
    } else {
        None
    };
    let a = if has_abi {
        AbiSource::FromFile(abi)
    } else {
        AbiSource::Fixed(WizardAbi::V6)
    };
    Ok(Some(FixtureWizard { describe: d, qa_spec: qa, apply_answers: apply, abi: a }))
}

/// The files of a component's fixture wizard (see `fixture_wizard_v`), given
/// which of the candidate paths exist.
pub fn fixture_wizard(present: &Vec<String>, root: &str, index: Option<&FixtureIndex>, reference: &str, mode: WizardMode) -> (r: Result<
    Option<FixtureWizard>,
    String,
>)
    ensures
        match r {
            Ok(Some(w)) => fixture_wizard_v(strs_v(present@), root@, opt_index_v(index), reference@, mode)
                == Ok::<Option<FixtureWizardV>, Seq<char>>(Some(w@)),
            Ok(None) => fixture_wizard_v(strs_v(present@), root@, opt_index_v(index), reference@, mode)
                == Ok::<Option<FixtureWizardV>, Seq<char>>(None),
            Err(m) => fixture_wizard_v(strs_v(present@), root@, opt_index_v(index), reference@, mode)
                == Err::<Option<FixtureWizardV>, Seq<char>>(m@),
        },
{
    let entry = match index {
        Some(ix) => find_entry(ix, reference),
        None => None,
    };
    match entry {
        Some(e) => {
            let dir = component_dir(root, reference, e);
            indexed_wizard(present, dir.as_str(), reference, mode, &e.abi_version)
        },
        None => flat_wizard(present, root, reference, mode),
    }
}

/// The wizard ABI that an `.abi` fixture file names.
pub fn abi_from_text(text: &str) -> (r: WizardAbi)
    ensures
        r == (if trim_seq(text@) == "0.5.0"@ {
            WizardAbi::Legacy
        } else {
            WizardAbi::V6
        }),
{
    let t = trim(text);
    if crate::text::str_eq(t.as_str(), "0.5.0") {
        WizardAbi::Legacy
    } else {
        WizardAbi::V6
    }
}

} // verus!
