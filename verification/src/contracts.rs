//! Component contracts: the hashes that pin a component's description, the
//! hex-encoded schema stored in flow metadata, and the checks that a flow's
//! component nodes carry their contract metadata.
use vstd::prelude::*;
use crate::assoc::{seq_lt, str_lt, lemma_lt_asym, lemma_lt_irrefl, lemma_lt_trans};
use crate::flow_meta::components_of;
use crate::json::{JsonValue, JsonV, Entries, obj_get_v, has_key, obj_get, obj_has, deep_clone};
use crate::model::opt_jv;
use crate::schema_validate::{SchemaDiagnostic, Severity, DiagV, diags_v, SchemaIr, CborValue, validate_v, validate_value_against_schema};
use crate::flow_ir::{FlowIr, NodeKind, NodeKindV, NodeIrV, ir_nodes_v};
use crate::text::{bytes_to_hex, concat, concat3, hex_of, str_eq, trim, trim_seq};

verus! {

// ---------------------------------------------------------------------------
// Hashes
// ---------------------------------------------------------------------------

/// The SHA-256 digest of some bytes.
pub uninterp spec fn sha256_v(bytes: Seq<u8>) -> Seq<u8>;

/// `sha2::Sha256::digest`: the digest, 32 bytes long, named rather than
/// stated.
#[verifier::external_body]
fn sha256(bytes: &Vec<u8>) -> (r: Vec<u8>)
    ensures
        r@ == sha256_v(bytes@),
        r@.len() == 32,
{
    <sha2::Sha256 as sha2::Digest>::digest(bytes.as_slice()).to_vec()
}

/// The describe hash of a component: the lower-case hex SHA-256 of the
/// canonical CBOR encoding of its description.
pub fn describe_hash(canonical_cbor: &Vec<u8>) -> (r: String)
    ensures
        r@ == hex_of(sha256_v(canonical_cbor@)),
        r@.len() == 64,
{
    let digest = sha256(canonical_cbor);
    proof {
        crate::text::lemma_hex_len(digest@);
    }
    bytes_to_hex(&digest)
}

/// The digest of a local wasm file's bytes: `sha256:` and the hex digest.
pub fn local_digest(data: &Vec<u8>) -> (r: String)
    ensures
        r@ == "sha256:"@ + hex_of(sha256_v(data@)),
{
    let digest = sha256(data);
    concat("sha256:", bytes_to_hex(&digest).as_str())
}

/// The position of an operation in a description's operation list.
pub fn find_operation(operation_ids: &Vec<String>, operation_id: &str) -> (r: Result<usize, String>)
    ensures
        match r {
            Ok(i) => i < operation_ids@.len() && operation_ids@[i as int]@ == operation_id@
                && forall|j: int| 0 <= j < i ==> (#[trigger] operation_ids@[j])@ != operation_id@,
            Err(m) => m@ == "operation '"@ + operation_id@ + "' not found in describe() payload"@
                && forall|j: int| 0 <= j < operation_ids@.len() ==> (#[trigger] operation_ids@[j])@ != operation_id@,
        },
{
    let mut i: usize = 0;
    while i < operation_ids.len()
        invariant
            i <= operation_ids.len(),
            forall|j: int| 0 <= j < i ==> (#[trigger] operation_ids@[j])@ != operation_id@,
        decreases operation_ids.len() - i,
    {
        if str_eq(operation_ids[i].as_str(), operation_id) {
            return Ok(i);
        }
        i = i + 1;
    }
    Err(concat3("operation '", operation_id, "' not found in describe() payload"))
}

// ---------------------------------------------------------------------------
// Hex decoding
// ---------------------------------------------------------------------------

/// The UTF-8 length of a character.
pub open spec fn utf8_len(c: char) -> nat {
    if (c as u32) < 0x80 {
        1
    } else if (c as u32) < 0x800 {
        2
    } else if (c as u32) < 0x10000 {
        3
    } else {
        4
    }
}

/// The UTF-8 length of a text.
pub open spec fn byte_len(s: Seq<char>) -> nat
    decreases s.len(),
{
    if s.len() == 0 {
        0
    } else {
        byte_len(s.drop_last()) + utf8_len(s.last())
    }
}

pub open spec fn hex_val(c: char) -> Option<u8> {
    if '0' <= c && c <= '9' {
        Some((c as u32 - '0' as u32) as u8)
    } else if 'a' <= c && c <= 'f' {
        Some((c as u32 - 'a' as u32 + 10) as u8)
    } else if 'A' <= c && c <= 'F' {
        Some((c as u32 - 'A' as u32 + 10) as u8)
    } else {
        None
    }
}

/// Two characters read as a base-16 byte, as `u8::from_str_radix` reads
/// them (a leading `+` is a sign).
pub open spec fn hex_pair(hi: char, lo: char) -> Option<u8> {
    if hi == '+' {
        hex_val(lo)
    } else {
        match (hex_val(hi), hex_val(lo)) {
            (Some(h), Some(l)) => Some((h * 16 + l) as u8),
            _ => None,
        }
    }
}

pub open spec fn hex_pairs(t: Seq<char>) -> Option<Seq<u8>>
    decreases t.len(),
{
    if t.len() < 2 {
        Some(Seq::empty())
    } else {
        match hex_pair(t[0], t[1]) {
            None => None,
            Some(b) => match hex_pairs(t.skip(2)) {
                None => None,
                Some(rest) => Some(seq![b] + rest),
            },
        }
    }
}

/// Hex text (around white space) as bytes: refused when its UTF-8 length is
/// odd or a pair is not a base-16 byte.
pub open spec fn hex_bytes_v(hex: Seq<char>) -> Result<Seq<u8>, Seq<char>> {
    let t = trim_seq(hex);
    if byte_len(t) % 2 == 1 {
        Err("hex payload has odd length"@)
    } else {
        match hex_pairs(t) {
            Some(b) => Ok(b),
            None => Err("decode hex: invalid digit found in string"@),
        }
    }
}

fn utf8_len_of(c: char) -> (r: u64)
    ensures
        r == utf8_len(c),
{
    let u = c as u32;
    if u < 0x80 {
        1
    } else if u < 0x800 {
        2
    } else if u < 0x10000 {
        3
    } else {
        4
    }
}

fn hex_val_of(c: char) -> (r: Option<u8>)
    ensures
        r == hex_val(c),
{
    if '0' <= c && c <= '9' {
        Some((c as u32 - '0' as u32) as u8)
    } else if 'a' <= c && c <= 'f' {
        Some((c as u32 - 'a' as u32 + 10) as u8)
    } else if 'A' <= c && c <= 'F' {
        Some((c as u32 - 'A' as u32 + 10) as u8)
    } else {
        None
    }
}

fn hex_pair_of(hi: char, lo: char) -> (r: Option<u8>)
    ensures
        r == hex_pair(hi, lo),
{
    if hi == '+' {
        hex_val_of(lo)
    } else {
        match (hex_val_of(hi), hex_val_of(lo)) {
            (Some(h), Some(l)) => Some(h * 16 + l),
            _ => None,
        }
    }
}

proof fn lemma_hex_pairs_step(t: Seq<char>, i: int)
    requires
        0 <= i,
        i + 2 <= t.len(),
    ensures
        hex_pairs(t.skip(i)) == match hex_pair(t[i], t[i + 1]) {
            None => None,
            Some(b) => match hex_pairs(t.skip(i + 2)) {
                None => None::<Seq<u8>>,
                Some(rest) => Some(seq![b] + rest),
            },
        },
{
    assert(t.skip(i).skip(2) =~= t.skip(i + 2));
    assert(t.skip(i)[0] == t[i]);
    assert(t.skip(i)[1] == t[i + 1]);
}

/// Decodes hex text into bytes. A text of even UTF-8 length but an odd
/// number of characters is outside its domain.
pub fn hex_to_bytes(hex: &str) -> (r: Result<Vec<u8>, String>)
    requires
        byte_len(trim_seq(hex@)) % 2 == 0 ==> trim_seq(hex@).len() % 2 == 0,
    ensures
        match r {
            Ok(b) => hex_bytes_v(hex@) == Ok::<Seq<u8>, Seq<char>>(b@),
            Err(m) => hex_bytes_v(hex@) == Err::<Seq<u8>, Seq<char>>(m@),
        },
{
    let trimmed = trim(hex);
    let n = trimmed.as_str().unicode_len();
    let mut len: u64 = 0;
    let mut k: usize = 0;
    while k < n
        invariant
            k <= n,
            n == trimmed@.len(),
            len == byte_len(trimmed@.subrange(0, k as int)) % 2,
        decreases n - k,
    {
        let c = trimmed.as_str().get_char(k);
        let w = utf8_len_of(c);
        proof {
            let sub = trimmed@.subrange(0, k + 1);
            assert(sub.drop_last() =~= trimmed@.subrange(0, k as int));
            assert(sub.last() == c);
        }
        len = (len + w) % 2;
        k = k + 1;
    }
    assert(trimmed@.subrange(0, n as int) =~= trimmed@);
    if len == 1 {
        return Err(String::from_str("hex payload has odd length"));
    }
    let ghost t = trimmed@;
    let mut out: Vec<u8> = Vec::new();
    let mut idx: usize = 0;
    while idx < n
        invariant
            t == trimmed@,
            t == trim_seq(hex@),
            byte_len(t) % 2 == 0,
            n == t.len(),
            n % 2 == 0,
            idx % 2 == 0,
            idx <= n,
            hex_pairs(t) == match hex_pairs(t.skip(idx as int)) {
                None => None,
                Some(rest) => Some(out@ + rest),
            },
        decreases n - idx,
    {
        let hi = trimmed.as_str().get_char(idx);
        let lo = trimmed.as_str().get_char(idx + 1);
        proof {
            lemma_hex_pairs_step(t, idx as int);
        }
        match hex_pair_of(hi, lo) {
            Some(b) => {
                let ghost before = out@;
                out.push(b);
                proof {
                    match hex_pairs(t.skip(idx + 2)) {
                        None => {},
                        Some(rest) => {
                            assert(before + (seq![b] + rest) =~= out@ + rest);
                        },
                    }
                }
            },
            None => {
                return Err(String::from_str("decode hex: invalid digit found in string"));
            },
        }
        idx = idx + 2;
    }
    assert(t.skip(n as int).len() == 0);
    assert(out@ + Seq::<u8>::empty() =~= out@);
    Ok(out)
}

// ---------------------------------------------------------------------------
// Contract metadata checks
// ---------------------------------------------------------------------------

#[derive(PartialEq, Eq, Structural, Clone, Copy, Debug)]
pub enum ContractSeverity {
    Error,
    Warning,
}

/// A finding of contract validation for one node.
#[derive(Debug)]
pub struct ContractDiagnostic {
    pub code: String,
    pub severity: ContractSeverity,
    pub message: String,
    pub node_id: String,
}

pub struct ContractDiagV {
    pub code: Seq<char>,
    pub severity: ContractSeverity,
    pub message: Seq<char>,
    pub node_id: Seq<char>,
}

impl View for ContractDiagnostic {
    type V = ContractDiagV;

    open spec fn view(&self) -> ContractDiagV {
        ContractDiagV { code: self.code@, severity: self.severity, message: self.message@, node_id: self.node_id@ }
    }
}

pub open spec fn cdiags_v(ds: Seq<ContractDiagnostic>) -> Seq<ContractDiagV> {
    ds.map_values(|d: ContractDiagnostic| d@)
}

/// Whether a node's payload is a component's: it names a component or a
/// config, or holds a `component.exec` object.
pub open spec fn looks_like_component_v(payload: JsonV) -> bool {
    match payload {
        JsonV::Object(m) => if has_key(m, "component"@) || has_key(m, "config"@) {
            true
        } else {
            match obj_get_v(m, "component.exec"@) {
                Some(exec) => exec is Object,
                None => false,
            }
        },
        _ => false,
    }
}

pub fn node_payload_looks_like_component(payload: &JsonValue) -> (r: bool)
    ensures
        r == looks_like_component_v(payload@),
{
    match payload {
        JsonValue::Object(m) => {
            if obj_has(m, "component") || obj_has(m, "config") {
                return true;
            }
            match obj_get(m, "component.exec") {
                Some(JsonValue::Object(_)) => true,
                _ => false,
            }
        },
        _ => false,
    }
}

/// A component payload's config: its `config` field, or the whole payload.
pub open spec fn config_value_v(payload: JsonV) -> JsonV {
    match payload {
        JsonV::Object(m) => match obj_get_v(m, "config"@) {
            Some(c) => c,
            None => payload,
        },
        _ => payload,
    }
}

pub fn extract_config_value(payload: &JsonValue) -> (r: JsonValue)
    ensures
        r@ == config_value_v(payload@),
{
    if let JsonValue::Object(m) = payload {
        if let Some(c) = obj_get(m, "config") {
            return deep_clone(c);
        }
    }
    deep_clone(payload)
}

/// The contract entry of a node in the flow metadata.
pub open spec fn contract_entry_v(meta: Option<JsonV>, node_id: Seq<char>) -> Option<Entries> {
    match components_of(meta) {
        Some(c) => match obj_get_v(c, node_id) {
            Some(JsonV::Object(e)) => Some(e),
            _ => None,
        },
        None => None,
    }
}

/// What contract validation does next for a node, after its metadata
/// checks: nothing, check the config against the schema stored as hex, or
/// fetch the component's description for an operation.
#[derive(Debug)]
pub enum ContractStep {
    Done,
    CheckStoredSchema(String),
    Online(String),
}

pub enum ContractStepV {
    Done,
    CheckStoredSchema(Seq<char>),
    Online(Seq<char>),
}

impl View for ContractStep {
    type V = ContractStepV;

    open spec fn view(&self) -> ContractStepV {
        match self {
            ContractStep::Done => ContractStepV::Done,
            ContractStep::CheckStoredSchema(h) => ContractStepV::CheckStoredSchema(h@),
            ContractStep::Online(op) => ContractStepV::Online(op@),
        }
    }
}

pub open spec fn cdiag(code: Seq<char>, severity: ContractSeverity, message: Seq<char>, node_id: Seq<char>) -> ContractDiagV {
    ContractDiagV { code, severity, message, node_id }
}

pub open spec fn field_present(e: Entries, field: Seq<char>) -> bool {
    obj_get_v(e, field) matches Some(JsonV::Str(_))
}

/// One diagnostic per contract field that the entry lacks as text.
pub open spec fn missing_fields_v(e: Entries, node_id: Seq<char>) -> Seq<ContractDiagV> {
    let miss = |f: Seq<char>|
        if field_present(e, f) {
            Seq::<ContractDiagV>::empty()
        } else {
            seq![cdiag("FLOW_MISSING_METADATA"@, ContractSeverity::Error, "missing required metadata field '"@ + f + "'"@, node_id)]
        };
    miss("describe_hash"@) + miss("schema_hash"@) + miss("operation_id"@)
}

/// The metadata checks of one node and the step that follows them.
pub open spec fn node_contract_v(meta: Option<JsonV>, node_id: Seq<char>, payload: JsonV, online: bool) -> (
    Seq<ContractDiagV>,
    ContractStepV,
) {
    if !looks_like_component_v(payload) {
        (Seq::empty(), ContractStepV::Done)
    } else {
        match contract_entry_v(meta, node_id) {
            None => (
                seq![cdiag("FLOW_MISSING_METADATA"@, ContractSeverity::Error, "missing component contract metadata"@, node_id)],
                ContractStepV::Done,
            ),
            Some(e) => {
                let d = missing_fields_v(e, node_id);
                if !online {
                    match obj_get_v(e, "config_schema_cbor"@) {
                        Some(JsonV::Str(h)) => (d, ContractStepV::CheckStoredSchema(h)),
                        _ => (
                            d + seq![
                                cdiag(
                                    "FLOW_SCHEMA_MISSING"@,
                                    ContractSeverity::Warning,
                                    "missing stored config schema for offline validation"@,
                                    node_id,
                                ),
                            ],
                            ContractStepV::Done,
                        ),
                    }
                } else {
                    match obj_get_v(e, "operation_id"@) {
                        Some(JsonV::Str(op)) => (d, ContractStepV::Online(op)),
                        _ => (d, ContractStepV::Done),
                    }
                }
            },
        }
    }
}

fn push_cdiag(ds: &mut Vec<ContractDiagnostic>, code: &str, severity: ContractSeverity, message: String, node_id: &str)
    ensures
        cdiags_v(final(ds)@) == cdiags_v(old(ds)@).push(cdiag(code@, severity, message@, node_id@)),
{
    let d = ContractDiagnostic { code: String::from_str(code), severity, message, node_id: String::from_str(node_id) };
    let ghost before = ds@;
    ds.push(d);
    assert(cdiags_v(ds@) =~= cdiags_v(before).push(d@));
}

fn check_field(e: &Vec<(String, JsonValue)>, field: &str, node_id: &str, ds: &mut Vec<ContractDiagnostic>)
    ensures
        cdiags_v(final(ds)@) == cdiags_v(old(ds)@) + if field_present(crate::json::ev(e@), field@) {
            Seq::<ContractDiagV>::empty()
        } else {
            seq![
                cdiag(
                    "FLOW_MISSING_METADATA"@,
                    ContractSeverity::Error,
                    "missing required metadata field '"@ + field@ + "'"@,
                    node_id@,
                ),
            ]
        },
{
    let present = match obj_get(e, field) {
        Some(JsonValue::String(_)) => true,
        _ => false,
    };
    if !present {
        push_cdiag(ds, "FLOW_MISSING_METADATA", ContractSeverity::Error, concat3("missing required metadata field '", field, "'"), node_id);
        assert(cdiags_v(ds@) =~= cdiags_v(old(ds)@) + seq![
            cdiag("FLOW_MISSING_METADATA"@, ContractSeverity::Error, "missing required metadata field '"@ + field@ + "'"@, node_id@),
        ]);
    } else {
        assert(cdiags_v(ds@) =~= cdiags_v(old(ds)@) + Seq::<ContractDiagV>::empty());
    }
}

/// Checks a node's contract metadata: a component node needs an entry with
/// its describe hash, schema hash and operation as text; offline, a stored
/// config schema is expected too.
pub fn check_node_contract(meta: &Option<JsonValue>, node_id: &str, payload: &JsonValue, online: bool) -> (r: (
    Vec<ContractDiagnostic>,
    ContractStep,
))
    ensures
        node_contract_v(opt_jv(*meta), node_id@, payload@, online) == (cdiags_v(r.0@), r.1@),
{
    let mut ds: Vec<ContractDiagnostic> = Vec::new();
    assert(cdiags_v(ds@) =~= Seq::<ContractDiagV>::empty());
    if !node_payload_looks_like_component(payload) {
        return (ds, ContractStep::Done);
    }
    proof {
        reveal_strlit("greentic");
    }
    let entry = match meta {
        Some(JsonValue::Object(root)) => match obj_get(root, crate::flow_meta::META_NAMESPACE) {
            Some(JsonValue::Object(g)) => match obj_get(g, "components") {
                Some(JsonValue::Object(c)) => match obj_get(c, node_id) {
                    Some(JsonValue::Object(e)) => Some(e),
                    _ => None,
                },
                _ => None,
            },
            _ => None,
        },
        _ => None,
    };
    let e = match entry {
        Some(e) => e,
        None => {
            push_cdiag(
                &mut ds,
                "FLOW_MISSING_METADATA",
                ContractSeverity::Error,
                String::from_str("missing component contract metadata"),
                node_id,
            );
            assert(cdiags_v(ds@) =~= seq![
                cdiag("FLOW_MISSING_METADATA"@, ContractSeverity::Error, "missing component contract metadata"@, node_id@),
            ]);
            return (ds, ContractStep::Done);
        },
    };
    check_field(e, "describe_hash", node_id, &mut ds);
    check_field(e, "schema_hash", node_id, &mut ds);
    check_field(e, "operation_id", node_id, &mut ds);
    let ghost ev_e = crate::json::ev(e@);
    assert(cdiags_v(ds@) =~= missing_fields_v(ev_e, node_id@));
    if !online {
        match obj_get(e, "config_schema_cbor") {
            Some(JsonValue::String(h)) => (ds, ContractStep::CheckStoredSchema(h.clone())),
            _ => {
                push_cdiag(
                    &mut ds,
                    "FLOW_SCHEMA_MISSING",
                    ContractSeverity::Warning,
                    String::from_str("missing stored config schema for offline validation"),
                    node_id,
                );
                (ds, ContractStep::Done)
            },
        }
    } else {
        match obj_get(e, "operation_id") {
            Some(JsonValue::String(op)) => (ds, ContractStep::Online(op.clone())),
            _ => (ds, ContractStep::Done),
        }
    }
}

/// The findings of validating a node's config against its schema, as
/// contract findings of the node.
pub fn schema_findings_for_node(diags: Vec<SchemaDiagnostic>, node_id: &str) -> (r: Vec<ContractDiagnostic>)
    ensures
        cdiags_v(r@) == diags_v(diags@).map_values(
            |d: DiagV|
                cdiag(
                    d.code,
                    match d.severity {
                        Severity::Error => ContractSeverity::Error,
                        Severity::Warning => ContractSeverity::Warning,
                    },
                    d.message,
                    node_id@,
                ),
        ),
{
    let ghost src = diags_v(diags@);
    let mut out: Vec<ContractDiagnostic> = Vec::new();
    let mut rest = diags;
    let mut i: usize = 0;
    let n = rest.len();
    while i < n
        invariant
            i <= n,
            n == src.len(),
            rest@.len() == n,
            forall|k: int| i <= k < n ==> (#[trigger] rest@[k])@ == src[k],
            cdiags_v(out@) == src.subrange(0, i as int).map_values(
                |d: DiagV|
                    cdiag(
                        d.code,
                        match d.severity {
                            Severity::Error => ContractSeverity::Error,
                            Severity::Warning => ContractSeverity::Warning,
                        },
                        d.message,
                        node_id@,
                    ),
            ),
        decreases n - i,
    {
        let d = &rest[i];
        let severity = match d.severity {
            Severity::Error => ContractSeverity::Error,
            Severity::Warning => ContractSeverity::Warning,
        };
        let c = ContractDiagnostic {
            code: d.code.clone(),
            severity,
            message: d.message.clone(),
            node_id: String::from_str(node_id),
        };
        let ghost before = out@;
        out.push(c);
        proof {
            assert(src.subrange(0, i + 1) =~= src.subrange(0, i as int).push(src[i as int]));
            assert(cdiags_v(out@) =~= cdiags_v(before).push(c@));
        }
        i = i + 1;
    }
    assert(src.subrange(0, n as int) =~= src);
    out
}

/// A stored schema that could not be read: its hex (`decode`) or its CBOR
/// (`parse`), with the reason.
pub fn stored_schema_failure(node_id: &str, parse: bool, reason: &str) -> (r: ContractDiagnostic)
    ensures
        r@ == cdiag(
            "FLOW_SCHEMA_DECODE"@,
            ContractSeverity::Error,
            (if parse { "failed to parse stored config schema: "@ } else { "failed to decode stored config schema: "@ }) + reason@,
            node_id@,
        ),
{
    let message = if parse {
        concat("failed to parse stored config schema: ", reason)
    } else {
        concat("failed to decode stored config schema: ", reason)
    };
    ContractDiagnostic {
        code: String::from_str("FLOW_SCHEMA_DECODE"),
        severity: ContractSeverity::Error,
        message,
        node_id: String::from_str(node_id),
    }
}

/// Online drift findings: a stored describe hash or schema hash that differs
/// from the one computed now.
pub open spec fn drift_v(entry: Entries, describe_hash: Seq<char>, schema_hash: Seq<char>, node_id: Seq<char>) -> Seq<
    ContractDiagV,
> {
    (match obj_get_v(entry, "describe_hash"@) {
        Some(JsonV::Str(s)) => if s != describe_hash {
            seq![cdiag("FLOW_CONTRACT_DRIFT"@, ContractSeverity::Error, "describe_hash mismatch (contract drift)"@, node_id)]
        } else {
            Seq::empty()
        },
        _ => Seq::empty(),
    }) + (match obj_get_v(entry, "schema_hash"@) {
        Some(JsonV::Str(s)) => if s != schema_hash {
            seq![cdiag("FLOW_SCHEMA_HASH_MISMATCH"@, ContractSeverity::Error, "schema_hash mismatch"@, node_id)]
        } else {
            Seq::empty()
        },
        _ => Seq::empty(),
    })
}

pub fn drift_findings(entry: &Vec<(String, JsonValue)>, describe_hash: &str, schema_hash: &str, node_id: &str) -> (r: Vec<
    ContractDiagnostic,
>)
    ensures
        cdiags_v(r@) == drift_v(crate::json::ev(entry@), describe_hash@, schema_hash@, node_id@),
{
    let mut ds: Vec<ContractDiagnostic> = Vec::new();
    let ghost e = crate::json::ev(entry@);
    if let Some(JsonValue::String(s)) = obj_get(entry, "describe_hash") {
        if !str_eq(s.as_str(), describe_hash) {
            push_cdiag(&mut ds, "FLOW_CONTRACT_DRIFT", ContractSeverity::Error, String::from_str("describe_hash mismatch (contract drift)"), node_id);
        }
    }
    let ghost first = cdiags_v(ds@);
    if let Some(JsonValue::String(s)) = obj_get(entry, "schema_hash") {
        if !str_eq(s.as_str(), schema_hash) {
            push_cdiag(&mut ds, "FLOW_SCHEMA_HASH_MISMATCH", ContractSeverity::Error, String::from_str("schema_hash mismatch"), node_id);
        }
    }
    assert(cdiags_v(ds@) =~= drift_v(e, describe_hash@, schema_hash@, node_id@));
    ds
}


// ---------------------------------------------------------------------------
// Reporting order
// ---------------------------------------------------------------------------

pub open spec fn rank(s: ContractSeverity) -> int {
    match s {
        ContractSeverity::Error => 0,
        ContractSeverity::Warning => 1,
    }
}

/// The report order: by node, then errors before warnings, then by code.
pub open spec fn report_lt(a: ContractDiagV, b: ContractDiagV) -> bool {
    seq_lt(a.node_id, b.node_id) || (a.node_id == b.node_id && (rank(a.severity) < rank(b.severity) || (rank(a.severity)
        == rank(b.severity) && seq_lt(a.code, b.code))))
}

pub open spec fn report_sorted(ds: Seq<ContractDiagV>) -> bool {
    forall|i: int, j: int| 0 <= i < j < ds.len() ==> !report_lt(#[trigger] ds[j], #[trigger] ds[i])
}

proof fn lemma_report_lt_trans(a: ContractDiagV, b: ContractDiagV, c: ContractDiagV)
    requires
        report_lt(a, b),
        report_lt(b, c),
    ensures
        report_lt(a, c),
{
    if seq_lt(a.node_id, b.node_id) && seq_lt(b.node_id, c.node_id) {
        lemma_lt_trans(a.node_id, b.node_id, c.node_id);
    }
    if a.node_id == b.node_id && b.node_id == c.node_id && seq_lt(a.code, b.code) && seq_lt(b.code, c.code) {
        lemma_lt_trans(a.code, b.code, c.code);
    }
}

proof fn lemma_report_lt_asym(a: ContractDiagV, b: ContractDiagV)
    requires
        report_lt(a, b),
    ensures
        !report_lt(b, a),
{
    if seq_lt(a.node_id, b.node_id) {
        lemma_lt_asym(a.node_id, b.node_id);
        lemma_lt_irrefl(a.node_id);
    } else if seq_lt(a.code, b.code) {
        lemma_lt_asym(a.code, b.code);
        lemma_lt_irrefl(a.node_id);
    } else {
        lemma_lt_irrefl(a.node_id);
    }
}

fn report_less(a: &ContractDiagnostic, b: &ContractDiagnostic) -> (r: bool)
    ensures
        r == report_lt(a@, b@),
{
    if str_lt(a.node_id.as_str(), b.node_id.as_str()) {
        return true;
    }
    if !str_eq(a.node_id.as_str(), b.node_id.as_str()) {
        return false;
    }
    let ra: u8 = match a.severity {
        ContractSeverity::Error => 0,
        ContractSeverity::Warning => 1,
    };
    let rb: u8 = match b.severity {
        ContractSeverity::Error => 0,
        ContractSeverity::Warning => 1,
    };
    ra < rb || (ra == rb && str_lt(a.code.as_str(), b.code.as_str()))
}

/// Orders findings for reporting: by node, errors first, then by code; the
/// findings are the same, each as often as before.
/// Where a finding goes in a sorted list, looking from position `k`: before
/// the first finding that it orders before, else last.
pub open spec fn insert_pos_v(s: Seq<ContractDiagV>, d: ContractDiagV, k: int) -> int
    decreases s.len() - k,
{
    if k >= s.len() || k < 0 {
        s.len() as int
    } else if report_lt(d, s[k]) {
        k
    } else {
        insert_pos_v(s, d, k + 1)
    }
}

/// The stable sort of findings: each one, in order, inserted after every
/// finding it does not order before.
pub open spec fn stable_sort_v(ds: Seq<ContractDiagV>) -> Seq<ContractDiagV>
    decreases ds.len(),
{
    if ds.len() == 0 {
        Seq::empty()
    } else {
        let prev = stable_sort_v(ds.drop_last());
        prev.insert(insert_pos_v(prev, ds.last(), 0), ds.last())
    }
}

pub fn sort_contract_diagnostics(ds: Vec<ContractDiagnostic>) -> (r: Vec<ContractDiagnostic>)
    ensures
        report_sorted(cdiags_v(r@)),
        cdiags_v(r@).to_multiset() == cdiags_v(ds@).to_multiset(),
        cdiags_v(r@) == stable_sort_v(cdiags_v(ds@)),
{
    let mut out: Vec<ContractDiagnostic> = Vec::new();
    let mut rest = ds;
    let ghost all = cdiags_v(rest@);
    let n = rest.len();
    let mut i: usize = 0;
    assert(cdiags_v(out@) =~= Seq::<ContractDiagV>::empty());
    assert(all.subrange(0, 0) =~= Seq::<ContractDiagV>::empty());
    while i < n
        invariant
            i <= n,
            n == rest@.len(),
            all == cdiags_v(rest@),
            report_sorted(cdiags_v(out@)),
            cdiags_v(out@).to_multiset() == all.subrange(0, i as int).to_multiset(),
            cdiags_v(out@) == stable_sort_v(all.subrange(0, i as int)),
        decreases n - i,
    {
        let d = ContractDiagnostic {
            code: rest[i].code.clone(),
            severity: rest[i].severity,
            message: rest[i].message.clone(),
            node_id: rest[i].node_id.clone(),
        };
        assert(d@ == all[i as int]);
        let mut p: usize = 0;
        while p < out.len() && !report_less(&d, &out[p])
            invariant
                p <= out.len(),
                forall|j: int| 0 <= j < p ==> !report_lt(d@, #[trigger] cdiags_v(out@)[j]),
                insert_pos_v(cdiags_v(out@), d@, 0) == insert_pos_v(cdiags_v(out@), d@, p as int),
            decreases out.len() - p,
        {
            p = p + 1;
        }
        let ghost before = cdiags_v(out@);
        proof {
            if p < out.len() {
                assert(before[p as int] == out@[p as int]@);
            }
            assert(insert_pos_v(before, d@, 0) == p);
            assert(all.subrange(0, i + 1).drop_last() =~= all.subrange(0, i as int));
            assert(all.subrange(0, i + 1).last() == all[i as int]);
        }
        out.insert(p, d);
        proof {
            let after = cdiags_v(out@);
            assert(after =~= before.insert(p as int, d@));
            assert forall|a: int, b: int| 0 <= a < b < after.len() implies !report_lt(#[trigger] after[b], #[trigger] after[a]) by {
                if a < p && b == p {
                    assert(after[a] == before[a]);
                } else if a == p && b > p {
                    assert(after[b] == before[b - 1]);
                    assert(report_lt(d@, before[p as int]));
                    if report_lt(before[b - 1], d@) {
                        if b - 1 == p {
                            lemma_report_lt_asym(d@, before[p as int]);
                        } else {
                            lemma_report_lt_trans(before[b - 1], d@, before[p as int]);
                        }
                    }
                } else if b < p {
                    assert(after[a] == before[a] && after[b] == before[b]);
                } else if a < p && b > p {
                    assert(after[a] == before[a] && after[b] == before[b - 1]);
                } else {
                    assert(after[a] == before[a - 1] && after[b] == before[b - 1]);
                }
            }
            assert(all.subrange(0, i + 1) =~= all.subrange(0, i as int).push(all[i as int]));
            vstd::seq_lib::to_multiset_insert(before, p as int, d@);
            vstd::seq_lib::to_multiset_build(all.subrange(0, i as int), all[i as int]);
            assert(before.insert(p as int, d@).to_multiset() == before.to_multiset().insert(d@));
            assert(all.subrange(0, i as int).push(all[i as int]).to_multiset() == all.subrange(0, i as int).to_multiset().insert(
                all[i as int],
            ));
        }
        i = i + 1;
    }
    assert(all.subrange(0, n as int) =~= all);
    out
}


// ---------------------------------------------------------------------------
// Hex round trip
// ---------------------------------------------------------------------------

proof fn lemma_hex_digit(d: nat)
    requires
        d < 16,
    ensures
        hex_val(crate::text::hex_digit(d)) == Some(d as u8),
        !crate::text::is_ws(crate::text::hex_digit(d)),
        (crate::text::hex_digit(d) as u32) < 0x80,
        crate::text::hex_digit(d) != '+',
{
    let c = crate::text::hex_digit(d);
    if d < 10 {
        assert(c as u32 == d + 48);
    } else {
        assert(c as u32 == d + 87);
    }
}

proof fn lemma_hex_pairs_append(s: Seq<char>, t: Seq<char>)
    requires
        s.len() % 2 == 0,
    ensures
        hex_pairs(s + t) == match hex_pairs(s) {
            None => None,
            Some(x) => match hex_pairs(t) {
                None => None::<Seq<u8>>,
                Some(y) => Some(x + y),
            },
        },
    decreases s.len(),
{
    if s.len() == 0 {
        assert(s + t =~= t);
        if let Some(y) = hex_pairs(t) {
            assert(Seq::<u8>::empty() + y =~= y);
        }
    } else {
        let u = s + t;
        assert(u[0] == s[0] && u[1] == s[1]);
        assert(u.skip(2) =~= s.skip(2) + t);
        lemma_hex_pairs_append(s.skip(2), t);
        match hex_pair(s[0], s[1]) {
            None => {},
            Some(b) => match hex_pairs(s.skip(2)) {
                None => {},
                Some(x) => match hex_pairs(t) {
                    None => {},
                    Some(y) => {
                        assert(seq![b] + (x + y) =~= (seq![b] + x) + y);
                    },
                },
            },
        }
    }
}

proof fn lemma_hex_of_props(bytes: Seq<u8>)
    ensures
        hex_pairs(hex_of(bytes)) == Some(bytes),
        hex_of(bytes).len() == 2 * bytes.len(),
        byte_len(hex_of(bytes)) == hex_of(bytes).len(),
        forall|i: int| 0 <= i < hex_of(bytes).len() ==> !crate::text::is_ws(#[trigger] hex_of(bytes)[i]),
    decreases bytes.len(),
{
    if bytes.len() > 0 {
        let init = bytes.drop_last();
        let b = bytes.last();
        lemma_hex_of_props(init);
        let h0 = hex_of(init);
        let pair = crate::text::hex2(b);
        lemma_hex_digit(b as nat / 16);
        lemma_hex_digit(b as nat % 16);
        assert(hex_of(bytes) == h0 + pair);
        // The pair itself.
        assert(pair.skip(2) =~= Seq::<char>::empty());
        assert(hex_pair(pair[0], pair[1]) == Some(b)) by {
            assert((b as nat / 16) * 16 + b as nat % 16 == b as nat);
        }
        assert(hex_pairs(pair.skip(2)) == Some(Seq::<u8>::empty()));
        assert(hex_pairs(pair) == Some(seq![b] + Seq::<u8>::empty()));
        assert(seq![b] + Seq::<u8>::empty() =~= seq![b]);
        lemma_hex_pairs_append(h0, pair);
        assert(init + seq![b] =~= bytes);
        // UTF-8 length: two one-byte characters more.
        let h = h0 + pair;
        assert(h.drop_last() =~= h0 + seq![pair[0]]);
        assert((h0 + seq![pair[0]]).drop_last() =~= h0);
        assert(h.last() == pair[1]);
        assert((h0 + seq![pair[0]]).last() == pair[0]);
        assert(utf8_len(pair[0]) == 1 && utf8_len(pair[1]) == 1);
        assert(byte_len(h) == byte_len(h0 + seq![pair[0]]) + 1);
        assert(byte_len(h0 + seq![pair[0]]) == byte_len(h0) + 1);
        assert forall|i: int| 0 <= i < h.len() implies !crate::text::is_ws(#[trigger] h[i]) by {
            if i < h0.len() {
                assert(h[i] == h0[i]);
            }
        }
    }
}

/// Bytes written as hex read back as the same bytes.
pub proof fn law_hex_round_trip(bytes: Seq<u8>)
    ensures
        hex_bytes_v(hex_of(bytes)) == Ok::<Seq<u8>, Seq<char>>(bytes),
{
    lemma_hex_of_props(bytes);
    let h = hex_of(bytes);
    crate::text::lemma_lead_ws_bound(h);
    assert(crate::text::lead_ws(h) == 0) by {
        if crate::text::lead_ws(h) > 0 {
            assert(crate::text::is_ws(h[0]));
        }
    }
    assert(h.skip(0) =~= h);
    crate::text::lemma_trail_ws_bound(h);
    assert(crate::text::trail_ws(h) == 0) by {
        if crate::text::trail_ws(h) > 0 {
            assert(crate::text::is_ws(h[h.len() - 1]));
        }
    }
    assert(h.take(h.len() as int) =~= h);
    assert(trim_seq(h) == h);
}


// ---------------------------------------------------------------------------
// Contract checks over a flow
// ---------------------------------------------------------------------------

/// One node's contract check: the findings so far and what is left to do.
pub struct NodeContractCheck {
    pub node_id: String,
    pub diagnostics: Vec<ContractDiagnostic>,
    pub step: ContractStep,
}

pub open spec fn check_v(c: NodeContractCheck) -> (Seq<char>, Seq<ContractDiagV>, ContractStepV) {
    (c.node_id@, cdiags_v(c.diagnostics@), c.step@)
}

pub open spec fn checks_v(cs: Seq<NodeContractCheck>) -> Seq<(Seq<char>, Seq<ContractDiagV>, ContractStepV)> {
    cs.map_values(|c: NodeContractCheck| check_v(c))
}

/// The payload of a node that carries one: a component's, or an unknown
/// node kind's.
pub open spec fn node_payload_v(k: NodeKindV) -> Option<JsonV> {
    match k {
        NodeKindV::Component { payload, .. } => Some(payload),
        NodeKindV::Other { payload, .. } => Some(payload),
        _ => None,
    }
}

/// The contract check of each node with a payload, in node order.
pub open spec fn flow_checks_v(nodes: Seq<(Seq<char>, NodeIrV)>, meta: Option<JsonV>, online: bool) -> Seq<
    (Seq<char>, Seq<ContractDiagV>, ContractStepV),
>
    decreases nodes.len(),
{
    if nodes.len() == 0 {
        Seq::empty()
    } else {
        let prev = flow_checks_v(nodes.drop_last(), meta, online);
        let id = nodes.last().0;
        match node_payload_v(nodes.last().1.kind) {
            None => prev,
            Some(p) => {
                let r = node_contract_v(meta, id, p, online);
                prev.push((id, r.0, r.1))
            },
        }
    }
}

/// Checks the contract metadata of every node of a flow that carries a
/// payload, in node order.
pub fn flow_contract_checks(ir: &FlowIr, online: bool) -> (r: Vec<NodeContractCheck>)
    ensures
        checks_v(r@) == flow_checks_v(ir@.nodes, ir@.meta, online),
{
    let ghost ns = ir@.nodes;
    let mut out: Vec<NodeContractCheck> = Vec::new();
    let mut i: usize = 0;
    proof {
        assert(ns.take(0) =~= Seq::<(Seq<char>, NodeIrV)>::empty());
        assert(checks_v(out@) =~= Seq::<(Seq<char>, Seq<ContractDiagV>, ContractStepV)>::empty());
    }
    while i < ir.nodes.len()
        invariant
            i <= ir.nodes.len(),
            ns == ir@.nodes,
            ns == ir_nodes_v(ir.nodes@),
            checks_v(out@) == flow_checks_v(ns.take(i as int), ir@.meta, online),
        decreases ir.nodes.len() - i,
    {
        proof {
            assert(ns.take(i + 1).drop_last() =~= ns.take(i as int));
            assert(ns.take(i + 1).last() == (ir.nodes@[i as int].0@, ir.nodes@[i as int].1@));
        }
        let payload: Option<&JsonValue> = match &ir.nodes[i].1.kind {
            NodeKind::Component(c) => Some(&c.payload),
            NodeKind::Other { payload, .. } => Some(payload),
            _ => None,
        };
        match payload {
            Some(p) => {
                let (diagnostics, step) = check_node_contract(&ir.meta, ir.nodes[i].0.as_str(), p, online);
                let ghost before = out@;
                out.push(NodeContractCheck { node_id: ir.nodes[i].0.clone(), diagnostics, step });
                proof {
                    assert(checks_v(out@) =~= checks_v(before).push(check_v(out@.last())));
                }
            },
            None => {},
        }
        i = i + 1;
    }
    proof {
        assert(ns.take(ir.nodes.len() as int) =~= ns);
    }
    out
}

pub open spec fn decode_failure_v(node_id: Seq<char>, reason: Seq<char>) -> ContractDiagV {
    cdiag("FLOW_SCHEMA_DECODE"@, ContractSeverity::Error, "failed to decode stored config schema: "@ + reason, node_id)
}

pub open spec fn parse_failure_v(node_id: Seq<char>, reason: Seq<char>) -> ContractDiagV {
    cdiag("FLOW_SCHEMA_DECODE"@, ContractSeverity::Error, "failed to parse stored config schema: "@ + reason, node_id)
}

/// The bytes of a node's stored schema, or the finding for hex that does not
/// decode.
pub fn stored_schema_bytes(node_id: &str, hex: &str) -> (r: Result<Vec<u8>, ContractDiagnostic>)
    requires
        byte_len(trim_seq(hex@)) % 2 == 0 ==> trim_seq(hex@).len() % 2 == 0,
    ensures
        match r {
            Ok(b) => hex_bytes_v(hex@) == Ok::<Seq<u8>, Seq<char>>(b@),
            Err(d) => hex_bytes_v(hex@) matches Err(m) && d@ == decode_failure_v(node_id@, m),
        },
{
    match hex_to_bytes(hex) {
        Ok(b) => Ok(b),
        Err(m) => Err(stored_schema_failure(node_id, false, m.as_str())),
    }
}

/// The schema findings of a node as contract findings.
pub open spec fn node_findings_v(ds: Seq<DiagV>, node_id: Seq<char>) -> Seq<ContractDiagV> {
    ds.map_values(
        |d: DiagV|
            cdiag(
                d.code,
                match d.severity {
                    Severity::Error => ContractSeverity::Error,
                    Severity::Warning => ContractSeverity::Warning,
                },
                d.message,
                node_id,
            ),
    )
}

/// The findings of a node's stored schema once decoded: the reason it did not
/// parse, or the schema's findings on the node's config.
pub fn stored_schema_findings(node_id: &str, decoded: Result<(SchemaIr, CborValue), String>) -> (r: Vec<ContractDiagnostic>)
    ensures
        cdiags_v(r@) == match decoded {
            Err(reason) => seq![parse_failure_v(node_id@, reason@)],
            Ok((schema, config)) => node_findings_v(validate_v(schema, config, "$"@), node_id@),
        },
{
    match decoded {
        Err(reason) => {
            let d = stored_schema_failure(node_id, true, reason.as_str());
            let mut v: Vec<ContractDiagnostic> = Vec::new();
            v.push(d);
            proof {
                assert(cdiags_v(v@) =~= seq![parse_failure_v(node_id@, reason@)]);
            }
            v
        },
        Ok((schema, config)) => {
            let found = validate_value_against_schema(&schema, &config);
            schema_findings_for_node(found, node_id)
        },
    }
}

pub open spec fn all_diags_v(cs: Seq<NodeContractCheck>) -> Seq<ContractDiagV>
    decreases cs.len(),
{
    if cs.len() == 0 {
        Seq::empty()
    } else {
        all_diags_v(cs.drop_last()) + cdiags_v(cs.last().diagnostics@)
    }
}

/// The findings of all nodes, in report order.
pub fn contract_report(checks: Vec<NodeContractCheck>) -> (r: Vec<ContractDiagnostic>)
    ensures
        report_sorted(cdiags_v(r@)),
        cdiags_v(r@).to_multiset() == all_diags_v(checks@).to_multiset(),
        cdiags_v(r@) == stable_sort_v(all_diags_v(checks@)),
{
    let ghost cs = checks@;
    let mut all: Vec<ContractDiagnostic> = Vec::new();
    let mut rest = checks;
    let n = rest.len();
    let mut i: usize = 0;
    proof {
        assert(cs.take(0) =~= Seq::<NodeContractCheck>::empty());
        assert(cdiags_v(all@) =~= Seq::<ContractDiagV>::empty());
        assert(rest@ =~= cs.skip(0));
    }
    while rest.len() > 0
        invariant
            i + rest@.len() == cs.len(),
            cs.len() == n,
            rest@ == cs.skip(i as int),
            cdiags_v(all@) == all_diags_v(cs.take(i as int)),
        decreases rest.len(),
    {
        let c = rest.remove(0);
        proof {
            assert(c == cs[i as int]);
            assert(cs.take(i + 1).drop_last() =~= cs.take(i as int));
            assert(rest@ =~= cs.skip(i + 1));
        }
        let ghost before = all@;
        let mut ds = c.diagnostics;
        let ghost dsv = ds@;
        all.append(&mut ds);
        proof {
            assert(cdiags_v(all@) =~= cdiags_v(before) + cdiags_v(dsv));
        }
        i = i + 1;
    }
    proof {
        assert(cs.take(cs.len() as int) =~= cs);
    }
    sort_contract_diagnostics(all)
}

} // verus!
