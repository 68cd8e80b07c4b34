//! The `greentic` namespace of a flow's metadata: which component each node
//! runs, and the hint lists kept per node.
use vstd::prelude::*;
use crate::error::opt_ref;
use crate::json::{
    JsonValue, JsonNumber, JsonV, NumV, Entries, ev, jv, jv_seq, obj_get_v, obj_insert_v, obj_remove_v, has_key,
    key_pos, lemma_key_pos, lemma_jv_entries, lemma_jv_seq, obj_get, obj_has, obj_insert, obj_remove, clone_entries,
};
use crate::model::{opt_jv, strs_v};
use crate::text::concat3;

verus! {

pub const META_NAMESPACE: &'static str = "greentic";

/// Seconds since the Unix epoch (`SystemTime::elapsed` of the epoch, in
/// whole seconds), or 0 if the clock is set before it; it depends on the
/// clock, so nothing is claimed of it.
#[verifier::external_body]
pub fn now_epoch_seconds() -> (r: u64) {
    std::time::UNIX_EPOCH.elapsed().map(|d| d.as_secs()).unwrap_or(0)
}

/// The entries of an object, or none.
pub open spec fn obj_entries(v: Option<JsonV>) -> Entries {
    match v {
        Some(JsonV::Object(e)) => e,
        _ => Seq::empty(),
    }
}

/// The entries of the object under `k`, or none.
pub open spec fn child_entries(e: Entries, k: Seq<char>) -> Entries {
    match obj_get_v(e, k) {
        Some(JsonV::Object(c)) => c,
        _ => Seq::empty(),
    }
}

/// `e` with the object `c` under `k`.
pub open spec fn with_child(e: Entries, k: Seq<char>, c: Entries) -> Entries {
    obj_insert_v(e, k, JsonV::Object(c))
}

/// The metadata as an object whose `greentic` entry is an object: a
/// non-object is replaced by an empty one at either level.
pub open spec fn ensure_greentic_v(meta: Option<JsonV>) -> Option<JsonV> {
    let root = obj_entries(meta);
    Some(JsonV::Object(with_child(root, "greentic"@, child_entries(root, "greentic"@))))
}

fn take_object(v: Option<JsonValue>) -> (e: Vec<(String, JsonValue)>)
    ensures
        ev(e@) == obj_entries(opt_jv(v)),
{
    match v {
        Some(JsonValue::Object(e)) => e,
        _ => {
            let e: Vec<(String, JsonValue)> = Vec::new();
            assert(ev(e@) =~= Seq::<(Seq<char>, JsonV)>::empty());
            e
        },
    }
}

fn child_of(e: &Vec<(String, JsonValue)>, k: &str) -> (c: Vec<(String, JsonValue)>)
    ensures
        ev(c@) == child_entries(ev(e@), k@),
{
    match obj_get(e, k) {
        Some(JsonValue::Object(c)) => clone_entries(c),
        _ => {
            let c: Vec<(String, JsonValue)> = Vec::new();
            assert(ev(c@) =~= Seq::<(Seq<char>, JsonV)>::empty());
            c
        },
    }
}

/// Makes the metadata an object with a `greentic` object in it.
pub fn ensure_greentic_meta(meta: &mut Option<JsonValue>)
    ensures
        opt_jv(*final(meta)) == ensure_greentic_v(opt_jv(*old(meta))),
{
    let mut root = take_object(meta.take());
    let g = child_of(&root, META_NAMESPACE);
    proof {
        reveal_strlit("greentic");
    }
    obj_insert(&mut root, String::from_str(META_NAMESPACE), JsonValue::Object(g));
    *meta = Some(JsonValue::Object(root));
}

/// What a component's contract records in its entry.
#[derive(Debug)]
pub struct ComponentContractMeta {
    pub describe_hash: String,
    pub operation_id: String,
    pub schema_hash: String,
    pub component_version: Option<String>,
    pub world: Option<String>,
    pub config_schema_cbor: Option<String>,
}

pub struct ContractV {
    pub describe_hash: Seq<char>,
    pub operation_id: Seq<char>,
    pub schema_hash: Seq<char>,
    pub component_version: Option<Seq<char>>,
    pub world: Option<Seq<char>>,
    pub config_schema_cbor: Option<Seq<char>>,
}

impl View for ComponentContractMeta {
    type V = ContractV;

    open spec fn view(&self) -> ContractV {
        ContractV {
            describe_hash: self.describe_hash@,
            operation_id: self.operation_id@,
            schema_hash: self.schema_hash@,
            component_version: crate::error::opt_str(self.component_version),
            world: crate::error::opt_str(self.world),
            config_schema_cbor: crate::error::opt_str(self.config_schema_cbor),
        }
    }
}

pub open spec fn opt_entry(k: Seq<char>, v: Option<Seq<char>>) -> Entries {
    match v {
        Some(s) => seq![(k, JsonV::Str(s))],
        None => Seq::empty(),
    }
}

pub open spec fn strs_json(s: Seq<Seq<char>>) -> Seq<JsonV> {
    s.map_values(|x: Seq<char>| JsonV::Str(x))
}

/// The entry recorded for a node's component.
pub open spec fn component_entry_v(
    component_id: Seq<char>,
    abi_version: Seq<char>,
    digest: Option<Seq<char>>,
    ops: Seq<Seq<char>>,
    contract: Option<ContractV>,
    added_at: u64,
    updated_at: u64,
) -> Entries {
    let base = seq![("component_id"@, JsonV::Str(component_id)), ("abi_version"@, JsonV::Str(abi_version))];
    let c = match contract {
        Some(c) => seq![
            ("describe_hash"@, JsonV::Str(c.describe_hash)),
            ("operation_id"@, JsonV::Str(c.operation_id)),
            ("schema_hash"@, JsonV::Str(c.schema_hash)),
        ] + opt_entry("component_version"@, c.component_version) + opt_entry("world"@, c.world) + opt_entry(
            "config_schema_cbor"@,
            c.config_schema_cbor,
        ),
        None => Seq::empty(),
    };
    base + c + opt_entry("resolved_digest"@, digest) + seq![
        ("exported_ops_seen"@, JsonV::Array(strs_json(ops))),
        ("added_at"@, JsonV::Number(NumV::PosInt(added_at))),
        ("updated_at"@, JsonV::Number(NumV::PosInt(updated_at))),
    ]
}

/// When a node's entry was first added: kept from an existing entry that
/// records it as an unsigned integer, else now.
pub open spec fn added_at_v(components: Entries, node_id: Seq<char>, now: u64) -> u64 {
    match obj_get_v(components, node_id) {
        Some(JsonV::Object(existing)) => match obj_get_v(existing, "added_at"@) {
            Some(JsonV::Number(NumV::PosInt(v))) => v,
            _ => now,
        },
        _ => now,
    }
}

/// The metadata after recording a node's component; `first_now` is the
/// time read for a new entry, `now` the time of this update.
pub open spec fn set_component_v(
    meta: Option<JsonV>,
    node_id: Seq<char>,
    component_id: Seq<char>,
    abi_version: Seq<char>,
    digest: Option<Seq<char>>,
    ops: Seq<Seq<char>>,
    contract: Option<ContractV>,
    first_now: u64,
    now: u64,
) -> Option<JsonV> {
    let root = obj_entries(meta);
    let g = child_entries(root, "greentic"@);
    let comps = child_entries(g, "components"@);
    let entry = component_entry_v(component_id, abi_version, digest, ops, contract, added_at_v(comps, node_id, first_now), now);
    Some(JsonV::Object(with_child(root, "greentic"@, with_child(g, "components"@, obj_insert_v(comps, node_id, JsonV::Object(entry))))))
}

fn push_str_entry(e: &mut Vec<(String, JsonValue)>, k: &str, v: &String)
    ensures
        ev(final(e)@) == ev(old(e)@).push((k@, JsonV::Str(v@))),
{
    let ghost before = e@;
    e.push((String::from_str(k), JsonValue::String(v.clone())));
    proof {
        lemma_jv_entries(before);
        lemma_jv_entries(e@);
        assert(ev(e@) =~= ev(before).push((k@, JsonV::Str(v@))));
    }
}

fn push_opt_entry(e: &mut Vec<(String, JsonValue)>, k: &str, v: &Option<String>)
    ensures
        ev(final(e)@) == ev(old(e)@) + opt_entry(k@, crate::error::opt_str(*v)),
{
    match v {
        Some(s) => {
            push_str_entry(e, k, s);
            assert(ev(e@) =~= ev(old(e)@) + opt_entry(k@, crate::error::opt_str(*v)));
        },
        None => {
            assert(ev(e@) =~= ev(old(e)@) + opt_entry(k@, crate::error::opt_str(*v)));
        },
    }
}

fn strings_json(ops: &Vec<String>) -> (r: Vec<JsonValue>)
    ensures
        jv_seq(r@) == strs_json(strs_v(ops@)),
{
    let mut out: Vec<JsonValue> = Vec::new();
    let mut i: usize = 0;
    while i < ops.len()
        invariant
            i <= ops.len(),
            out@.len() == i,
            forall|k: int| 0 <= k < i ==> jv(#[trigger] out@[k]) == JsonV::Str(ops@[k]@),
        decreases ops.len() - i,
    {
        out.push(JsonValue::String(ops[i].clone()));
        i = i + 1;
    }
    proof {
        lemma_jv_seq(out@);
        assert(jv_seq(out@) =~= strs_json(strs_v(ops@)));
    }
    out
}

fn added_at_of(components: &Vec<(String, JsonValue)>, node_id: &str, now: u64) -> (r: u64)
    ensures
        r == added_at_v(ev(components@), node_id@, now),
{
    proof {
        reveal_strlit("added_at");
    }
    match obj_get(components, node_id) {
        Some(JsonValue::Object(existing)) => match obj_get(existing, "added_at") {
            Some(JsonValue::Number(JsonNumber::PosInt(v))) => *v,
            _ => now,
        },
        _ => now,
    }
}

/// Records the component that a node runs, given the times read from the
/// clock.
pub fn set_component_entry_at(
    meta: &mut Option<JsonValue>,
    node_id: &str,
    component_id: &str,
    abi_version: &str,
    digest: Option<&str>,
    exported_ops: &Vec<String>,
    contract: Option<&ComponentContractMeta>,
    first_now: u64,
    now: u64,
)
    ensures
        opt_jv(*final(meta)) == set_component_v(
            opt_jv(*old(meta)),
            node_id@,
            component_id@,
            abi_version@,
            opt_ref(digest),
            strs_v(exported_ops@),
            match contract {
                Some(c) => Some(c@),
                None => None,
            },
            first_now,
            now,
        ),
{
    proof {
        reveal_strlit("greentic");
        reveal_strlit("components");
    }
    let mut root = take_object(meta.take());
    let mut g = child_of(&root, META_NAMESPACE);
    let mut comps = child_of(&g, "components");
    let added_at = added_at_of(&comps, node_id, first_now);
    let mut entry: Vec<(String, JsonValue)> = Vec::new();
    proof {
        assert(ev(entry@) =~= Seq::<(Seq<char>, JsonV)>::empty());
    }
    push_str_entry(&mut entry, "component_id", &String::from_str(component_id));
    push_str_entry(&mut entry, "abi_version", &String::from_str(abi_version));
    let ghost base = ev(entry@);
    assert(base =~= seq![("component_id"@, JsonV::Str(component_id@)), ("abi_version"@, JsonV::Str(abi_version@))]);
    match contract {
        Some(c) => {
            push_str_entry(&mut entry, "describe_hash", &c.describe_hash);
            push_str_entry(&mut entry, "operation_id", &c.operation_id);
            push_str_entry(&mut entry, "schema_hash", &c.schema_hash);
            push_opt_entry(&mut entry, "component_version", &c.component_version);
            push_opt_entry(&mut entry, "world", &c.world);
            push_opt_entry(&mut entry, "config_schema_cbor", &c.config_schema_cbor);
            assert(ev(entry@) =~= base + seq![
                ("describe_hash"@, JsonV::Str(c@.describe_hash)),
                ("operation_id"@, JsonV::Str(c@.operation_id)),
                ("schema_hash"@, JsonV::Str(c@.schema_hash)),
            ] + opt_entry("component_version"@, c@.component_version) + opt_entry("world"@, c@.world) + opt_entry(
                "config_schema_cbor"@,
                c@.config_schema_cbor,
            ));
        },
        None => {
            assert(ev(entry@) =~= base + Seq::<(Seq<char>, JsonV)>::empty());
        },
    }
    let ghost with_contract = ev(entry@);
    let digest_s: Option<String> = match digest {
        Some(d) => Some(String::from_str(d)),
        None => None,
    };
    push_opt_entry(&mut entry, "resolved_digest", &digest_s);
    let ghost before_tail = ev(entry@);
    let ops_json = strings_json(exported_ops);
    let ghost opsv = jv_seq(ops_json@);
    let ghost e0 = entry@;
    entry.push((String::from_str("exported_ops_seen"), JsonValue::Array(ops_json)));
    let ghost e1 = entry@;
    entry.push((String::from_str("added_at"), JsonValue::Number(JsonNumber::PosInt(added_at))));
    let ghost e2 = entry@;
    entry.push((String::from_str("updated_at"), JsonValue::Number(JsonNumber::PosInt(now))));
    proof {
        assert(e1.drop_last() =~= e0);
        assert(e2.drop_last() =~= e1);
        assert(entry@.drop_last() =~= e2);
        assert(ev(e1) == ev(e0).push((e1.last().0@, jv(e1.last().1))));
        assert(ev(e2) == ev(e1).push((e2.last().0@, jv(e2.last().1))));
        assert(ev(entry@) == ev(e2).push((entry@.last().0@, jv(entry@.last().1))));
        assert(ev(entry@) =~= before_tail + seq![
            ("exported_ops_seen"@, JsonV::Array(strs_json(strs_v(exported_ops@)))),
            ("added_at"@, JsonV::Number(NumV::PosInt(added_at))),
            ("updated_at"@, JsonV::Number(NumV::PosInt(now))),
        ]);
        assert(ev(entry@) =~= component_entry_v(
            component_id@,
            abi_version@,
            opt_ref(digest),
            strs_v(exported_ops@),
            match contract {
                Some(c) => Some(c@),
                None => None,
            },
            added_at,
            now,
        ));
    }
    obj_insert(&mut comps, String::from_str(node_id), JsonValue::Object(entry));
    obj_insert(&mut g, String::from_str("components"), JsonValue::Object(comps));
    obj_insert(&mut root, String::from_str(META_NAMESPACE), JsonValue::Object(g));
    *meta = Some(JsonValue::Object(root));
}

/// Records the component that a node runs, reading the clock for a new
/// entry's `added_at` and for `updated_at`.
pub fn set_component_entry(
    meta: &mut Option<JsonValue>,
    node_id: &str,
    component_id: &str,
    abi_version: &str,
    digest: Option<&str>,
    exported_ops: &Vec<String>,
    contract: Option<&ComponentContractMeta>,
)
    ensures
        exists|first_now: u64, now: u64|
            opt_jv(*final(meta)) == #[trigger] set_component_v(
                opt_jv(*old(meta)),
                node_id@,
                component_id@,
                abi_version@,
                opt_ref(digest),
                strs_v(exported_ops@),
                opt_contract(contract),
                first_now,
                now,
            ),
{
    let first_now = now_epoch_seconds();
    let now = now_epoch_seconds();
    set_component_entry_at(meta, node_id, component_id, abi_version, digest, exported_ops, contract, first_now, now);
}

pub open spec fn opt_contract(c: Option<&ComponentContractMeta>) -> Option<ContractV> {
    match c {
        Some(c) => Some(c@),
        None => None,
    }
}

/// `g` with `node_id` removed from the object under `k`, if that is an
/// object.
pub open spec fn strip_v(g: Entries, k: Seq<char>, node_id: Seq<char>) -> Entries {
    match obj_get_v(g, k) {
        Some(JsonV::Object(c)) => obj_insert_v(g, k, JsonV::Object(obj_remove_v(c, node_id))),
        _ => g,
    }
}

/// The metadata without a node's component entry and hints; metadata
/// without a `greentic` object is left as it is.
pub open spec fn clear_component_v(meta: Option<JsonV>, node_id: Seq<char>) -> Option<JsonV> {
    match meta {
        Some(JsonV::Object(root)) => match obj_get_v(root, "greentic"@) {
            Some(JsonV::Object(g)) => Some(
                JsonV::Object(
                    obj_insert_v(
                        root,
                        "greentic"@,
                        JsonV::Object(
                            strip_v(strip_v(strip_v(g, "components"@, node_id), "secrets_hints"@, node_id), "bindings_hints"@, node_id),
                        ),
                    ),
                ),
            ),
            _ => meta,
        },
        _ => meta,
    }
}

fn strip(g: &mut Vec<(String, JsonValue)>, k: &str, node_id: &str)
    ensures
        ev(final(g)@) == strip_v(ev(old(g)@), k@, node_id@),
{
    let mut c = match obj_get(g, k) {
        Some(JsonValue::Object(c)) => clone_entries(c),
        _ => {
            return;
        },
    };
    let _ = obj_remove(&mut c, node_id);
    obj_insert(g, String::from_str(k), JsonValue::Object(c));
}

/// Removes a node's component entry and its hints.
pub fn clear_component_entry(meta: &mut Option<JsonValue>, node_id: &str)
    ensures
        opt_jv(*final(meta)) == clear_component_v(opt_jv(*old(meta)), node_id@),
{
    proof {
        reveal_strlit("greentic");
    }
    let has_greentic = match &*meta {
        Some(JsonValue::Object(root)) => match obj_get(root, META_NAMESPACE) {
            Some(JsonValue::Object(_)) => true,
            _ => false,
        },
        _ => false,
    };
    if !has_greentic {
        return;
    }
    let mut root = take_object(meta.take());
    let mut g = child_of(&root, META_NAMESPACE);
    strip(&mut g, "components", node_id);
    strip(&mut g, "secrets_hints", node_id);
    strip(&mut g, "bindings_hints", node_id);
    obj_insert(&mut root, String::from_str(META_NAMESPACE), JsonValue::Object(g));
    *meta = Some(JsonValue::Object(root));
}

/// `e` with `k` set to an empty list unless it is there already.
pub open spec fn or_empty_list(e: Entries, k: Seq<char>) -> Entries {
    if has_key(e, k) {
        e
    } else {
        e.push((k, JsonV::Array(Seq::empty())))
    }
}

/// The metadata with the node's secret and binding hints present (empty
/// lists where they were missing).
pub open spec fn ensure_hints_v(meta: Option<JsonV>, node_id: Seq<char>) -> Option<JsonV> {
    let root = obj_entries(meta);
    let g0 = child_entries(root, "greentic"@);
    let g1 = with_child(g0, "secrets_hints"@, or_empty_list(child_entries(g0, "secrets_hints"@), node_id));
    let g2 = with_child(g1, "bindings_hints"@, or_empty_list(child_entries(g1, "bindings_hints"@), node_id));
    Some(JsonV::Object(with_child(root, "greentic"@, g2)))
}

fn or_insert_empty_list(e: &mut Vec<(String, JsonValue)>, k: &str)
    ensures
        ev(final(e)@) == or_empty_list(ev(old(e)@), k@),
{
    if !obj_has(e, k) {
        let ghost before = e@;
        e.push((String::from_str(k), JsonValue::Array(Vec::new())));
        proof {
            lemma_jv_entries(before);
            lemma_jv_entries(e@);
            lemma_jv_seq(Seq::<JsonValue>::empty());
            assert(ev(e@) =~= ev(before).push((k@, JsonV::Array(Seq::empty()))));
        }
    }
}

pub fn ensure_hints_empty(meta: &mut Option<JsonValue>, node_id: &str)
    ensures
        opt_jv(*final(meta)) == ensure_hints_v(opt_jv(*old(meta)), node_id@),
{
    proof {
        reveal_strlit("greentic");
    }
    let mut root = take_object(meta.take());
    let mut g = child_of(&root, META_NAMESPACE);
    let mut secrets = child_of(&g, "secrets_hints");
    or_insert_empty_list(&mut secrets, node_id);
    obj_insert(&mut g, String::from_str("secrets_hints"), JsonValue::Object(secrets));
    let mut bindings = child_of(&g, "bindings_hints");
    or_insert_empty_list(&mut bindings, node_id);
    obj_insert(&mut g, String::from_str("bindings_hints"), JsonValue::Object(bindings));
    obj_insert(&mut root, String::from_str(META_NAMESPACE), JsonValue::Object(g));
    *meta = Some(JsonValue::Object(root));
}

/// The nodes whose component entry names `component_id`, in entry order.
pub open spec fn nodes_for_v(comps: Entries, component_id: Seq<char>) -> Seq<Seq<char>>
    decreases comps.len(),
{
    if comps.len() == 0 {
        Seq::empty()
    } else {
        let prev = nodes_for_v(comps.drop_last(), component_id);
        match comps.last().1 {
            JsonV::Object(obj) => if obj_get_v(obj, "component_id"@) == Some(JsonV::Str(component_id)) {
                prev.push(comps.last().0)
            } else {
                prev
            },
            _ => prev,
        }
    }
}

/// The components object of the metadata, if the metadata has one.
pub open spec fn components_of(meta: Option<JsonV>) -> Option<Entries> {
    match meta {
        Some(JsonV::Object(root)) => match obj_get_v(root, "greentic"@) {
            Some(JsonV::Object(g)) => match obj_get_v(g, "components"@) {
                Some(JsonV::Object(c)) => Some(c),
                _ => None,
            },
            _ => None,
        },
        _ => None,
    }
}

/// The one node that runs a component: refused when the metadata has no
/// components, or when no node or several nodes run it.
pub open spec fn find_node_v(meta: Option<JsonV>, component_id: Seq<char>) -> Result<Seq<char>, Seq<char>> {
    match components_of(meta) {
        None => Err("flow metadata missing; provide --step"@),
        Some(c) => {
            let m = nodes_for_v(c, component_id);
            if m.len() == 0 {
                Err("no node found for component id '"@ + component_id + "'; provide --step"@)
            } else if m.len() == 1 {
                Ok(m[0])
            } else {
                Err("multiple nodes found for component id '"@ + component_id + "'; provide --step"@)
            }
        },
    }
}

pub fn find_node_for_component(meta: &Option<JsonValue>, component_id: &str) -> (r: Result<String, String>)
    ensures
        match r {
            Ok(n) => find_node_v(opt_jv(*meta), component_id@) == Ok::<Seq<char>, Seq<char>>(n@),
            Err(e) => find_node_v(opt_jv(*meta), component_id@) == Err::<Seq<char>, Seq<char>>(e@),
        },
{
    proof {
        reveal_strlit("greentic");
        reveal_strlit("components");
        reveal_strlit("component_id");
    }
    let comps = match meta {
        Some(JsonValue::Object(root)) => match obj_get(root, META_NAMESPACE) {
            Some(JsonValue::Object(g)) => match obj_get(g, "components") {
                Some(JsonValue::Object(c)) => c,
                _ => {
                    return Err(String::from_str("flow metadata missing; provide --step"));
                },
            },
            _ => {
                return Err(String::from_str("flow metadata missing; provide --step"));
            },
        },
        _ => {
            return Err(String::from_str("flow metadata missing; provide --step"));
        },
    };
    let ghost cv = ev(comps@);
    proof {
        lemma_jv_entries(comps@);
    }
    let mut matches: Vec<String> = Vec::new();
    let mut i: usize = 0;
    proof {
        assert(cv.subrange(0, 0) =~= Seq::<(Seq<char>, JsonV)>::empty());
        assert(strs_v(matches@) =~= Seq::<Seq<char>>::empty());
    }
    while i < comps.len()
        invariant
            i <= comps.len(),
            cv == ev(comps@),
            cv.len() == comps@.len(),
            forall|k: int| 0 <= k < comps@.len() ==> #[trigger] cv[k] == (comps@[k].0@, jv(comps@[k].1)),
            strs_v(matches@) == nodes_for_v(cv.subrange(0, i as int), component_id@),
        decreases comps.len() - i,
    {
        let ghost cur = cv.subrange(0, i + 1);
        proof {
            assert(cur.drop_last() =~= cv.subrange(0, i as int));
            assert(cur.last() == cv[i as int]);
        }
        match &comps[i].1 {
            JsonValue::Object(obj) => {
                let hit = match obj_get(obj, "component_id") {
                    Some(JsonValue::String(id)) => crate::text::str_eq(id.as_str(), component_id),
                    _ => false,
                };
                if hit {
                    let ghost before = matches@;
                    matches.push(comps[i].0.clone());
                    proof {
                        crate::model::lemma_strs_push(before, matches@.last());
                    }
                }
            },
            _ => {},
        }
        i = i + 1;
    }
    proof {
        assert(cv.subrange(0, comps.len() as int) =~= cv);
    }
    if matches.len() == 0 {
        Err(concat3("no node found for component id '", component_id, "'; provide --step"))
    } else if matches.len() == 1 {
        Ok(matches[0].clone())
    } else {
        Err(concat3("multiple nodes found for component id '", component_id, "'; provide --step"))
    }
}


/// The describe hash stored for a node's component, if the metadata holds
/// one as text.
pub open spec fn stored_describe_hash_v(meta: Option<JsonV>, node_id: Seq<char>) -> Option<Seq<char>> {
    match components_of(meta) {
        Some(c) => match obj_get_v(c, node_id) {
            Some(JsonV::Object(entry)) => match obj_get_v(entry, "describe_hash"@) {
                Some(JsonV::Str(h)) => Some(h),
                _ => None,
            },
            _ => None,
        },
        None => None,
    }
}

pub fn existing_describe_hash(meta: &Option<JsonValue>, node_id: &str) -> (r: Option<String>)
    ensures
        match r {
            Some(h) => stored_describe_hash_v(opt_jv(*meta), node_id@) == Some(h@),
            None => stored_describe_hash_v(opt_jv(*meta), node_id@) is None,
        },
{
    proof {
        reveal_strlit("greentic");
    }
    let comps = match meta {
        Some(JsonValue::Object(root)) => match obj_get(root, META_NAMESPACE) {
            Some(JsonValue::Object(g)) => match obj_get(g, "components") {
                Some(JsonValue::Object(c)) => c,
                _ => {
                    return None;
                },
            },
            _ => {
                return None;
            },
        },
        _ => {
            return None;
        },
    };
    match obj_get(comps, node_id) {
        Some(JsonValue::Object(entry)) => match obj_get(entry, "describe_hash") {
            Some(JsonValue::String(h)) => Some(h.clone()),
            _ => None,
        },
        _ => None,
    }
}

/// Whether a node's component contract may change: refused when a stored
/// describe hash differs from the new one and the change is not allowed.
pub open spec fn contract_drift_v(stored: Option<Seq<char>>, new_hash: Seq<char>, allow: bool, node_id: Seq<char>) -> Result<(), Seq<char>> {
    match stored {
        Some(old) => if old != new_hash && !allow {
            Err(
                "describe_hash drift for node '"@ + node_id + "': stored "@ + old + " != new "@ + new_hash
                    + " (use --allow-contract-change to override)"@,
            )
        } else {
            Ok(())
        },
        None => Ok(()),
    }
}

pub fn check_contract_drift(meta: &Option<JsonValue>, node_id: &str, new_hash: &str, allow: bool) -> (r: Result<(), String>)
    ensures
        match r {
            Ok(()) => contract_drift_v(stored_describe_hash_v(opt_jv(*meta), node_id@), new_hash@, allow, node_id@) is Ok,
            Err(m) => contract_drift_v(stored_describe_hash_v(opt_jv(*meta), node_id@), new_hash@, allow, node_id@)
                == Err::<(), Seq<char>>(m@),
        },
{
    match existing_describe_hash(meta, node_id) {
        Some(old) => {
            if !crate::text::str_eq(old.as_str(), new_hash) && !allow {
                let a = crate::text::concat3("describe_hash drift for node '", node_id, "': stored ");
                let b = crate::text::concat3(a.as_str(), old.as_str(), " != new ");
                let c = crate::text::concat3(b.as_str(), new_hash, " (use --allow-contract-change to override)");
                proof {
                    assert(c@ =~= "describe_hash drift for node '"@ + node_id@ + "': stored "@ + old@ + " != new "@ + new_hash@
                        + " (use --allow-contract-change to override)"@);
                }
                Err(c)
            } else {
                Ok(())
            }
        },
        None => Ok(()),
    }
}


/// What recording a node's component writes, reading the node's describe
/// hash gives back.
pub proof fn law_recorded_describe_hash_is_read_back(
    meta: Option<JsonV>,
    node_id: Seq<char>,
    component_id: Seq<char>,
    abi_version: Seq<char>,
    digest: Option<Seq<char>>,
    ops: Seq<Seq<char>>,
    contract: ContractV,
    first_now: u64,
    now: u64,
)
    ensures
        stored_describe_hash_v(
            set_component_v(meta, node_id, component_id, abi_version, digest, ops, Some(contract), first_now, now),
            node_id,
        ) == Some(contract.describe_hash),
{
    reveal_strlit("greentic");
    reveal_strlit("components");
    reveal_strlit("component_id");
    reveal_strlit("abi_version");
    reveal_strlit("describe_hash");
    let root = obj_entries(meta);
    let g = child_entries(root, "greentic"@);
    let comps = child_entries(g, "components"@);
    let entry = component_entry_v(
        component_id,
        abi_version,
        digest,
        ops,
        Some(contract),
        added_at_v(comps, node_id, first_now),
        now,
    );
    let comps2 = obj_insert_v(comps, node_id, JsonV::Object(entry));
    let g2 = with_child(g, "components"@, comps2);
    crate::json::lemma_insert_then_get(root, "greentic"@, JsonV::Object(g2), "greentic"@);
    crate::json::lemma_insert_then_get(g, "components"@, JsonV::Object(comps2), "components"@);
    crate::json::lemma_insert_then_get(comps, node_id, JsonV::Object(entry), node_id);
    lemma_key_pos(entry, "describe_hash"@);
    assert(entry[0].0 == "component_id"@);
    assert(entry[1].0 == "abi_version"@);
    assert(entry[2] == ("describe_hash"@, JsonV::Str(contract.describe_hash)));
    assert("component_id"@ != "describe_hash"@);
    assert("abi_version"@ != "describe_hash"@);
    assert(crate::json::key_pos(entry, "describe_hash"@) == 2);
}

} // verus!
