//! Lint of component configuration: each component node's resolved payload
//! against the input schema its manifest gives for the node's operation, with
//! the schema-mode policy for missing schemas and the wording of each
//! finding. Reading manifests and resolving schema references (files) is
//! the caller's; it hands in what it found per node.
use vstd::prelude::*;
use crate::model::strs_v;
use crate::schema_mode::SchemaMode;
use crate::text::{concat, concat3, str_eq};

verus! {

/// What the caller found for a node's input schema.
#[derive(Debug)]
pub enum SchemaLookup {
    /// The manifest could not be read.
    Failed { manifest: String, error: String },
    /// The manifest was read; `present` is false when the operation's input
    /// schema is missing or effectively empty.
    Found { component_id: String, operation: String, manifest: String, present: bool },
}

/// The outcome of checking a node's payload against its schema.
#[derive(Debug)]
pub enum PayloadCheck {
    /// The payload was checked: each finding's JSON pointer and message.
    Checked(Vec<(String, String)>),
    /// The schema refers to a file that does not exist: the reference.
    MissingReference(String),
    /// The schema does not compile: the reason.
    CompileFailed(String),
    /// The node's parameters could not be resolved: the reason.
    ParametersFailed(String),
}

/// One component node of the flow, in node order.
#[derive(Debug)]
pub struct NodeConfigCheck {
    pub node_id: String,
    pub component_id: String,
    pub lookup: SchemaLookup,
    pub check: PayloadCheck,
}

/// The findings (lint errors) and the warnings.
#[derive(Debug)]
pub struct ConfigLintReport {
    pub errors: Vec<String>,
    pub warnings: Vec<String>,
}

/// What a missing or empty schema is reported as.
pub open spec fn empty_base_v(component_id: Seq<char>, operation: Seq<char>, manifest: Seq<char>, source: Seq<char>) -> Seq<char> {
    "component '"@ + component_id + "', operation '"@ + operation + "', schema missing or empty at "@ + manifest
        + " (source: "@ + source + ")"@
}

pub open spec fn schema_source_v() -> Seq<char> {
    "operations[].input_schema"@
}

/// A missing or empty schema: an error in strict mode, a warning in
/// permissive mode.
pub open spec fn empty_schema_v(mode: SchemaMode, base: Seq<char>, guidance: Seq<char>) -> (Seq<Seq<char>>, Seq<Seq<char>>) {
    match mode {
        SchemaMode::Strict => (seq!["E_SCHEMA_EMPTY: "@ + base + ". "@ + guidance], Seq::empty()),
        SchemaMode::Permissive => (
            Seq::empty(),
            seq!["W_SCHEMA_EMPTY: "@ + base + ". "@ + guidance + " Validation disabled (permissive)."@],
        ),
    }
}

pub open spec fn pointer_or_root_v(p: Seq<char>) -> Seq<char> {
    if p.len() == 0 {
        "/"@
    } else {
        p
    }
}

pub open spec fn payload_finding_v(node: Seq<char>, component: Seq<char>, f: (Seq<char>, Seq<char>)) -> Seq<char> {
    "component_config: node '"@ + node + "' payload invalid for component '"@ + component + "' at "@
        + pointer_or_root_v(f.0) + ": "@ + f.1
}

pub open spec fn payload_findings_v(node: Seq<char>, component: Seq<char>, fs: Seq<(Seq<char>, Seq<char>)>) -> Seq<Seq<char>> {
    fs.map_values(|f: (Seq<char>, Seq<char>)| payload_finding_v(node, component, f))
}

pub open spec fn pairs_v(v: Seq<(String, String)>) -> Seq<(Seq<char>, Seq<char>)> {
    v.map_values(|x: (String, String)| (x.0@, x.1@))
}

/// The errors and warnings for one node.
pub open spec fn node_config_v(n: NodeConfigCheck, mode: SchemaMode, guidance: Seq<char>) -> (Seq<Seq<char>>, Seq<Seq<char>>) {
    let id = n.node_id@;
    if n.component_id@ == "questions"@ || n.component_id@ == "template"@ {
        (Seq::empty(), Seq::empty())
    } else {
        match n.lookup {
            SchemaLookup::Failed { manifest, error } => (
                seq!["component_config: node '"@ + id + "' failed to read "@ + manifest@ + ": "@ + error@],
                Seq::empty(),
            ),
            SchemaLookup::Found { component_id, operation, manifest, present } => if !present {
                empty_schema_v(mode, empty_base_v(component_id@, operation@, manifest@, schema_source_v()), guidance)
            } else {
                match n.check {
                    PayloadCheck::MissingReference(uri) => (
                        Seq::empty(),
                        seq![
                            "WARN component_config: node '"@ + id + "' schema validation for component '"@ + component_id@
                                + "' skipped because '"@ + uri@ + "' is missing (manifest: "@ + manifest@
                                + "). Continuing without this schema."@,
                        ],
                    ),
                    PayloadCheck::CompileFailed(e) => (
                        seq![
                            "component_config: node '"@ + id + "' schema compile failed for component '"@ + component_id@
                                + "': "@ + e@,
                        ],
                        Seq::empty(),
                    ),
                    PayloadCheck::ParametersFailed(e) => (
                        seq!["component_config: node '"@ + id + "' parameters resolution failed: "@ + e@],
                        Seq::empty(),
                    ),
                    PayloadCheck::Checked(fs) => (payload_findings_v(id, component_id@, pairs_v(fs@)), Seq::empty()),
                }
            },
        }
    }
}

/// The report over the nodes, in node order; a component-config flow is not
/// checked.
pub open spec fn config_report_v(nodes: Seq<NodeConfigCheck>, mode: SchemaMode, guidance: Seq<char>) -> (
    Seq<Seq<char>>,
    Seq<Seq<char>>,
)
    decreases nodes.len(),
{
    if nodes.len() == 0 {
        (Seq::empty(), Seq::empty())
    } else {
        let prev = config_report_v(nodes.drop_last(), mode, guidance);
        let cur = node_config_v(nodes.last(), mode, guidance);
        (prev.0 + cur.0, prev.1 + cur.1)
    }
}

fn one(s: String) -> (r: Vec<String>)
    ensures
        strs_v(r@) == seq![s@],
{
    let mut v: Vec<String> = Vec::new();
    v.push(s);
    assert(strs_v(v@) =~= seq![s@]);
    v
}

fn none() -> (r: Vec<String>)
    ensures
        strs_v(r@) == Seq::<Seq<char>>::empty(),
{
    let v: Vec<String> = Vec::new();
    assert(strs_v(v@) =~= Seq::<Seq<char>>::empty());
    v
}

fn cat5(a: &str, b: &str, c: &str, d: &str, e: &str) -> (r: String)
    ensures
        r@ == a@ + b@ + c@ + d@ + e@,
{
    let x = concat3(a, b, c);
    let y = concat3(x.as_str(), d, e);
    assert(y@ =~= a@ + b@ + c@ + d@ + e@);
    y
}

/// A missing or empty schema under the schema mode: the error, or the
/// warning (see `empty_schema_v`).
pub fn report_empty_schema(
    mode: SchemaMode,
    component_id: &str,
    operation: &str,
    manifest: &str,
    source: &str,
    guidance: &str,
) -> (r: (Vec<String>, Vec<String>))
    ensures
        (strs_v(r.0@), strs_v(r.1@)) == empty_schema_v(mode, empty_base_v(component_id@, operation@, manifest@, source@), guidance@),
{
    let a = cat5("component '", component_id, "', operation '", operation, "', schema missing or empty at ");
    let base = cat5(a.as_str(), manifest, " (source: ", source, ")");
    proof {
        assert(base@ =~= empty_base_v(component_id@, operation@, manifest@, source@));
    }
    match mode {
        SchemaMode::Strict => {
            let m = cat5("E_SCHEMA_EMPTY: ", base.as_str(), ". ", guidance, "");
            proof {
                reveal_strlit("");
                assert(m@ =~= "E_SCHEMA_EMPTY: "@ + base@ + ". "@ + guidance@);
            }
            (one(m), none())
        },
        SchemaMode::Permissive => {
            let m = cat5("W_SCHEMA_EMPTY: ", base.as_str(), ". ", guidance, " Validation disabled (permissive).");
            (none(), one(m))
        },
    }
}

fn payload_findings(node: &str, component: &str, fs: &Vec<(String, String)>) -> (r: Vec<String>)
    ensures
        strs_v(r@) == payload_findings_v(node@, component@, pairs_v(fs@)),
{
    let mut out: Vec<String> = Vec::new();
    let mut i: usize = 0;
    while i < fs.len()
        invariant
            i <= fs.len(),
            out@.len() == i,
            forall|k: int|
                0 <= k < i ==> (#[trigger] out@[k])@ == payload_finding_v(node@, component@, (fs@[k].0@, fs@[k].1@)),
        decreases fs.len() - i,
    {
        let p = &fs[i].0;
        let ptr: String = if p.unicode_len() == 0 {
            String::from_str("/")
        } else {
            p.clone()
        };
        proof {
            reveal_strlit("/");
            assert(ptr@ == pointer_or_root_v(fs@[i as int].0@));
        }
        let a = cat5("component_config: node '", node, "' payload invalid for component '", component, "' at ");
        let m = cat5(a.as_str(), ptr.as_str(), ": ", fs[i].1.as_str(), "");
        proof {
            reveal_strlit("");
            assert(m@ =~= payload_finding_v(node@, component@, (fs@[i as int].0@, fs@[i as int].1@)));
        }
        out.push(m);
        i = i + 1;
    }
    proof {
        assert(strs_v(out@) =~= payload_findings_v(node@, component@, pairs_v(fs@)));
    }
    out
}

fn node_config(n: &NodeConfigCheck, mode: SchemaMode, guidance: &str) -> (r: (Vec<String>, Vec<String>))
    ensures
        (strs_v(r.0@), strs_v(r.1@)) == node_config_v(*n, mode, guidance@),
{
    let id = n.node_id.as_str();
    if str_eq(n.component_id.as_str(), "questions") || str_eq(n.component_id.as_str(), "template") {
        return (none(), none());
    }
    match &n.lookup {
        SchemaLookup::Failed { manifest, error } => {
            let m = cat5("component_config: node '", id, "' failed to read ", manifest.as_str(), ": ");
            let m2 = concat(m.as_str(), error.as_str());
            (one(m2), none())
        },
        SchemaLookup::Found { component_id, operation, manifest, present } => {
            if !*present {
                return report_empty_schema(
                    mode,
                    component_id.as_str(),
                    operation.as_str(),
                    manifest.as_str(),
                    "operations[].input_schema",
                    guidance,
                );
            }
            match &n.check {
                PayloadCheck::MissingReference(uri) => {
                    let a = cat5(
                        "WARN component_config: node '",
                        id,
                        "' schema validation for component '",
                        component_id.as_str(),
                        "' skipped because '",
                    );
                    let b = cat5(a.as_str(), uri.as_str(), "' is missing (manifest: ", manifest.as_str(), "). Continuing without this schema.");
                    (none(), one(b))
                },
                PayloadCheck::CompileFailed(e) => {
                    let a = cat5("component_config: node '", id, "' schema compile failed for component '", component_id.as_str(), "': ");
                    let b = concat(a.as_str(), e.as_str());
                    (one(b), none())
                },
                PayloadCheck::ParametersFailed(e) => {
                    let a = concat3("component_config: node '", id, "' parameters resolution failed: ");
                    let b = concat(a.as_str(), e.as_str());
                    (one(b), none())
                },
                PayloadCheck::Checked(fs) => (payload_findings(id, component_id.as_str(), fs), none()),
            }
        },
    }
}

/// The component-config lint of a flow (see `config_report_v`): nothing for
/// a flow of kind `component-config`, else each node's findings and warnings
/// in node order.
pub fn component_config_findings(flow_kind: &str, mode: SchemaMode, guidance: &str, nodes: &Vec<NodeConfigCheck>) -> (r: ConfigLintReport)
    ensures
        flow_kind@ == "component-config"@ ==> r.errors@.len() == 0 && r.warnings@.len() == 0,
        flow_kind@ != "component-config"@ ==> (strs_v(r.errors@), strs_v(r.warnings@)) == config_report_v(nodes@, mode, guidance@),
{
    if str_eq(flow_kind, "component-config") {
        return ConfigLintReport { errors: Vec::new(), warnings: Vec::new() };
    }
    let mut errors: Vec<String> = Vec::new();
    let mut warnings: Vec<String> = Vec::new();
    let mut i: usize = 0;
    proof {
        assert(nodes@.take(0) =~= Seq::<NodeConfigCheck>::empty());
        assert(strs_v(errors@) =~= Seq::<Seq<char>>::empty());
        assert(strs_v(warnings@) =~= Seq::<Seq<char>>::empty());
    }
    while i < nodes.len()
        invariant
            i <= nodes.len(),
            (strs_v(errors@), strs_v(warnings@)) == config_report_v(nodes@.take(i as int), mode, guidance@),
        decreases nodes.len() - i,
    {
        proof {
            assert(nodes@.take(i + 1).drop_last() =~= nodes@.take(i as int));
            assert(nodes@.take(i + 1).last() == nodes@[i as int]);
        }
        let (mut e, mut w) = node_config(&nodes[i], mode, guidance);
        let ghost e0 = errors@;
        let ghost w0 = warnings@;
        let ghost ev = e@;
        let ghost wv = w@;
        errors.append(&mut e);
        warnings.append(&mut w);
        proof {
            assert(strs_v(errors@) =~= strs_v(e0) + strs_v(ev));
            assert(strs_v(warnings@) =~= strs_v(w0) + strs_v(wv));
        }
        i = i + 1;
    }
    proof {
        assert(nodes@.take(nodes.len() as int) =~= nodes@);
    }
    ConfigLintReport { errors, warnings }
}

} // verus!
