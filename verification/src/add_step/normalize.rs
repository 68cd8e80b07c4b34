//! Reading the node object handed to add-step.
use vstd::prelude::*;
use crate::error::{FlowError, FlowErrorLocation, opt_str};
use crate::json::{JsonValue, JsonV, Entries, ev, jv, obj_get_v, obj_remove_v, has_key, obj_get, obj_remove, lemma_jv_entries, get_v};
use crate::route::{Route, RouteV, routes_v};
use crate::text::{str_eq, trim, trim_seq, concat, concat3};
use crate::util::{is_valid_component_key, valid_component_key};

verus! {

/// A node object taken apart.
#[derive(Debug)]
pub struct NormalizedNode {
    pub component_id: String,
    pub pack_alias: Option<String>,
    pub operation: Option<String>,
    pub payload: JsonValue,
    pub routing: Vec<Route>,
}

pub struct NormalizedNodeV {
    pub component_id: Seq<char>,
    pub pack_alias: Option<Seq<char>>,
    pub operation: Option<Seq<char>>,
    pub payload: JsonV,
    pub routing: Seq<RouteV>,
}

impl View for NormalizedNode {
    type V = NormalizedNodeV;

    open spec fn view(&self) -> NormalizedNodeV {
        NormalizedNodeV {
            component_id: self.component_id@,
            pack_alias: opt_str(self.pack_alias),
            operation: opt_str(self.operation),
            payload: jv(self.payload),
            routing: routes_v(self.routing@),
        }
    }
}

/// Why a node object is refused: an internal error with a message and a
/// location path, or a component key that is not valid.
pub enum NormErr {
    Internal(Seq<char>, Seq<char>),
    BadKey(Seq<char>),
}

/// The node's fields as the first pass sorts them: `pack_alias`,
/// `operation`, `routing`, and the remaining entries.
pub struct Split {
    pub pack_alias: Option<Seq<char>>,
    pub operation: Option<Seq<char>>,
    pub routing: Option<JsonV>,
    pub rest: Entries,
}

pub open spec fn split_v(e: Entries) -> Result<Split, NormErr>
    decreases e.len(),
{
    if e.len() == 0 {
        Ok(Split { pack_alias: None, operation: None, routing: None, rest: Seq::empty() })
    } else {
        match split_v(e.drop_last()) {
            Err(x) => Err(x),
            Ok(s) => {
                let (k, v) = e.last();
                if k == "pack_alias"@ {
                    match v {
                        JsonV::Str(a) => Ok(Split { pack_alias: Some(a), ..s }),
                        _ => Err(NormErr::Internal("pack_alias must be a string"@, "pack_alias"@)),
                    }
                } else if k == "operation"@ {
                    match v {
                        JsonV::Str(o) => Ok(Split { operation: Some(o), ..s }),
                        _ => Err(NormErr::Internal("operation must be a string"@, "operation"@)),
                    }
                } else if k == "routing"@ {
                    Ok(Split { routing: Some(v), ..s })
                } else {
                    Ok(Split { rest: s.rest.push((k, v)), ..s })
                }
            },
        }
    }
}

/// The fields of a `tool` wrapper: `component` names the component,
/// `pack_alias` and `operation` fill in what the node did not give, and the
/// other entries are the payload.
pub struct ToolParts {
    pub component: Option<Seq<char>>,
    pub pack_alias: Option<Seq<char>>,
    pub operation: Option<Seq<char>>,
    pub payload: Entries,
}

pub open spec fn tool_v(e: Entries) -> Result<ToolParts, NormErr>
    decreases e.len(),
{
    if e.len() == 0 {
        Ok(ToolParts { component: None, pack_alias: None, operation: None, payload: Seq::empty() })
    } else {
        match tool_v(e.drop_last()) {
            Err(x) => Err(x),
            Ok(t) => {
                let (k, v) = e.last();
                if k == "component"@ {
                    match v {
                        JsonV::Str(c) => Ok(ToolParts { component: Some(c), ..t }),
                        _ => Err(NormErr::Internal("tool component must be a string"@, "node.tool.component"@)),
                    }
                } else if k == "pack_alias"@ {
                    match v {
                        JsonV::Str(a) => Ok(ToolParts { pack_alias: Some(a), ..t }),
                        _ => Err(NormErr::Internal("pack_alias must be a string"@, "pack_alias"@)),
                    }
                } else if k == "operation"@ {
                    match v {
                        JsonV::Str(o) => Ok(ToolParts { operation: Some(o), ..t }),
                        _ => Err(NormErr::Internal("operation must be a string"@, "operation"@)),
                    }
                } else {
                    Ok(ToolParts { payload: t.payload.push((k, v)), ..t })
                }
            },
        }
    }
}

/// The single component entry among the remaining entries.
pub open spec fn component_of_rest(rest: Entries) -> Result<(Seq<char>, JsonV), NormErr> {
    if rest.len() == 0 {
        Err(NormErr::Internal("node must contain a component key"@, "node"@))
    } else if !valid_component_key(rest[0].0) {
        Err(NormErr::BadKey(rest[0].0))
    } else if rest.len() > 1 {
        Err(NormErr::Internal("node must have exactly one component key"@, "nodes."@ + rest[1].0))
    } else {
        Ok(rest[0])
    }
}

/// Routes as add-step accepts them: null or an array of objects whose keys
/// are only `to`, `out`, `status` and `reply`; a `to` or `status` that is
/// not text counts as absent, a flag that is not boolean as false.
pub open spec fn strict_route_v(e: Entries) -> RouteV {
    RouteV {
        to: match obj_get_v(e, "to"@) { Some(JsonV::Str(s)) => Some(s), _ => None },
        out: match obj_get_v(e, "out"@) { Some(JsonV::Bool(b)) => b, _ => false },
        status: match obj_get_v(e, "status"@) { Some(JsonV::Str(s)) => Some(s), _ => None },
        reply: match obj_get_v(e, "reply"@) { Some(JsonV::Bool(b)) => b, _ => false },
    }
}

pub open spec fn allowed_route_key(k: Seq<char>) -> bool {
    k == "to"@ || k == "out"@ || k == "status"@ || k == "reply"@
}

/// The first key of a route object that is not allowed.
pub open spec fn first_bad_key(e: Entries) -> Option<Seq<char>>
    decreases e.len(),
{
    if e.len() == 0 {
        None
    } else if !allowed_route_key(e[0].0) {
        Some(e[0].0)
    } else {
        first_bad_key(e.drop_first())
    }
}

pub open spec fn strict_routes_seq(items: Seq<JsonV>) -> Result<Seq<RouteV>, Seq<char>>
    decreases items.len(),
{
    if items.len() == 0 {
        Ok(Seq::empty())
    } else {
        match strict_routes_seq(items.drop_last()) {
            Err(m) => Err(m),
            Ok(acc) => match items.last() {
                JsonV::Object(e) => match first_bad_key(e) {
                    Some(k) => Err("unsupported routing key '"@ + k + "'"@),
                    None => Ok(acc.push(strict_route_v(e))),
                },
                _ => Err("routing entries must be objects"@),
            },
        }
    }
}

/// Routes as add-step accepts them: a list of route objects, nothing, or
/// the shorthand `out` or `reply` for one route that ends the flow.
pub open spec fn strict_routes_v(v: JsonV) -> Result<Seq<RouteV>, Seq<char>> {
    match v {
        JsonV::Null => Ok(Seq::empty()),
        JsonV::Array(items) => strict_routes_seq(items),
        JsonV::Str(t) => if t == "out"@ {
            Ok(seq![RouteV { to: None, out: true, status: None, reply: false }])
        } else if t == "reply"@ {
            Ok(seq![RouteV { to: None, out: false, status: None, reply: true }])
        } else {
            Err("routing must be an array"@)
        },
        _ => Err("routing must be an array"@),
    }
}

/// What `normalize_node_map` makes of a node value.
pub open spec fn normalize_v(value: JsonV) -> Result<NormalizedNodeV, NormErr> {
    match value {
        JsonV::Object(map) => match split_v(map) {
            Err(x) => Err(x),
            Ok(s) => {
                let comp: Result<(Seq<char>, JsonV, Option<Seq<char>>, Option<Seq<char>>), NormErr> =
                    if s.rest.len() == 1 && s.rest[0].0 == "tool"@ {
                        match s.rest[0].1 {
                            JsonV::Object(te) => match tool_v(te) {
                                Err(x) => Err(x),
                                Ok(t) => match t.component {
                                    None => Err(NormErr::Internal("tool component must be a string"@, "node.tool.component"@)),
                                    Some(c) => if !valid_component_key(c) {
                                        Err(NormErr::BadKey(c))
                                    } else {
                                        Ok((
                                            c,
                                            JsonV::Object(t.payload),
                                            if s.pack_alias is Some { s.pack_alias } else { t.pack_alias },
                                            if s.operation is Some { s.operation } else { t.operation },
                                        ))
                                    },
                                },
                            },
                            _ => Err(NormErr::Internal("tool must be an object"@, "node.tool"@)),
                        }
                    } else {
                        match component_of_rest(s.rest) {
                            Err(x) => Err(x),
                            Ok((c, p)) => Ok((c, p, s.pack_alias, s.operation)),
                        }
                    };
                match comp {
                    Err(x) => Err(x),
                    Ok((cid, payload0, alias, op0)) => {
                        let lifted = exec_operation_v(cid, payload0, op0);
                        let payload = lifted.0;
                        let op = lifted.1;
                        if cid == "component.exec"@ && (op is None || op->0.len() == 0) {
                            Err(NormErr::Internal("component.exec requires a non-empty operation"@, "node.operation"@))
                        } else {
                            match strict_routes_v(
                                match s.routing {
                                    Some(r) => r,
                                    None => JsonV::Array(Seq::empty()),
                                },
                            ) {
                                Err(m) => Err(NormErr::Internal(m, "routing"@)),
                                Ok(routes) => Ok(NormalizedNodeV {
                                    component_id: cid,
                                    pack_alias: alias,
                                    operation: op,
                                    payload,
                                    routing: routes,
                                }),
                            }
                        }
                    },
                }
            },
        },
        _ => Err(NormErr::Internal("node must be an object"@, "node"@)),
    }
}

/// For `component.exec` without an operation, a non-empty `operation` text
/// in the payload becomes the operation (trimmed) and leaves the payload.
pub open spec fn exec_operation_v(cid: Seq<char>, payload: JsonV, op: Option<Seq<char>>) -> (JsonV, Option<Seq<char>>) {
    if cid == "component.exec"@ && op is None {
        match payload {
            JsonV::Object(pe) => match obj_get_v(pe, "operation"@) {
                Some(JsonV::Str(o)) => if trim_seq(o).len() > 0 {
                    (JsonV::Object(obj_remove_v(pe, "operation"@)), Some(trim_seq(o)))
                } else {
                    (payload, op)
                },
                _ => (payload, op),
            },
            _ => (payload, op),
        }
    } else {
        (payload, op)
    }
}

/// The error value for a refusal.
pub open spec fn norm_err_matches(x: NormErr, e: FlowError) -> bool {
    match x {
        NormErr::Internal(m, p) => e matches FlowError::Internal { message, location }
            && message@ == m && location.path_v() == Some(p) && location.line is None
            && location.column is None,
        NormErr::BadKey(k) => e matches FlowError::BadComponentKey { component, node_id, location }
            && component@ == k && node_id@ == "add_step"@ && location.path_v() == Some("node"@)
            && location.line is None && location.column is None,
    }
}

fn internal(m: &str, p: &str) -> (e: FlowError)
    ensures
        norm_err_matches(NormErr::Internal(m@, p@), e),
{
    FlowError::internal(String::from_str(m), String::from_str(p))
}

fn bad_key(k: String) -> (e: FlowError)
    ensures
        norm_err_matches(NormErr::BadKey(k@), e),
{
    FlowError::BadComponentKey {
        component: k,
        node_id: String::from_str("add_step"),
        location: FlowErrorLocation::at_path(String::from_str("node")),
    }
}


fn opt_text(v: Option<&JsonValue>) -> (r: Option<String>)
    ensures
        opt_str(r) == match v {
            Some(x) => match jv(*x) {
                JsonV::Str(s) => Some(s),
                _ => None,
            },
            None => None,
        },
{
    match v {
        Some(JsonValue::String(s)) => Some(s.clone()),
        _ => None,
    }
}

fn opt_flag(v: Option<&JsonValue>) -> (r: bool)
    ensures
        r == match v {
            Some(x) => match jv(*x) {
                JsonV::Bool(b) => b,
                _ => false,
            },
            None => false,
        },
{
    match v {
        Some(JsonValue::Bool(b)) => *b,
        _ => false,
    }
}

fn bad_route_key(e: &Vec<(String, JsonValue)>) -> (r: Option<String>)
    ensures
        opt_str(r) == first_bad_key(ev(e@)),
{
    proof {
        lemma_jv_entries(e@);
        assert(ev(e@).skip(0) =~= ev(e@));
    }
    let mut i: usize = 0;
    while i < e.len()
        invariant
            i <= e.len(),
            ev(e@).len() == e@.len(),
            forall|k: int| 0 <= k < e@.len() ==> #[trigger] ev(e@)[k] == (e@[k].0@, jv(e@[k].1)),
            first_bad_key(ev(e@)) == first_bad_key(ev(e@).skip(i as int)),
        decreases e.len() - i,
    {
        let k = e[i].0.as_str();
        let ghost t = ev(e@).skip(i as int);
        proof {
            assert(t[0] == ev(e@)[i as int]);
            assert(t.drop_first() =~= ev(e@).skip(i + 1));
        }
        if !(str_eq(k, "to") || str_eq(k, "out") || str_eq(k, "status") || str_eq(k, "reply")) {
            return Some(e[i].0.clone());
        }
        i = i + 1;
    }
    proof {
        assert(ev(e@).skip(e.len() as int) =~= Seq::<(Seq<char>, JsonV)>::empty());
    }
    None
}

/// Reads routes as add-step accepts them.
pub fn parse_strict_routes(v: &JsonValue) -> (r: Result<Vec<Route>, String>)
    ensures
        match r {
            Ok(routes) => strict_routes_v(v@) == Ok::<Seq<RouteV>, Seq<char>>(routes_v(routes@)),
            Err(m) => strict_routes_v(v@) == Err::<Seq<RouteV>, Seq<char>>(m@),
        },
{
    match v {
        JsonValue::Null => {
            let out: Vec<Route> = Vec::new();
            assert(routes_v(out@) =~= Seq::<RouteV>::empty());
            Ok(out)
        },
        JsonValue::String(t) => {
            let is_out = str_eq(t.as_str(), "out");
            let is_reply = str_eq(t.as_str(), "reply");
            if is_out || is_reply {
                let mut out: Vec<Route> = Vec::new();
                out.push(Route { to: None, out: is_out, status: None, reply: !is_out });
                proof {
                    reveal_strlit("out");
                    reveal_strlit("reply");
                    assert(routes_v(out@) =~= seq![out@[0]@]);
                }
                Ok(out)
            } else {
                Err(String::from_str("routing must be an array"))
            }
        },
        JsonValue::Array(items) => {
            proof {
                crate::json::lemma_jv_seq(items@);
            }
            let ghost js = crate::json::jv_seq(items@);
            let mut out: Vec<Route> = Vec::new();
            let mut i: usize = 0;
            proof {
                assert(js.subrange(0, 0) =~= Seq::<JsonV>::empty());
                assert(routes_v(out@) =~= Seq::<RouteV>::empty());
            }
            while i < items.len()
                invariant
                    i <= items.len(),
                    *v == JsonValue::Array(*items),
                    js == crate::json::jv_seq(items@),
                    js.len() == items@.len(),
                    forall|k: int| 0 <= k < items@.len() ==> #[trigger] js[k] == jv(items@[k]),
                    strict_routes_seq(js.subrange(0, i as int)) == Ok::<Seq<RouteV>, Seq<char>>(
                        routes_v(out@),
                    ),
                decreases items.len() - i,
            {
                let ghost cur = js.subrange(0, i + 1);
                proof {
                    assert(cur.drop_last() =~= js.subrange(0, i as int));
                    assert(cur.last() == jv(items@[i as int]));
                }
                match &items[i] {
                    JsonValue::Object(e) => {
                        match bad_route_key(e) {
                            Some(k) => {
                                proof {
                                    lemma_strict_prefix_err(js, i as int + 1);
                                }
                                return Err(concat3("unsupported routing key '", k.as_str(), "'"));
                            },
                            None => {},
                        }
                        let route = Route {
                            to: opt_text(obj_get(e, "to")),
                            out: opt_flag(obj_get(e, "out")),
                            status: opt_text(obj_get(e, "status")),
                            reply: opt_flag(obj_get(e, "reply")),
                        };
                        let ghost before = out@;
                        out.push(route);
                        proof {
                            assert(routes_v(out@) =~= routes_v(before).push(route@));
                        }
                    },
                    _ => {
                        proof {
                            lemma_strict_prefix_err(js, i as int + 1);
                        }
                        return Err(String::from_str("routing entries must be objects"));
                    },
                }
                i = i + 1;
            }
            proof {
                assert(js.subrange(0, items.len() as int) =~= js);
            }
            Ok(out)
        },
        _ => Err(String::from_str("routing must be an array")),
    }
}

proof fn lemma_strict_prefix_err(s: Seq<JsonV>, n: int)
    requires
        0 <= n <= s.len(),
        strict_routes_seq(s.subrange(0, n)) is Err,
    ensures
        strict_routes_seq(s) == strict_routes_seq(s.subrange(0, n)),
    decreases s.len() - n,
{
    if n < s.len() {
        assert(s.subrange(0, n + 1).drop_last() =~= s.subrange(0, n));
        lemma_strict_prefix_err(s, n + 1);
    } else {
        assert(s.subrange(0, n) =~= s);
    }
}

proof fn lemma_split_prefix_err(s: Entries, n: int)
    requires
        0 <= n <= s.len(),
        split_v(s.subrange(0, n)) is Err,
    ensures
        split_v(s) == split_v(s.subrange(0, n)),
    decreases s.len() - n,
{
    if n < s.len() {
        assert(s.subrange(0, n + 1).drop_last() =~= s.subrange(0, n));
        lemma_split_prefix_err(s, n + 1);
    } else {
        assert(s.subrange(0, n) =~= s);
    }
}

proof fn lemma_tool_prefix_err(s: Entries, n: int)
    requires
        0 <= n <= s.len(),
        tool_v(s.subrange(0, n)) is Err,
    ensures
        tool_v(s) == tool_v(s.subrange(0, n)),
    decreases s.len() - n,
{
    if n < s.len() {
        assert(s.subrange(0, n + 1).drop_last() =~= s.subrange(0, n));
        lemma_tool_prefix_err(s, n + 1);
    } else {
        assert(s.subrange(0, n) =~= s);
    }
}

/// The fields of a `tool` wrapper, taken apart.
fn split_tool(te: Vec<(String, JsonValue)>) -> (r: Result<(Option<String>, Option<String>, Option<String>, Vec<(String, JsonValue)>), FlowError>)
    ensures
        match r {
            Ok((c, a, o, p)) => tool_v(ev(te@)) == Ok::<ToolParts, NormErr>(ToolParts {
                component: opt_str(c),
                pack_alias: opt_str(a),
                operation: opt_str(o),
                payload: ev(p@),
            }),
            Err(e) => tool_v(ev(te@)) matches Err(x) && norm_err_matches(x, e),
        },
{
    let ghost orig = ev(te@);
    proof {
        lemma_jv_entries(te@);
    }
    let n = te.len();
    let mut work = te;
    let mut component: Option<String> = None;
    let mut alias: Option<String> = None;
    let mut op: Option<String> = None;
    let mut payload: Vec<(String, JsonValue)> = Vec::new();
    let mut i: usize = 0;
    proof {
        assert(orig.subrange(0, 0) =~= Seq::<(Seq<char>, JsonV)>::empty());
        assert(ev(payload@) =~= Seq::<(Seq<char>, JsonV)>::empty());
    }
    while i < n
        invariant
            i <= n,
            orig.len() == n,
            orig == ev(te@),
            work@.len() == n - i,
            forall|k: int| 0 <= k < n - i ==> (#[trigger] work@[k]).0@ == orig[i + k].0 && jv(work@[k].1) == orig[i + k].1,
            tool_v(orig.subrange(0, i as int)) == Ok::<ToolParts, NormErr>(ToolParts {
                component: opt_str(component),
                pack_alias: opt_str(alias),
                operation: opt_str(op),
                payload: ev(payload@),
            }),
        decreases n - i,
    {
        let (k, v) = work.remove(0);
        let ghost cur = orig.subrange(0, i + 1);
        proof {
            assert(cur.drop_last() =~= orig.subrange(0, i as int));
            assert(cur.last() == (k@, jv(v)));
        }
        if str_eq(k.as_str(), "component") {
            match v {
                JsonValue::String(c) => {
                    component = Some(c);
                },
                _ => {
                    proof {
                        lemma_tool_prefix_err(orig, i as int + 1);
                    }
                    return Err(internal("tool component must be a string", "node.tool.component"));
                },
            }
        } else if str_eq(k.as_str(), "pack_alias") {
            match v {
                JsonValue::String(a) => {
                    alias = Some(a);
                },
                _ => {
                    proof {
                        lemma_tool_prefix_err(orig, i as int + 1);
                    }
                    return Err(internal("pack_alias must be a string", "pack_alias"));
                },
            }
        } else if str_eq(k.as_str(), "operation") {
            match v {
                JsonValue::String(o) => {
                    op = Some(o);
                },
                _ => {
                    proof {
                        lemma_tool_prefix_err(orig, i as int + 1);
                    }
                    return Err(internal("operation must be a string", "operation"));
                },
            }
        } else {
            let ghost before = payload@;
            let ghost kv = (k@, jv(v));
            payload.push((k, v));
            proof {
                lemma_jv_entries(before);
                lemma_jv_entries(payload@);
                assert(ev(payload@) =~= ev(before).push(kv));
            }
        }
        i = i + 1;
    }
    proof {
        assert(orig.subrange(0, n as int) =~= orig);
    }
    Ok((component, alias, op, payload))
}

/// Takes a node value apart into its component, pack alias, operation,
/// payload and routes. A node given as `{ "tool": { "component": .., .. } }`
/// is unwrapped into the component it names.
pub fn normalize_node_map(value: JsonValue) -> (r: Result<NormalizedNode, FlowError>)
    ensures
        match r {
            Ok(n) => normalize_v(value@) == Ok::<NormalizedNodeV, NormErr>(n@),
            Err(e) => normalize_v(value@) matches Err(x) && norm_err_matches(x, e),
        },
{
    let ghost vv = value@;
    let mut map = match value {
        JsonValue::Object(m) => m,
        _ => {
            return Err(internal("node must be an object", "node"));
        },
    };
    let ghost orig = ev(map@);
    proof {
        lemma_jv_entries(map@);
    }
    let n = map.len();
    let mut alias: Option<String> = None;
    let mut op: Option<String> = None;
    let mut routing: Option<JsonValue> = None;
    let mut rest: Vec<(String, JsonValue)> = Vec::new();
    let mut i: usize = 0;
    proof {
        assert(orig.subrange(0, 0) =~= Seq::<(Seq<char>, JsonV)>::empty());
        assert(ev(rest@) =~= Seq::<(Seq<char>, JsonV)>::empty());
    }
    while i < n
        invariant
            i <= n,
            vv == JsonV::Object(orig),
            vv == value@,
            orig.len() == n,
            map@.len() == n - i,
            forall|k: int| 0 <= k < n - i ==> (#[trigger] map@[k]).0@ == orig[i + k].0 && jv(map@[k].1) == orig[i + k].1,
            split_v(orig.subrange(0, i as int)) == Ok::<Split, NormErr>(Split {
                pack_alias: opt_str(alias),
                operation: opt_str(op),
                routing: crate::model::opt_jv(routing),
                rest: ev(rest@),
            }),
        decreases n - i,
    {
        let (k, v) = map.remove(0);
        let ghost cur = orig.subrange(0, i + 1);
        proof {
            assert(cur.drop_last() =~= orig.subrange(0, i as int));
            assert(cur.last() == (k@, jv(v)));
        }
        if str_eq(k.as_str(), "pack_alias") {
            match v {
                JsonValue::String(a) => {
                    alias = Some(a);
                },
                _ => {
                    proof {
                        lemma_split_prefix_err(orig, i as int + 1);
                    }
                    return Err(internal("pack_alias must be a string", "pack_alias"));
                },
            }
        } else if str_eq(k.as_str(), "operation") {
            match v {
                JsonValue::String(o) => {
                    op = Some(o);
                },
                _ => {
                    proof {
                        lemma_split_prefix_err(orig, i as int + 1);
                    }
                    return Err(internal("operation must be a string", "operation"));
                },
            }
        } else if str_eq(k.as_str(), "routing") {
            routing = Some(v);
        } else {
            let ghost before = rest@;
            let ghost kv = (k@, jv(v));
            rest.push((k, v));
            proof {
                lemma_jv_entries(before);
                lemma_jv_entries(rest@);
                assert(ev(rest@) =~= ev(before).push(kv));
            }
        }
        i = i + 1;
    }
    proof {
        assert(orig.subrange(0, n as int) =~= orig);
        lemma_jv_entries(rest@);
    }
    let ghost sp = split_v(orig)->Ok_0;
    // The component, its payload, pack alias and operation.
    let (cid, payload0, alias, op0) = if rest.len() == 1 && str_eq(rest[0].0.as_str(), "tool") {
        let (_tk, tv) = rest.remove(0);
        match tv {
            JsonValue::Object(te) => {
                match split_tool(te) {
                    Err(e) => {
                        return Err(e);
                    },
                    Ok((c, a, o, p)) => match c {
                        None => {
                            return Err(internal("tool component must be a string", "node.tool.component"));
                        },
                        Some(c) => {
                            if !is_valid_component_key(c.as_str()) {
                                return Err(bad_key(c));
                            }
                            let alias = if alias.is_some() { alias } else { a };
                            let op = if op.is_some() { op } else { o };
                            (c, JsonValue::Object(p), alias, op)
                        },
                    },
                }
            },
            _ => {
                return Err(internal("tool must be an object", "node.tool"));
            },
        }
    } else {
        if rest.len() == 0 {
            return Err(internal("node must contain a component key", "node"));
        }
        if !is_valid_component_key(rest[0].0.as_str()) {
            return Err(bad_key(rest[0].0.clone()));
        }
        if rest.len() > 1 {
            return Err(FlowError::internal(
                String::from_str("node must have exactly one component key"),
                concat("nodes.", rest[1].0.as_str()),
            ));
        }
        let (c, p) = rest.remove(0);
        (c, p, alias, op)
    };
    // A `component.exec` payload may carry the operation.
    let ghost pre_payload = payload0@;
    let mut payload = payload0;
    let mut op = op0;
    if str_eq(cid.as_str(), "component.exec") && op.is_none() {
        let mut found: Option<String> = None;
        match &payload {
            JsonValue::Object(pe) => match obj_get(pe, "operation") {
                Some(JsonValue::String(o)) => {
                    let t = trim(o.as_str());
                    if t.as_str().unicode_len() > 0 {
                        found = Some(t);
                    }
                },
                _ => {},
            },
            _ => {},
        }
        match found {
            Some(t) => {
                match &mut payload {
                    JsonValue::Object(pe) => {
                        let _ = obj_remove(pe, "operation");
                    },
                    _ => {},
                }
                op = Some(t);
            },
            None => {},
        }
    }
    proof {
        assert((payload@, opt_str(op)) == exec_operation_v(cid@, pre_payload, opt_str(op0)));
    }
    let empty_op = match &op {
        Some(o) => o.as_str().unicode_len() == 0,
        None => true,
    };
    if str_eq(cid.as_str(), "component.exec") && empty_op {
        return Err(internal("component.exec requires a non-empty operation", "node.operation"));
    }
    let routes_value = match routing {
        Some(r) => r,
        None => JsonValue::Array(Vec::new()),
    };
    proof {
        crate::json::lemma_jv_seq(Seq::<JsonValue>::empty());
    }
    let routes = match parse_strict_routes(&routes_value) {
        Ok(r) => r,
        Err(m) => {
            return Err(FlowError::internal(m, String::from_str("routing")));
        },
    };
    Ok(NormalizedNode { component_id: cid, pack_alias: alias, operation: op, payload, routing: routes })
}

} // verus!
