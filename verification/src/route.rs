//! Routes between nodes, and how they are read from and written to JSON.
use vstd::prelude::*;
use crate::error::{opt_str, clone_opt_string};
use crate::json::{JsonValue, JsonV, ev, get_v, obj_get_v, obj_get, jv, jv_seq, lemma_jv_seq, lemma_jv_entries};

verus! {

/// One outgoing edge of a node.
#[derive(Debug)]
pub struct Route {
    pub to: Option<String>,
    pub out: bool,
    pub status: Option<String>,
    pub reply: bool,
}

pub struct RouteV {
    pub to: Option<Seq<char>>,
    pub out: bool,
    pub status: Option<Seq<char>>,
    pub reply: bool,
}

impl View for Route {
    type V = RouteV;

    open spec fn view(&self) -> RouteV {
        RouteV { to: opt_str(self.to), out: self.out, status: opt_str(self.status), reply: self.reply }
    }
}

pub open spec fn routes_v(r: Seq<Route>) -> Seq<RouteV> {
    r.map_values(|x: Route| x@)
}

impl Route {
    /// `Route::default()`: no target, no flags.
    pub fn empty() -> (r: Route)
        ensures
            r@ == (RouteV { to: None, out: false, status: None, reply: false }),
    {
        Route { to: None, out: false, status: None, reply: false }
    }

    /// A route to a node.
    pub fn to_node(id: String) -> (r: Route)
        ensures
            r@ == (RouteV { to: Some(id@), out: false, status: None, reply: false }),
    {
        Route { to: Some(id), out: false, status: None, reply: false }
    }

    pub fn duplicate(&self) -> (r: Route)
        ensures
            r@ == self@,
    {
        Route {
            to: clone_opt_string(&self.to),
            out: self.out,
            status: clone_opt_string(&self.status),
            reply: self.reply,
        }
    }
}

pub fn clone_routes(r: &Vec<Route>) -> (out: Vec<Route>)
    ensures
        routes_v(out@) == routes_v(r@),
{
    let mut out: Vec<Route> = Vec::new();
    let mut i: usize = 0;
    while i < r.len()
        invariant
            i <= r.len(),
            routes_v(out@) == routes_v(r@.subrange(0, i as int)),
        decreases r.len() - i,
    {
        out.push(r[i].duplicate());
        proof {
            assert(routes_v(r@.subrange(0, i + 1)) =~= routes_v(r@.subrange(0, i as int)).push(
                r@[i as int]@,
            ));
        }
        i = i + 1;
    }
    proof {
        assert(r@.subrange(0, r.len() as int) =~= r@);
    }
    out
}

// ---------------------------------------------------------------------------
// Reading routes from JSON
// ---------------------------------------------------------------------------

/// An optional text field: absent or null is `None`; anything but a string
/// does not decode.
pub open spec fn decode_opt_str(v: Option<JsonV>) -> Option<Option<Seq<char>>> {
    match v {
        None => Some(None),
        Some(JsonV::Null) => Some(None),
        Some(JsonV::Str(s)) => Some(Some(s)),
        _ => None,
    }
}

/// An optional flag: absent or null is `false`; anything but a boolean does
/// not decode.
pub open spec fn decode_opt_bool(v: Option<JsonV>) -> Option<bool> {
    match v {
        None => Some(false),
        Some(JsonV::Null) => Some(false),
        Some(JsonV::Bool(b)) => Some(b),
        _ => None,
    }
}

/// One route: an object whose `to`, `out`, `status` and `reply` fields
/// decode; other fields are ignored.
pub open spec fn decode_route(v: JsonV) -> Option<RouteV> {
    match v {
        JsonV::Object(e) => {
            let to = decode_opt_str(obj_get_v(e, "to"@));
            let out = decode_opt_bool(obj_get_v(e, "out"@));
            let status = decode_opt_str(obj_get_v(e, "status"@));
            let reply = decode_opt_bool(obj_get_v(e, "reply"@));
            if to is Some && out is Some && status is Some && reply is Some {
                Some(RouteV { to: to->0, out: out->0, status: status->0, reply: reply->0 })
            } else {
                None
            }
        },
        _ => None,
    }
}

pub open spec fn decode_route_seq(s: Seq<JsonV>) -> Option<Seq<RouteV>>
    decreases s.len(),
{
    if s.len() == 0 {
        Some(Seq::empty())
    } else {
        match (decode_route_seq(s.drop_last()), decode_route(s.last())) {
            (Some(a), Some(r)) => Some(a.push(r)),
            _ => None,
        }
    }
}

/// A routing value: null is no routes, an array decodes entry by entry,
/// anything else does not decode.
pub open spec fn decode_routes(v: JsonV) -> Option<Seq<RouteV>> {
    match v {
        JsonV::Null => Some(Seq::empty()),
        JsonV::Array(items) => decode_route_seq(items),
        _ => None,
    }
}

fn read_opt_str(v: Option<&JsonValue>) -> (r: Option<Option<String>>)
    ensures
        match r {
            Some(o) => decode_opt_str(
                match v {
                    Some(x) => Some(jv(*x)),
                    None => None,
                },
            ) == Some(opt_str(o)),
            None => decode_opt_str(
                match v {
                    Some(x) => Some(jv(*x)),
                    None => None,
                },
            ) is None,
        },
{
    match v {
        None => Some(None),
        Some(JsonValue::Null) => Some(None),
        Some(JsonValue::String(s)) => Some(Some(s.clone())),
        Some(_) => None,
    }
}

fn read_opt_bool(v: Option<&JsonValue>) -> (r: Option<bool>)
    ensures
        r == decode_opt_bool(
            match v {
                Some(x) => Some(jv(*x)),
                None => None,
            },
        ),
{
    match v {
        None => Some(false),
        Some(JsonValue::Null) => Some(false),
        Some(JsonValue::Bool(b)) => Some(*b),
        Some(_) => None,
    }
}

/// Reads one route.
pub fn route_from_json(v: &JsonValue) -> (r: Option<Route>)
    ensures
        match r {
            Some(route) => decode_route(v@) == Some(route@),
            None => decode_route(v@) is None,
        },
{
    match v {
        JsonValue::Object(e) => {
            let to = read_opt_str(obj_get(e, "to"));
            let out = read_opt_bool(obj_get(e, "out"));
            let status = read_opt_str(obj_get(e, "status"));
            let reply = read_opt_bool(obj_get(e, "reply"));
            match (to, out, status, reply) {
                (Some(to), Some(out), Some(status), Some(reply)) => Some(
                    Route { to, out, status, reply },
                ),
                _ => None,
            }
        },
        _ => None,
    }
}

/// Reads a routing value.
pub fn routes_from_json(v: &JsonValue) -> (r: Option<Vec<Route>>)
    ensures
        match r {
            Some(routes) => decode_routes(v@) == Some(routes_v(routes@)),
            None => decode_routes(v@) is None,
        },
{
    match v {
        JsonValue::Null => Some(Vec::new()),
        JsonValue::Array(items) => {
            proof {
                lemma_jv_seq(items@);
            }
            let mut out: Vec<Route> = Vec::new();
            let mut i: usize = 0;
            while i < items.len()
                invariant
                    i <= items.len(),
                    *v == JsonValue::Array(*items),
                    jv_seq(items@).len() == items@.len(),
                    forall|k: int| 0 <= k < items@.len() ==> #[trigger] jv_seq(items@)[k] == jv(items@[k]),
                    decode_route_seq(jv_seq(items@).subrange(0, i as int)) == Some(routes_v(out@)),
                decreases items.len() - i,
            {
                let ghost pre = jv_seq(items@).subrange(0, i as int);
                match route_from_json(&items[i]) {
                    Some(route) => {
                        out.push(route);
                        proof {
                            let s = jv_seq(items@).subrange(0, i + 1);
                            assert(s.drop_last() =~= pre);
                            assert(s.last() == jv(items@[i as int]));
                            assert(routes_v(out@) =~= routes_v(out@.drop_last()).push(out@.last()@));
                        }
                    },
                    None => {
                        proof {
                            let s = jv_seq(items@).subrange(0, i + 1);
                            assert(s.drop_last() =~= pre);
                            assert(s.last() == jv(items@[i as int]));
                            assert(decode_route_seq(s) is None);
                            lemma_route_seq_prefix_fails(jv_seq(items@), i as int + 1);
                            assert(v@ == JsonV::Array(jv_seq(items@)));
                        }
                        return None;
                    },
                }
                i = i + 1;
            }
            proof {
                assert(jv_seq(items@).subrange(0, items.len() as int) =~= jv_seq(items@));
            }
            Some(out)
        },
        _ => None,
    }
}

/// When a prefix of the entries does not decode, neither does the whole.
proof fn lemma_route_seq_prefix_fails(s: Seq<JsonV>, n: int)
    requires
        0 <= n <= s.len(),
        decode_route_seq(s.subrange(0, n)) is None,
    ensures
        decode_route_seq(s) is None,
    decreases s.len() - n,
{
    if n < s.len() {
        let t = s.subrange(0, n + 1);
        assert(t.drop_last() =~= s.subrange(0, n));
        lemma_route_seq_prefix_fails(s, n + 1);
    } else {
        assert(s.subrange(0, n) =~= s);
    }
}

// ---------------------------------------------------------------------------
// Writing routes to JSON
// ---------------------------------------------------------------------------

/// A route as an object with `to`, `out`, `status` and `reply`, leaving out
/// absent texts and false flags.
pub open spec fn encode_route(r: RouteV) -> JsonV {
    let e0: Seq<(Seq<char>, JsonV)> = Seq::empty();
    let e1 = if r.to is Some { e0.push(("to"@, JsonV::Str(r.to->0))) } else { e0 };
    let e2 = if r.out { e1.push(("out"@, JsonV::Bool(true))) } else { e1 };
    let e3 = if r.status is Some { e2.push(("status"@, JsonV::Str(r.status->0))) } else { e2 };
    let e4 = if r.reply { e3.push(("reply"@, JsonV::Bool(true))) } else { e3 };
    JsonV::Object(e4)
}

pub open spec fn encode_routes(r: Seq<RouteV>) -> JsonV {
    JsonV::Array(r.map_values(|x: RouteV| encode_route(x)))
}

pub fn route_to_json(r: &Route) -> (v: JsonValue)
    ensures
        v@ == encode_route(r@),
{
    let mut e: Vec<(String, JsonValue)> = Vec::new();
    match &r.to {
        Some(t) => e.push((String::from_str("to"), JsonValue::String(t.clone()))),
        None => {},
    }
    if r.out {
        e.push((String::from_str("out"), JsonValue::Bool(true)));
    }
    match &r.status {
        Some(t) => e.push((String::from_str("status"), JsonValue::String(t.clone()))),
        None => {},
    }
    if r.reply {
        e.push((String::from_str("reply"), JsonValue::Bool(true)));
    }
    proof {
        lemma_jv_entries(e@);
        let rv = r@;
        let e0: Seq<(Seq<char>, JsonV)> = Seq::empty();
        let e1 = if rv.to is Some { e0.push(("to"@, JsonV::Str(rv.to->0))) } else { e0 };
        let e2 = if rv.out { e1.push(("out"@, JsonV::Bool(true))) } else { e1 };
        let e3 = if rv.status is Some { e2.push(("status"@, JsonV::Str(rv.status->0))) } else { e2 };
        let e4 = if rv.reply { e3.push(("reply"@, JsonV::Bool(true))) } else { e3 };
        assert(ev(e@) =~= e4);
    }
    JsonValue::Object(e)
}

pub fn routes_to_json(r: &Vec<Route>) -> (v: JsonValue)
    ensures
        v@ == encode_routes(routes_v(r@)),
{
    let mut items: Vec<JsonValue> = Vec::new();
    let mut i: usize = 0;
    while i < r.len()
        invariant
            i <= r.len(),
            items@.len() == i,
            forall|k: int| 0 <= k < i ==> jv(#[trigger] items@[k]) == encode_route(r@[k]@),
        decreases r.len() - i,
    {
        items.push(route_to_json(&r[i]));
        i = i + 1;
    }
    proof {
        lemma_jv_seq(items@);
        assert(jv_seq(items@) =~= routes_v(r@).map_values(|x: RouteV| encode_route(x)));
    }
    JsonValue::Array(items)
}

/// Writing routes to JSON and reading them back gives the same routes.
pub proof fn lemma_routes_roundtrip(r: Seq<RouteV>)
    ensures
        decode_routes(encode_routes(r)) == Some(r),
    decreases r.len(),
{
    let enc = r.map_values(|x: RouteV| encode_route(x));
    if r.len() > 0 {
        lemma_routes_roundtrip(r.drop_last());
        assert(enc.drop_last() =~= r.drop_last().map_values(|x: RouteV| encode_route(x)));
        lemma_route_roundtrip(r.last());
    } else {
        assert(enc =~= Seq::<JsonV>::empty());
    }
}

pub proof fn lemma_route_roundtrip(x: RouteV)
    ensures
        decode_route(encode_route(x)) == Some(x),
{
    reveal_strlit("to");
    reveal_strlit("out");
    reveal_strlit("status");
    reveal_strlit("reply");
    assert("to"@.len() == 2);
    assert("out"@.len() == 3);
    assert("status"@.len() == 6);
    assert("reply"@.len() == 5);
    let e0: Seq<(Seq<char>, JsonV)> = Seq::empty();
    let x1 = ("to"@, JsonV::Str(x.to->0));
    let e1 = if x.to is Some { e0.push(x1) } else { e0 };
    let x2 = ("out"@, JsonV::Bool(true));
    let e2 = if x.out { e1.push(x2) } else { e1 };
    let x3 = ("status"@, JsonV::Str(x.status->0));
    let e3 = if x.status is Some { e2.push(x3) } else { e2 };
    let x4 = ("reply"@, JsonV::Bool(true));
    let e4 = if x.reply { e3.push(x4) } else { e3 };
    let ks = seq!["to"@, "out"@, "status"@, "reply"@];
    assert forall|i: int| 0 <= i < 4 implies {
        let k = #[trigger] ks[i];
        &&& obj_get_v(e4, k) == (if k == "to"@ && x.to is Some {
            Some(JsonV::Str(x.to->0))
        } else if k == "out"@ && x.out {
            Some(JsonV::Bool(true))
        } else if k == "status"@ && x.status is Some {
            Some(JsonV::Str(x.status->0))
        } else if k == "reply"@ && x.reply {
            Some(JsonV::Bool(true))
        } else {
            None
        })
    } by {
        let k = ks[i];
        crate::json::lemma_key_pos(e0, k);
        if x.to is Some {
            crate::json::lemma_get_push(e0, x1, k);
            crate::json::lemma_key_pos(e1, k);
        }
        if x.out {
            crate::json::lemma_get_push(e1, x2, k);
        }
        crate::json::lemma_key_pos(e2, k);
        if x.status is Some {
            crate::json::lemma_get_push(e2, x3, k);
        }
        crate::json::lemma_key_pos(e3, k);
        if x.reply {
            crate::json::lemma_get_push(e3, x4, k);
        }
        crate::json::lemma_key_pos(e1, k);
    }
    assert(ks[0] == "to"@);
    assert(ks[1] == "out"@);
    assert(ks[2] == "status"@);
    assert(ks[3] == "reply"@);
    assert(encode_route(x) == JsonV::Object(e4));
}

} // verus!
