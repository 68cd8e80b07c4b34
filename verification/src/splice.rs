//! Splicing a node into a flow document after an anchor node: the anchor
//! routes to the new node, and the new node takes over the anchor's former
//! routes (in place of its placeholder routes, or when it has none).
use vstd::prelude::*;
use crate::error::{FlowError, FlowErrorLocation};
use crate::json::{
    JsonValue, JsonV, Entries, ev, jv, jv_seq, obj_get_v, obj_insert_v, has_key, key_pos, lemma_key_pos,
    lemma_jv_entries, lemma_jv_seq, obj_get, obj_has, obj_insert, obj_position, deep_clone, clone_entries, lemma_insert_then_get,
};
use crate::text::{concat, concat3, str_eq};

verus! {

/// Placeholder route destination used in config flows to mark where the caller should splice.
pub const NEXT_NODE_PLACEHOLDER: &'static str = "NEXT_NODE_PLACEHOLDER";

/// Why a splice is refused.
pub enum SpliceErr {
    /// An internal error with this message at this path.
    Internal(Seq<char>, Seq<char>),
    /// The routing of this node is not a list.
    NotList(Seq<char>),
}

/// `Mapping::remove`, which moves the last entry into the removed one's
/// place.
pub open spec fn swap_remove_v(e: Entries, k: Seq<char>) -> Entries {
    let p = key_pos(e, k);
    if p < 0 {
        e
    } else if p == e.len() - 1 {
        e.drop_last()
    } else {
        e.update(p, e.last()).drop_last()
    }
}

/// A routing value as a list of routes: null is none, a list is itself.
pub open spec fn route_list_v(v: JsonV) -> Option<Seq<JsonV>> {
    match v {
        JsonV::Array(s) => Some(s),
        JsonV::Null => Some(Seq::empty()),
        _ => None,
    }
}

pub open spec fn is_placeholder_route(r: JsonV) -> bool {
    r matches JsonV::Object(m) && obj_get_v(m, "to"@) == Some(JsonV::Str("NEXT_NODE_PLACEHOLDER"@))
}

/// Each placeholder route replaced by all fallback routes; `replaced`
/// tells whether there was one.
pub open spec fn expand_ph(routes: Seq<JsonV>, fallback: Seq<JsonV>) -> (Seq<JsonV>, bool)
    decreases routes.len(),
{
    if routes.len() == 0 {
        (Seq::empty(), false)
    } else {
        let (prev, rep) = expand_ph(routes.drop_last(), fallback);
        if is_placeholder_route(routes.last()) {
            (prev + fallback, true)
        } else {
            (prev.push(routes.last()), rep)
        }
    }
}

/// The new node's routes: placeholders replaced by the fallback, and the
/// fallback itself when that leaves nothing and no placeholder was there.
pub open spec fn rewrite_ph_v(routes: Seq<JsonV>, fallback: Seq<JsonV>) -> Seq<JsonV> {
    let (out, rep) = expand_ph(routes, fallback);
    if !rep && out.len() == 0 && fallback.len() > 0 {
        fallback
    } else {
        out
    }
}

pub open spec fn route_to_v(id: Seq<char>) -> JsonV {
    JsonV::Object(seq![("to"@, JsonV::Str(id))])
}

/// The document after splicing `new_node` in as `new_id` after `after`.
pub open spec fn splice_v(doc: JsonV, new_id: Seq<char>, new_node: JsonV, after: Seq<char>) -> Result<JsonV, SpliceErr> {
    match doc {
        JsonV::Object(root) => match obj_get_v(root, "nodes"@) {
            Some(JsonV::Object(nm)) => if has_key(nm, new_id) {
                Err(SpliceErr::Internal("node '"@ + new_id + "' already exists"@, "nodes."@ + new_id))
            } else {
                match obj_get_v(nm, after) {
                    None => Err(SpliceErr::Internal("node '"@ + after + "' not found"@, "nodes."@ + after)),
                    Some(JsonV::Object(am)) => {
                        let prior = match obj_get_v(am, "routing"@) {
                            None => Some(Seq::<JsonV>::empty()),
                            Some(v) => route_list_v(v),
                        };
                        match prior {
                            None => Err(SpliceErr::NotList(after)),
                            Some(prior) => match new_node {
                                JsonV::Object(nn) => {
                                    let new_routing = match obj_get_v(nn, "routing"@) {
                                        None => Some(JsonV::Array(prior)),
                                        Some(v) => match route_list_v(v) {
                                            Some(rs) => Some(JsonV::Array(rewrite_ph_v(rs, prior))),
                                            None => None,
                                        },
                                    };
                                    match new_routing {
                                        None => Err(SpliceErr::NotList(new_id)),
                                        Some(nr) => {
                                            let am2 = obj_insert_v(am, "routing"@, JsonV::Array(seq![route_to_v(new_id)]));
                                            let nn2 = obj_insert_v(swap_remove_v(nn, "routing"@), "routing"@, nr);
                                            let nm2 = obj_insert_v(
                                                obj_insert_v(nm, after, JsonV::Object(am2)),
                                                new_id,
                                                JsonV::Object(nn2),
                                            );
                                            Ok(JsonV::Object(obj_insert_v(root, "nodes"@, JsonV::Object(nm2))))
                                        },
                                    }
                                },
                                _ => Err(SpliceErr::Internal("node '"@ + new_id + "' must be a mapping"@, "nodes."@ + new_id)),
                            },
                        }
                    },
                    Some(_) => Err(SpliceErr::Internal("node '"@ + after + "' must be a mapping"@, "nodes."@ + after)),
                }
            },
            _ => Err(SpliceErr::Internal("flow missing nodes mapping"@, "nodes"@)),
        },
        _ => Err(SpliceErr::Internal("flow document must be a mapping"@, "<inline>"@)),
    }
}

pub open spec fn splice_err_is(x: SpliceErr, e: FlowError) -> bool {
    match x {
        SpliceErr::Internal(m, p) => e matches FlowError::Internal { message, location } && message@ == m
            && location.path_v() == Some(p) && location.line is None && location.column is None,
        SpliceErr::NotList(id) => e matches FlowError::Routing { node_id, message, location } && node_id@ == id
            && message@ == "routing must be an array"@ && location.path_v() == Some("nodes."@ + id + ".routing"@)
            && location.line is None && location.column is None,
    }
}

fn not_list(id: &str) -> (e: FlowError)
    ensures
        splice_err_is(SpliceErr::NotList(id@), e),
{
    FlowError::Routing {
        node_id: String::from_str(id),
        message: String::from_str("routing must be an array"),
        location: FlowErrorLocation::at_path(concat3("nodes.", id, ".routing")),
    }
}

fn route_list(v: &JsonValue) -> (r: Option<Vec<JsonValue>>)
    ensures
        match r {
            Some(s) => route_list_v(v@) == Some(jv_seq(s@)),
            None => route_list_v(v@) is None,
        },
{
    match v {
        JsonValue::Array(s) => {
            let mut out: Vec<JsonValue> = Vec::new();
            let mut i: usize = 0;
            while i < s.len()
                invariant
                    i <= s.len(),
                    out@.len() == i,
                    forall|k: int| 0 <= k < i ==> jv(#[trigger] out@[k]) == jv(s@[k]),
                decreases s.len() - i,
            {
                out.push(deep_clone(&s[i]));
                i = i + 1;
            }
            proof {
                crate::json::lemma_jv_seq_ext(out@, s@);
            }
            Some(out)
        },
        JsonValue::Null => {
            let out: Vec<JsonValue> = Vec::new();
            assert(jv_seq(out@) =~= Seq::<JsonV>::empty());
            Some(out)
        },
        _ => None,
    }
}

fn is_placeholder(r: &JsonValue) -> (b: bool)
    ensures
        b == is_placeholder_route(r@),
{
    match r {
        JsonValue::Object(m) => match obj_get(m, "to") {
            Some(JsonValue::String(t)) => str_eq(t.as_str(), NEXT_NODE_PLACEHOLDER),
            _ => false,
        },
        _ => false,
    }
}

fn extend_clone(out: &mut Vec<JsonValue>, src: &Vec<JsonValue>)
    ensures
        jv_seq(final(out)@) == jv_seq(old(out)@) + jv_seq(src@),
{
    let ghost base = jv_seq(out@);
    let mut i: usize = 0;
    proof {
        lemma_jv_seq(src@);
        assert(jv_seq(src@).subrange(0, 0) =~= Seq::<JsonV>::empty());
        assert(jv_seq(out@) =~= base + jv_seq(src@).subrange(0, 0));
    }
    while i < src.len()
        invariant
            i <= src.len(),
            jv_seq(src@).len() == src@.len(),
            forall|k: int| 0 <= k < src@.len() ==> #[trigger] jv_seq(src@)[k] == jv(src@[k]),
            jv_seq(out@) == base + jv_seq(src@).subrange(0, i as int),
        decreases src.len() - i,
    {
        let ghost before = out@;
        out.push(deep_clone(&src[i]));
        proof {
            assert(out@.drop_last() =~= before);
            assert(jv_seq(out@) == jv_seq(before).push(jv(out@.last())));
            assert(jv_seq(out@) =~= base + jv_seq(src@).subrange(0, i + 1));
        }
        i = i + 1;
    }
    proof {
        assert(jv_seq(src@).subrange(0, src.len() as int) =~= jv_seq(src@));
    }
}

fn rewrite_placeholder(routes: Vec<JsonValue>, fallback: &Vec<JsonValue>) -> (r: Vec<JsonValue>)
    ensures
        jv_seq(r@) == rewrite_ph_v(jv_seq(routes@), jv_seq(fallback@)),
{
    proof {
        lemma_jv_seq(routes@);
    }
    let ghost rs = jv_seq(routes@);
    let ghost fb = jv_seq(fallback@);
    let mut out: Vec<JsonValue> = Vec::new();
    let mut replaced = false;
    let mut i: usize = 0;
    proof {
        assert(rs.subrange(0, 0) =~= Seq::<JsonV>::empty());
        assert(jv_seq(out@) =~= Seq::<JsonV>::empty());
    }
    while i < routes.len()
        invariant
            i <= routes.len(),
            rs == jv_seq(routes@),
            fb == jv_seq(fallback@),
            rs.len() == routes@.len(),
            forall|k: int| 0 <= k < routes@.len() ==> #[trigger] rs[k] == jv(routes@[k]),
            expand_ph(rs.subrange(0, i as int), fb) == (jv_seq(out@), replaced),
        decreases routes.len() - i,
    {
        let ghost cur = rs.subrange(0, i + 1);
        proof {
            assert(cur.drop_last() =~= rs.subrange(0, i as int));
            assert(cur.last() == rs[i as int]);
        }
        if is_placeholder(&routes[i]) {
            replaced = true;
            extend_clone(&mut out, fallback);
        } else {
            let ghost before = out@;
            out.push(deep_clone(&routes[i]));
            proof {
                assert(out@.drop_last() =~= before);
            }
        }
        i = i + 1;
    }
    proof {
        assert(rs.subrange(0, routes.len() as int) =~= rs);
    }
    if !replaced && out.len() == 0 && fallback.len() > 0 {
        let mut all: Vec<JsonValue> = Vec::new();
        proof {
            assert(jv_seq(all@) =~= Seq::<JsonV>::empty());
        }
        extend_clone(&mut all, fallback);
        assert(jv_seq(all@) =~= fb);
        return all;
    }
    proof {
        if out.len() > 0 {
            lemma_jv_seq(out@);
        }
        if fallback.len() > 0 {
            lemma_jv_seq(fallback@);
        }
    }
    out
}

/// `Mapping::remove` on an entry list.
fn swap_remove(e: &mut Vec<(String, JsonValue)>, k: &str)
    ensures
        ev(final(e)@) == swap_remove_v(ev(old(e)@), k@),
{
    proof {
        lemma_jv_entries(e@);
    }
    let ghost before = e@;
    match obj_position(e, k) {
        Some(p) => {
            let n = e.len();
            if p == n - 1 {
                let _ = e.pop();
                proof {
                    lemma_jv_entries(e@);
                    assert(ev(e@) =~= ev(before).drop_last());
                }
            } else {
                let last = e.pop();
                match last {
                    Some(x) => {
                        e.set(p, x);
                    },
                    None => {},
                }
                proof {
                    lemma_jv_entries(e@);
                    assert(ev(e@) =~= ev(before).update(p as int, ev(before).last()).drop_last());
                }
            }
        },
        None => {},
    }
}

fn internal(message: String, path: String) -> (e: FlowError)
    ensures
        splice_err_is(SpliceErr::Internal(message@, path@), e),
{
    FlowError::internal(message, path)
}

/// Splices `new_node` in as `new_id` after the node `after_node_id`.
pub fn splice_node_after(doc: JsonValue, new_node_id: &str, new_node: JsonValue, after_node_id: &str) -> (r: Result<
    JsonValue,
    FlowError,
>)
    ensures
        match r {
            Ok(d) => splice_v(doc@, new_node_id@, new_node@, after_node_id@) == Ok::<JsonV, SpliceErr>(d@),
            Err(e) => (splice_v(doc@, new_node_id@, new_node@, after_node_id@) matches Err(x) && splice_err_is(x, e)),
        },
{
    proof {
        reveal_strlit("NEXT_NODE_PLACEHOLDER");
    }
    let ghost dv = doc@;
    let ghost nv = new_node@;
    let mut root = match doc {
        JsonValue::Object(root) => root,
        _ => {
            return Err(internal(String::from_str("flow document must be a mapping"), String::from_str("<inline>")));
        },
    };
    let mut nodes = match obj_get(&root, "nodes") {
        Some(JsonValue::Object(nm)) => clone_entries(nm),
        _ => {
            return Err(internal(String::from_str("flow missing nodes mapping"), String::from_str("nodes")));
        },
    };
    if obj_has(&nodes, new_node_id) {
        return Err(internal(concat3("node '", new_node_id, "' already exists"), concat("nodes.", new_node_id)));
    }
    let mut anchor = match obj_get(&nodes, after_node_id) {
        None => {
            return Err(internal(concat3("node '", after_node_id, "' not found"), concat("nodes.", after_node_id)));
        },
        Some(JsonValue::Object(am)) => clone_entries(am),
        Some(_) => {
            return Err(internal(concat3("node '", after_node_id, "' must be a mapping"), concat("nodes.", after_node_id)));
        },
    };
    let prior: Vec<JsonValue> = match obj_get(&anchor, "routing") {
        None => {
            let p: Vec<JsonValue> = Vec::new();
            assert(jv_seq(p@) =~= Seq::<JsonV>::empty());
            p
        },
        Some(v) => match route_list(v) {
            Some(p) => p,
            None => {
                return Err(not_list(after_node_id));
            },
        },
    };
    let mut nn = match new_node {
        JsonValue::Object(nn) => nn,
        _ => {
            return Err(internal(concat3("node '", new_node_id, "' must be a mapping"), concat("nodes.", new_node_id)));
        },
    };
    let new_routing: Vec<JsonValue> = match obj_get(&nn, "routing") {
        None => {
            let mut all: Vec<JsonValue> = Vec::new();
            proof {
                assert(jv_seq(all@) =~= Seq::<JsonV>::empty());
            }
            extend_clone(&mut all, &prior);
            assert(jv_seq(all@) =~= jv_seq(prior@));
            all
        },
        Some(v) => match route_list(v) {
            Some(rs) => rewrite_placeholder(rs, &prior),
            None => {
                return Err(not_list(new_node_id));
            },
        },
    };
    let mut route: Vec<(String, JsonValue)> = Vec::new();
    route.push((String::from_str("to"), JsonValue::String(String::from_str(new_node_id))));
    let mut to_new: Vec<JsonValue> = Vec::new();
    to_new.push(JsonValue::Object(route));
    proof {
        lemma_jv_entries(route@);
        assert(ev(route@) =~= seq![("to"@, JsonV::Str(new_node_id@))]);
        lemma_jv_seq(to_new@);
        assert(jv_seq(to_new@) =~= seq![route_to_v(new_node_id@)]);
    }
    obj_insert(&mut anchor, String::from_str("routing"), JsonValue::Array(to_new));
    swap_remove(&mut nn, "routing");
    obj_insert(&mut nn, String::from_str("routing"), JsonValue::Array(new_routing));
    obj_insert(&mut nodes, String::from_str(after_node_id), JsonValue::Object(anchor));
    obj_insert(&mut nodes, String::from_str(new_node_id), JsonValue::Object(nn));
    obj_insert(&mut root, String::from_str("nodes"), JsonValue::Object(nodes));
    Ok(JsonValue::Object(root))
}


/// The anchor's routes before the splice.
pub open spec fn prior_routes_v(doc: JsonV, after: Seq<char>) -> Seq<JsonV> {
    match doc {
        JsonV::Object(root) => match obj_get_v(root, "nodes"@) {
            Some(JsonV::Object(nm)) => match obj_get_v(nm, after) {
                Some(JsonV::Object(am)) => match obj_get_v(am, "routing"@) {
                    Some(JsonV::Array(s)) => s,
                    _ => Seq::empty(),
                },
                _ => Seq::empty(),
            },
            _ => Seq::empty(),
        },
        _ => Seq::empty(),
    }
}

/// After a splice, the anchor routes only to the new node, and the new node
/// is in the flow; a new node given without routes takes over the anchor's
/// former routes.
pub proof fn law_splice_rewires_anchor(doc: JsonV, new_id: Seq<char>, new_node: JsonV, after: Seq<char>)
    requires
        splice_v(doc, new_id, new_node, after) is Ok,
    ensures
        ({
            let d = splice_v(doc, new_id, new_node, after)->Ok_0;
            &&& d matches JsonV::Object(root)
            &&& obj_get_v(root, "nodes"@) matches Some(JsonV::Object(nm))
            &&& obj_get_v(nm, after) matches Some(JsonV::Object(am))
            &&& obj_get_v(am, "routing"@) == Some(JsonV::Array(seq![route_to_v(new_id)]))
            &&& obj_get_v(nm, new_id) matches Some(JsonV::Object(nn))
            &&& (new_node matches JsonV::Object(given) && obj_get_v(given, "routing"@) is None ==> obj_get_v(nn, "routing"@)
                == Some(JsonV::Array(prior_routes_v(doc, after))))
        }),
{
    let root = doc->Object_0;
    let nm = obj_get_v(root, "nodes"@)->Some_0->Object_0;
    let am = obj_get_v(nm, after)->Some_0->Object_0;
    let nn = new_node->Object_0;
    let prior = match obj_get_v(am, "routing"@) {
        None => Seq::<JsonV>::empty(),
        Some(v) => route_list_v(v)->Some_0,
    };
    let nr = match obj_get_v(nn, "routing"@) {
        None => JsonV::Array(prior),
        Some(v) => JsonV::Array(rewrite_ph_v(route_list_v(v)->Some_0, prior)),
    };
    let am2 = obj_insert_v(am, "routing"@, JsonV::Array(seq![route_to_v(new_id)]));
    let nn2 = obj_insert_v(swap_remove_v(nn, "routing"@), "routing"@, nr);
    let nm1 = obj_insert_v(nm, after, JsonV::Object(am2));
    let nm2 = obj_insert_v(nm1, new_id, JsonV::Object(nn2));
    lemma_insert_then_get(root, "nodes"@, JsonV::Object(nm2), "nodes"@);
    lemma_insert_then_get(nm1, new_id, JsonV::Object(nn2), after);
    lemma_insert_then_get(nm1, new_id, JsonV::Object(nn2), new_id);
    lemma_insert_then_get(nm, after, JsonV::Object(am2), after);
    lemma_insert_then_get(am, "routing"@, JsonV::Array(seq![route_to_v(new_id)]), "routing"@);
    lemma_insert_then_get(swap_remove_v(nn, "routing"@), "routing"@, nr, "routing"@);
    assert(has_key(nm, after));
    assert(!has_key(nm, new_id));
    if new_id == after {
        assert(false);
    }
    if obj_get_v(am, "routing"@) matches Some(JsonV::Null) {
        assert(prior =~= Seq::<JsonV>::empty());
    }
}

proof fn lemma_expand_ph_keeps(routes: Seq<JsonV>, fb: Seq<JsonV>)
    ensures
        expand_ph(routes, fb).1 <==> exists|i: int| 0 <= i < routes.len() && is_placeholder_route(#[trigger] routes[i]),
        expand_ph(routes, fb).1 ==> forall|j: int| 0 <= j < fb.len() ==> expand_ph(routes, fb).0.contains(#[trigger] fb[j]),
        forall|i: int|
            0 <= i < routes.len() && !is_placeholder_route(#[trigger] routes[i]) ==> expand_ph(routes, fb).0.contains(routes[i]),
    decreases routes.len(),
{
    if routes.len() > 0 {
        let pre = routes.drop_last();
        lemma_expand_ph_keeps(pre, fb);
        let (prev, rep) = expand_ph(pre, fb);
        let out = expand_ph(routes, fb).0;
        let x = routes.last();
        assert forall|i: int| 0 <= i < pre.len() implies #[trigger] routes[i] == pre[i] by {}
        if is_placeholder_route(x) {
            assert(out == prev + fb);
            assert forall|j: int| 0 <= j < fb.len() implies out.contains(#[trigger] fb[j]) by {
                assert(out[prev.len() + j] == fb[j]);
            }
            assert forall|i: int| 0 <= i < routes.len() && !is_placeholder_route(#[trigger] routes[i]) implies out.contains(
                routes[i],
            ) by {
                assert(i < pre.len());
                assert(pre[i] == routes[i]);
                let k = choose|k: int| 0 <= k < prev.len() && prev[k] == pre[i];
                assert(out[k] == prev[k]);
            }
            assert(routes[routes.len() - 1] == x);
        } else {
            assert(out == prev.push(x));
            if rep {
                assert forall|j: int| 0 <= j < fb.len() implies out.contains(#[trigger] fb[j]) by {
                    let k = choose|k: int| 0 <= k < prev.len() && prev[k] == fb[j];
                    assert(out[k] == prev[k]);
                }
            }
            assert forall|i: int| 0 <= i < routes.len() && !is_placeholder_route(#[trigger] routes[i]) implies out.contains(
                routes[i],
            ) by {
                if i == routes.len() - 1 {
                    assert(out[prev.len() as int] == x);
                } else {
                    assert(pre[i] == routes[i]);
                    let k = choose|k: int| 0 <= k < prev.len() && prev[k] == pre[i];
                    assert(out[k] == prev[k]);
                }
            }
            if exists|i: int| 0 <= i < routes.len() && is_placeholder_route(#[trigger] routes[i]) {
                let i = choose|i: int| 0 <= i < routes.len() && is_placeholder_route(#[trigger] routes[i]);
                assert(i != routes.len() - 1);
                assert(pre[i] == routes[i]);
            }
        }
    }
}

/// The new node's routes when it has a placeholder route: every former
/// route of the anchor and every route of its own that is not a
/// placeholder appear among them; a routing of just the placeholder
/// becomes exactly the anchor's former routes, in order.
pub proof fn law_placeholder_takes_prior_routes(routes: Seq<JsonV>, prior: Seq<JsonV>)
    ensures
        (exists|i: int| 0 <= i < routes.len() && is_placeholder_route(#[trigger] routes[i])) ==> (forall|j: int|
            0 <= j < prior.len() ==> rewrite_ph_v(routes, prior).contains(#[trigger] prior[j])),
        forall|i: int|
            0 <= i < routes.len() && !is_placeholder_route(#[trigger] routes[i]) ==> rewrite_ph_v(routes, prior).contains(
                routes[i],
            ),
        routes.len() == 1 && is_placeholder_route(routes[0]) ==> rewrite_ph_v(routes, prior) == prior,
{
    lemma_expand_ph_keeps(routes, prior);
    if routes.len() == 1 && is_placeholder_route(routes[0]) {
        assert(routes.drop_last() =~= Seq::<JsonV>::empty());
        assert(expand_ph(routes.drop_last(), prior) == (Seq::<JsonV>::empty(), false));
        assert(routes.last() == routes[0]);
        assert(Seq::<JsonV>::empty() + prior =~= prior);
        assert(expand_ph(routes, prior).0 =~= prior);
    }
    if !expand_ph(routes, prior).1 && expand_ph(routes, prior).0.len() == 0 && prior.len() > 0 {
        assert forall|i: int| 0 <= i < routes.len() && !is_placeholder_route(#[trigger] routes[i]) implies rewrite_ph_v(
            routes,
            prior,
        ).contains(routes[i]) by {
            let k = choose|k: int| 0 <= k < expand_ph(routes, prior).0.len() && expand_ph(routes, prior).0[k] == routes[i];
        }
    }
}

/// Splicing a node whose routing is just the placeholder gives it exactly
/// the anchor's former routes, in order.
pub proof fn law_splice_placeholder_routing(doc: JsonV, new_id: Seq<char>, new_node: JsonV, after: Seq<char>, ph: JsonV)
    requires
        splice_v(doc, new_id, new_node, after) is Ok,
        new_node matches JsonV::Object(given) && obj_get_v(given, "routing"@) == Some(JsonV::Array(seq![ph])),
        is_placeholder_route(ph),
    ensures
        ({
            let d = splice_v(doc, new_id, new_node, after)->Ok_0;
            &&& d matches JsonV::Object(root)
            &&& obj_get_v(root, "nodes"@) matches Some(JsonV::Object(nm))
            &&& obj_get_v(nm, new_id) matches Some(JsonV::Object(nn))
            &&& obj_get_v(nn, "routing"@) == Some(JsonV::Array(prior_routes_v(doc, after)))
        }),
{
    law_splice_rewires_anchor(doc, new_id, new_node, after);
    let root = doc->Object_0;
    let nm = obj_get_v(root, "nodes"@)->Some_0->Object_0;
    let am = obj_get_v(nm, after)->Some_0->Object_0;
    let nn = new_node->Object_0;
    let prior = match obj_get_v(am, "routing"@) {
        None => Seq::<JsonV>::empty(),
        Some(v) => route_list_v(v)->Some_0,
    };
    let rs = seq![ph];
    law_placeholder_takes_prior_routes(rs, prior);
    let nr = JsonV::Array(rewrite_ph_v(rs, prior));
    let am2 = obj_insert_v(am, "routing"@, JsonV::Array(seq![route_to_v(new_id)]));
    let nn2 = obj_insert_v(swap_remove_v(nn, "routing"@), "routing"@, nr);
    let nm1 = obj_insert_v(nm, after, JsonV::Object(am2));
    let nm2 = obj_insert_v(nm1, new_id, JsonV::Object(nn2));
    lemma_insert_then_get(root, "nodes"@, JsonV::Object(nm2), "nodes"@);
    lemma_insert_then_get(nm1, new_id, JsonV::Object(nn2), new_id);
    lemma_insert_then_get(swap_remove_v(nn, "routing"@), "routing"@, nr, "routing"@);
    if obj_get_v(am, "routing"@) matches Some(JsonV::Null) {
        assert(prior =~= Seq::<JsonV>::empty());
    }
    assert(prior == prior_routes_v(doc, after));
}

} // verus!
