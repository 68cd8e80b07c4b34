//! Routing of an inserted step and of its anchor.
use vstd::prelude::*;
use crate::error::{FlowError, FlowErrorLocation};
use crate::route::{Route, RouteV, routes_v};
use crate::text::{str_eq, concat3};

verus! {

pub open spec fn placeholder_v() -> Seq<char> {
    "NEXT_NODE_PLACEHOLDER"@
}

/// A route whose destination is the splice placeholder.
pub open spec fn is_ph(r: RouteV) -> bool {
    r.to == Some(placeholder_v())
}

pub open spec fn targets(r: RouteV, anchor: Seq<char>) -> bool {
    r.to == Some(anchor)
}

/// The routes with each placeholder route replaced by all fallback routes.
pub open spec fn expand_v(provided: Seq<RouteV>, fallback: Seq<RouteV>) -> Seq<RouteV>
    decreases provided.len(),
{
    if provided.len() == 0 {
        Seq::empty()
    } else {
        expand_v(provided.drop_last(), fallback) + if is_ph(provided.last()) {
            fallback
        } else {
            seq![provided.last()]
        }
    }
}

pub open spec fn has_ph(p: Seq<RouteV>) -> bool {
    exists|i: int| 0 <= i < p.len() && is_ph(#[trigger] p[i])
}

/// Without cycles allowed, no route of the result may lead back to the
/// anchor: neither a provided route nor, where a placeholder is replaced, a
/// fallback route.
pub open spec fn introduces_cycle(p: Seq<RouteV>, fallback: Seq<RouteV>, allow_cycles: bool, anchor: Seq<char>) -> bool {
    !allow_cycles && ((exists|i: int|
        0 <= i < p.len() && !is_ph(#[trigger] p[i]) && targets(p[i], anchor)) || (has_ph(p)
        && exists|j: int| 0 <= j < fallback.len() && targets(#[trigger] fallback[j], anchor)))
}

pub open spec fn cycle_msg() -> Seq<char> {
    "routing would introduce a cycle back to anchor"@
}

pub open spec fn missing_ph_msg() -> Seq<char> {
    "Config flow output missing NEXT_NODE_PLACEHOLDER; cannot preserve anchor routing semantics."@
}

/// Result of rewriting a new node's routes against the anchor's old routes.
pub open spec fn rewrite_v(
    provided: Seq<RouteV>,
    fallback: Seq<RouteV>,
    allow_cycles: bool,
    anchor: Seq<char>,
    require_placeholder: bool,
) -> Result<Seq<RouteV>, Seq<char>> {
    if introduces_cycle(provided, fallback, allow_cycles, anchor) {
        Err(cycle_msg())
    } else if !has_ph(provided) && require_placeholder {
        Err(missing_ph_msg())
    } else {
        Ok(expand_v(provided, fallback))
    }
}

fn route_targets(r: &Route, anchor: &str) -> (b: bool)
    ensures
        b == targets(r@, anchor@),
{
    match &r.to {
        Some(t) => str_eq(t.as_str(), anchor),
        None => false,
    }
}

fn route_is_placeholder(r: &Route) -> (b: bool)
    ensures
        b == is_ph(r@),
{
    match &r.to {
        Some(t) => str_eq(t.as_str(), crate::splice::NEXT_NODE_PLACEHOLDER),
        None => false,
    }
}

/// Replaces each `NEXT_NODE_PLACEHOLDER` route of a new node by the anchor's
/// former routes.
pub fn rewrite_placeholder_routes(
    provided: Vec<Route>,
    fallback: &Vec<Route>,
    allow_cycles: bool,
    anchor: &str,
    require_placeholder: bool,
) -> (r: Result<Vec<Route>, String>)
    ensures
        match r {
            Ok(routes) => rewrite_v(
                routes_v(provided@),
                routes_v(fallback@),
                allow_cycles,
                anchor@,
                require_placeholder,
            ) == Ok::<Seq<RouteV>, Seq<char>>(routes_v(routes@)),
            Err(m) => rewrite_v(
                routes_v(provided@),
                routes_v(fallback@),
                allow_cycles,
                anchor@,
                require_placeholder,
            ) == Err::<Seq<RouteV>, Seq<char>>(m@),
        },
{
    let ghost p = routes_v(provided@);
    let ghost f = routes_v(fallback@);
    let ghost av = anchor@;
    // Whether the anchor's routes lead back to it.
    let mut fallback_cycles = false;
    let mut j: usize = 0;
    while j < fallback.len()
        invariant
            j <= fallback.len(),
            f == routes_v(fallback@),
            av == anchor@,
            fallback_cycles <==> exists|k: int| 0 <= k < j && targets(#[trigger] f[k], av),
        decreases fallback.len() - j,
    {
        assert(f[j as int] == fallback@[j as int]@);
        if route_targets(&fallback[j], anchor) {
            fallback_cycles = true;
        }
        j = j + 1;
    }
    let mut out: Vec<Route> = Vec::new();
    let mut replaced = false;
    let mut i: usize = 0;
    let n = provided.len();
    let mut rest = provided;
    proof {
        assert(p.subrange(0, 0) =~= Seq::<RouteV>::empty());
        assert(routes_v(out@) =~= Seq::<RouteV>::empty());
    }
    while i < n
        invariant
            i <= n,
            n == p.len(),
            p == routes_v(provided@),
            rest@.len() == n - i,
            forall|k: int| 0 <= k < n - i ==> (#[trigger] rest@[k])@ == p[i + k],
            f == routes_v(fallback@),
            av == anchor@,
            fallback_cycles <==> exists|k: int| 0 <= k < f.len() && targets(#[trigger] f[k], av),
            replaced <==> has_ph(p.subrange(0, i as int)),
            !allow_cycles ==> !introduces_cycle(p.subrange(0, i as int), f, allow_cycles, av),
            routes_v(out@) == expand_v(p.subrange(0, i as int), f),
        decreases n - i,
    {
        let route = rest.remove(0);
        let ghost pre = p.subrange(0, i as int);
        let ghost cur = p.subrange(0, i + 1);
        proof {
            assert(route@ == p[i as int]);
            assert(cur.drop_last() =~= pre);
            assert(cur.last() == p[i as int]);
            assert forall|k: int| 0 <= k < i implies cur[k] == pre[k] by {}
        }
        if route_is_placeholder(&route) {
            if !allow_cycles && fallback_cycles {
                proof {
                    assert(is_ph(cur[i as int]));
                    lemma_cycle_extends(p, i as int + 1, f, av);
                }
                return Err(String::from_str("routing would introduce a cycle back to anchor"));
            }
            replaced = true;
            let mut k: usize = 0;
            let ghost base = routes_v(out@);
            while k < fallback.len()
                invariant
                    k <= fallback.len(),
                    f == routes_v(fallback@),
                    routes_v(out@) == base + f.subrange(0, k as int),
                decreases fallback.len() - k,
            {
                let ghost before = out@;
                out.push(fallback[k].duplicate());
                proof {
                    assert(f[k as int] == fallback@[k as int]@);
                    assert(routes_v(out@) =~= routes_v(before).push(out@.last()@));
                    assert(routes_v(out@) =~= base + f.subrange(0, k + 1));
                }
                k = k + 1;
            }
            proof {
                assert(f.subrange(0, fallback.len() as int) =~= f);
                assert(is_ph(cur[i as int]));
                if !allow_cycles {
                    assert forall|a: int| 0 <= a < cur.len() && !is_ph(#[trigger] cur[a]) implies !targets(cur[a], av) by {
                        if a < i {
                            assert(cur[a] == pre[a]);
                        }
                    }
                }
            }
        } else {
            if !allow_cycles && route_targets(&route, anchor) {
                proof {
                    assert(!is_ph(cur[i as int]) && targets(cur[i as int], av));
                    lemma_cycle_extends(p, i as int + 1, f, av);
                }
                return Err(String::from_str("routing would introduce a cycle back to anchor"));
            }
            out.push(route);
            proof {
                assert(routes_v(out@) =~= expand_v(pre, f) + seq![p[i as int]]);
                if has_ph(cur) {
                    let w = choose|a: int| 0 <= a < cur.len() && is_ph(#[trigger] cur[a]);
                    assert(w < i);
                    assert(pre[w] == cur[w]);
                }
                if !allow_cycles {
                    assert forall|a: int| 0 <= a < cur.len() && !is_ph(#[trigger] cur[a]) implies !targets(cur[a], av) by {
                        if a < i {
                            assert(cur[a] == pre[a]);
                        }
                    }
                }
            }
        }
        proof {
            if has_ph(pre) {
                let w = choose|a: int| 0 <= a < pre.len() && is_ph(#[trigger] pre[a]);
                assert(cur[w] == pre[w]);
            }
        }
        i = i + 1;
    }
    proof {
        assert(p.subrange(0, n as int) =~= p);
    }
    if !replaced && require_placeholder {
        return Err(
            String::from_str(
                "Config flow output missing NEXT_NODE_PLACEHOLDER; cannot preserve anchor routing semantics.",
            ),
        );
    }
    Ok(out)
}

/// A cycle found in a prefix is a cycle of the whole.
proof fn lemma_cycle_extends(p: Seq<RouteV>, n: int, f: Seq<RouteV>, av: Seq<char>)
    requires
        0 <= n <= p.len(),
        introduces_cycle(p.subrange(0, n), f, false, av),
    ensures
        introduces_cycle(p, f, false, av),
{
    let s = p.subrange(0, n);
    if exists|i: int| 0 <= i < s.len() && !is_ph(#[trigger] s[i]) && targets(s[i], av) {
        let i = choose|i: int| 0 <= i < s.len() && !is_ph(#[trigger] s[i]) && targets(s[i], av);
        assert(p[i] == s[i]);
    } else {
        let w = choose|a: int| 0 <= a < s.len() && is_ph(#[trigger] s[a]);
        assert(p[w] == s[w]);
    }
}

pub open spec fn threaded_cycle_msg() -> Seq<char> {
    "inserting step would create a cycle back to anchor"@
}

/// The anchor's routing after insertion: a single route to the new node,
/// unless a former route of the anchor led back to it and cycles are not
/// allowed.
pub fn apply_threaded_routing(new_node_id: &str, prior_routes: &Vec<Route>, allow_cycles: bool, anchor: &str) -> (r: Result<Vec<Route>, FlowError>)
    ensures
        match r {
            Ok(routes) => {
                &&& !(!allow_cycles && exists|k: int| 0 <= k < prior_routes@.len() && targets(#[trigger] prior_routes@[k]@, anchor@))
                &&& routes_v(routes@) == seq![RouteV { to: Some(new_node_id@), out: false, status: None, reply: false }]
            },
            Err(e) => {
                &&& !allow_cycles
                &&& exists|k: int| 0 <= k < prior_routes@.len() && targets(#[trigger] prior_routes@[k]@, anchor@)
                &&& e matches FlowError::Routing { node_id, message, location }
                &&& node_id@ == anchor@
                &&& message@ == threaded_cycle_msg()
                &&& location.path_v() == Some("nodes."@ + anchor@ + ".routing"@)
                &&& location.line is None && location.column is None
            },
        },
{
    if !allow_cycles {
        let mut k: usize = 0;
        while k < prior_routes.len()
            invariant
                k <= prior_routes.len(),
                !allow_cycles,
                forall|j: int| 0 <= j < k ==> !targets(#[trigger] prior_routes@[j]@, anchor@),
            decreases prior_routes.len() - k,
        {
            if route_targets(&prior_routes[k], anchor) {
                assert(targets(prior_routes@[k as int]@, anchor@));
                return Err(FlowError::Routing {
                    node_id: String::from_str(anchor),
                    message: String::from_str("inserting step would create a cycle back to anchor"),
                    location: FlowErrorLocation::at_path(concat3("nodes.", anchor, ".routing")),
                });
            }
            k = k + 1;
        }
    }
    let mut v: Vec<Route> = Vec::new();
    v.push(Route::to_node(String::from_str(new_node_id)));
    proof {
        assert(routes_v(v@) =~= seq![RouteV { to: Some(new_node_id@), out: false, status: None, reply: false }]);
    }
    Ok(v)
}


/// A new node whose only route is the placeholder takes over the anchor's
/// former routes unchanged, as long as none of them leads back to the anchor
/// (or cycles are allowed).
pub proof fn law_placeholder_inherits_anchor_routes(
    old_routes: Seq<RouteV>,
    allow_cycles: bool,
    anchor: Seq<char>,
    require_placeholder: bool,
)
    requires
        allow_cycles || !(exists|j: int| 0 <= j < old_routes.len() && targets(#[trigger] old_routes[j], anchor)),
    ensures
        rewrite_v(
            seq![RouteV { to: Some(placeholder_v()), out: false, status: None, reply: false }],
            old_routes,
            allow_cycles,
            anchor,
            require_placeholder,
        ) == Ok::<Seq<RouteV>, Seq<char>>(old_routes),
{
    let p = seq![RouteV { to: Some(placeholder_v()), out: false, status: None, reply: false }];
    assert(is_ph(p[0]));
    assert(has_ph(p));
    assert(p.drop_last() =~= Seq::<RouteV>::empty());
    assert(p.last() == p[0]);
    assert(expand_v(p.drop_last(), old_routes) == Seq::<RouteV>::empty());
    assert(expand_v(p, old_routes) == expand_v(p.drop_last(), old_routes) + old_routes);
    assert(expand_v(p, old_routes) =~= old_routes);
}

/// Routes without a placeholder are kept as they are.
pub proof fn law_no_placeholder_unchanged(provided: Seq<RouteV>, fallback: Seq<RouteV>)
    requires
        !has_ph(provided),
    ensures
        expand_v(provided, fallback) == provided,
    decreases provided.len(),
{
    if provided.len() > 0 {
        let d = provided.drop_last();
        assert(!has_ph(d)) by {
            if has_ph(d) {
                let i = choose|i: int| 0 <= i < d.len() && is_ph(#[trigger] d[i]);
                assert(provided[i] == d[i]);
            }
        }
        law_no_placeholder_unchanged(d, fallback);
        assert(!is_ph(provided[provided.len() - 1]));
        assert(provided =~= d + seq![provided.last()]);
    }
}

} // verus!
