//! Editing steps of a flow from the command line: removing a step and
//! rewiring its predecessors, choosing the step to edit, merging payloads,
//! and the routing that the routing options describe.
use vstd::prelude::*;
use crate::assoc::{aget, ains, kv, kseq, keys_of, key_index, lemma_key_index, get_key, map_vals, lemma_aget_map, lemma_kv_keys};
use crate::error::{FlowError, flow_error_text, opt_str, opt_ref};
use crate::add_step::reload_check;
use crate::flow_ir::to_doc_v;
use crate::loader::{doc_json_v, load_err_is, load_v};
use crate::flow_ir::{
    FlowIr, FlowIrV, NodeIr, NodeIrV, NodeKind, NodeKindV, ComponentRef, ir_nodes_v, str_pairs_v, clone_node, clone_str_pairs, lemma_ir_nodes_v,
    lemma_str_pairs_v,
};
use crate::flow_meta::{check_contract_drift, contract_drift_v, stored_describe_hash_v, clear_component_entry, clear_component_v, find_node_for_component, find_node_v};
use crate::json::{JsonValue, JsonV, Entries, ev, jv, obj_insert_v, obj_insert, deep_clone, lemma_jv_entries};
use crate::model::{FlowDoc, FlowDocV, opt_jv, strs_v, lemma_strs_push, clone_opt_json};
use crate::route::{Route, RouteV, routes_v, clone_routes};
use crate::text::{concat, concat3, str_eq, trim, trim_seq, split_once, split_once_v};

verus! {

// ---------------------------------------------------------------------------
// Removing a step
// ---------------------------------------------------------------------------

pub open spec fn routes_to(rs: Seq<RouteV>, target: Seq<char>) -> bool {
    exists|i: int| 0 <= i < rs.len() && #[trigger] rs[i].to == Some(target)
}

/// The nodes with a route to `target`, in node order.
pub open spec fn preds_v(nodes: Seq<(Seq<char>, NodeIrV)>, target: Seq<char>) -> Seq<Seq<char>>
    decreases nodes.len(),
{
    if nodes.len() == 0 {
        Seq::empty()
    } else {
        let prev = preds_v(nodes.drop_last(), target);
        if routes_to(nodes.last().1.routing, target) {
            prev.push(nodes.last().0)
        } else {
            prev
        }
    }
}

/// A step whose routes all end the flow (or that has none).
pub open spec fn terminal(rs: Seq<RouteV>) -> bool {
    rs.len() == 0 || forall|i: int| 0 <= i < rs.len() ==> (#[trigger] rs[i]).to is None && (rs[i].out || rs[i].reply)
}

/// A predecessor's routes with each route to the removed step replaced by
/// that step's routes, or dropped when the step was terminal.
pub open spec fn rewire_v(rs: Seq<RouteV>, target: Seq<char>, removed: Seq<RouteV>) -> Seq<RouteV>
    decreases rs.len(),
{
    if rs.len() == 0 {
        Seq::empty()
    } else {
        let prev = rewire_v(rs.drop_last(), target, removed);
        if rs.last().to == Some(target) {
            if terminal(removed) {
                prev
            } else {
                prev + removed
            }
        } else {
            prev.push(rs.last())
        }
    }
}

pub open spec fn rewire_nodes_v(nodes: Seq<(Seq<char>, NodeIrV)>, target: Seq<char>, removed: Seq<RouteV>) -> Seq<
    (Seq<char>, NodeIrV),
> {
    nodes.map_values(
        |x: (Seq<char>, NodeIrV)| (x.0, NodeIrV { routing: rewire_v(x.1.routing, target, removed), ..x.1 }),
    )
}

/// `IndexMap::swap_remove`: the last entry takes the removed one's place.
pub open spec fn swap_remove_node(nodes: Seq<(Seq<char>, NodeIrV)>, k: Seq<char>) -> Seq<(Seq<char>, NodeIrV)> {
    let p = key_index(kseq(nodes), k);
    if p < 0 {
        nodes
    } else if p == nodes.len() - 1 {
        nodes.drop_last()
    } else {
        nodes.update(p, nodes.last()).drop_last()
    }
}

/// Entry points that led to the removed step lead to the first remaining
/// node (or nowhere).
pub open spec fn fix_entries(e: Seq<(Seq<char>, Seq<char>)>, target: Seq<char>, first: Seq<char>) -> Seq<(Seq<char>, Seq<char>)> {
    e.map_values(|x: (Seq<char>, Seq<char>)| if x.1 == target { (x.0, first) } else { x })
}

pub open spec fn join_ids(ids: Seq<Seq<char>>) -> Seq<char>
    decreases ids.len(),
{
    if ids.len() == 0 {
        Seq::empty()
    } else if ids.len() == 1 {
        ids[0]
    } else {
        join_ids(ids.drop_last()) + ", "@ + ids.last()
    }
}

/// The flow without step `target`: refused when it is not there, or when it
/// has several predecessors and that is to be refused; with `splice`, each
/// predecessor takes over its routes.
pub open spec fn remove_step_v(flow: FlowIrV, target: Seq<char>, multi_pred_error: bool, splice: bool) -> Result<FlowIrV, Seq<char>> {
    match aget(flow.nodes, target) {
        None => Err("step '"@ + target + "' not found"@),
        Some(t) => {
            let preds = preds_v(flow.nodes, target);
            if preds.len() > 1 && multi_pred_error {
                Err(
                    "multiple predecessors for '"@ + target + "': "@ + join_ids(preds)
                        + " (use --if-multiple-predecessors splice-all)"@,
                )
            } else {
                let rewired = if splice { rewire_nodes_v(flow.nodes, target, t.routing) } else { flow.nodes };
                let nodes = swap_remove_node(rewired, target);
                let first = if nodes.len() > 0 { nodes[0].0 } else { Seq::empty() };
                Ok(
                    FlowIrV {
                        nodes,
                        entrypoints: fix_entries(flow.entrypoints, target, first),
                        meta: clear_component_v(flow.meta, target),
                        ..flow
                    },
                )
            }
        },
    }
}

fn route_targets(rs: &Vec<Route>, target: &str) -> (r: bool)
    ensures
        r == routes_to(routes_v(rs@), target@),
{
    let mut i: usize = 0;
    while i < rs.len()
        invariant
            i <= rs.len(),
            forall|k: int| 0 <= k < i ==> (#[trigger] rs@[k])@.to != Some(target@),
        decreases rs.len() - i,
    {
        let hit = match &rs[i].to {
            Some(t) => str_eq(t.as_str(), target),
            None => false,
        };
        if hit {
            proof {
                assert(routes_v(rs@)[i as int].to == Some(target@));
            }
            return true;
        }
        i = i + 1;
    }
    proof {
        if routes_to(routes_v(rs@), target@) {
            let k = choose|k: int| 0 <= k < routes_v(rs@).len() && #[trigger] routes_v(rs@)[k].to == Some(target@);
            assert(rs@[k]@.to == Some(target@));
        }
    }
    false
}

fn is_terminal(rs: &Vec<Route>) -> (r: bool)
    ensures
        r == terminal(routes_v(rs@)),
{
    let mut i: usize = 0;
    while i < rs.len()
        invariant
            i <= rs.len(),
            forall|k: int| 0 <= k < i ==> (#[trigger] rs@[k])@.to is None && (rs@[k]@.out || rs@[k]@.reply),
        decreases rs.len() - i,
    {
        if rs[i].to.is_some() || !(rs[i].out || rs[i].reply) {
            proof {
                let rv = routes_v(rs@);
                assert(rv[i as int] == rs@[i as int]@);
            }
            return false;
        }
        i = i + 1;
    }
    proof {
        let rv = routes_v(rs@);
        assert forall|k: int| 0 <= k < rv.len() implies (#[trigger] rv[k]).to is None && (rv[k].out || rv[k].reply) by {
            assert(rv[k] == rs@[k]@);
        }
    }
    true
}

fn rewire(rs: &Vec<Route>, target: &str, removed: &Vec<Route>, removed_terminal: bool) -> (r: Vec<Route>)
    requires
        removed_terminal == terminal(routes_v(removed@)),
    ensures
        routes_v(r@) == rewire_v(routes_v(rs@), target@, routes_v(removed@)),
{
    let ghost rv = routes_v(rs@);
    let ghost dv = routes_v(removed@);
    let mut out: Vec<Route> = Vec::new();
    let mut i: usize = 0;
    proof {
        assert(rv.subrange(0, 0) =~= Seq::<RouteV>::empty());
        assert(routes_v(out@) =~= Seq::<RouteV>::empty());
    }
    while i < rs.len()
        invariant
            i <= rs.len(),
            rv == routes_v(rs@),
            dv == routes_v(removed@),
            removed_terminal == terminal(dv),
            routes_v(out@) == rewire_v(rv.subrange(0, i as int), target@, dv),
        decreases rs.len() - i,
    {
        let ghost cur = rv.subrange(0, i + 1);
        proof {
            assert(cur.drop_last() =~= rv.subrange(0, i as int));
            assert(cur.last() == rs@[i as int]@);
        }
        let hit = match &rs[i].to {
            Some(t) => str_eq(t.as_str(), target),
            None => false,
        };
        if hit {
            if !removed_terminal {
                let ghost base = routes_v(out@);
                let mut j: usize = 0;
                while j < removed.len()
                    invariant
                        j <= removed.len(),
                        dv == routes_v(removed@),
                        routes_v(out@) == base + dv.subrange(0, j as int),
                    decreases removed.len() - j,
                {
                    let ghost before = out@;
                    out.push(removed[j].duplicate());
                    proof {
                        assert(routes_v(out@) =~= routes_v(before).push(removed@[j as int]@));
                        assert(base + dv.subrange(0, j + 1) =~= (base + dv.subrange(0, j as int)).push(dv[j as int]));
                    }
                    j = j + 1;
                }
                proof {
                    assert(dv.subrange(0, removed.len() as int) =~= dv);
                }
            }
        } else {
            let ghost before = out@;
            out.push(rs[i].duplicate());
            proof {
                assert(routes_v(out@) =~= routes_v(before).push(rs@[i as int]@));
            }
        }
        i = i + 1;
    }
    proof {
        assert(rv.subrange(0, rs.len() as int) =~= rv);
    }
    out
}

proof fn lemma_preds_step(nodes: Seq<(Seq<char>, NodeIrV)>, target: Seq<char>, i: int)
    requires
        0 <= i < nodes.len(),
    ensures
        preds_v(nodes.subrange(0, i + 1), target) == (if routes_to(nodes[i].1.routing, target) {
            preds_v(nodes.subrange(0, i), target).push(nodes[i].0)
        } else {
            preds_v(nodes.subrange(0, i), target)
        }),
{
    let cur = nodes.subrange(0, i + 1);
    assert(cur.drop_last() =~= nodes.subrange(0, i));
    assert(cur.last() == nodes[i]);
}

/// Some node still routes to `target`.
pub open spec fn still_routed(nodes: Seq<(Seq<char>, NodeIrV)>, target: Seq<char>) -> bool {
    exists|j: int| 0 <= j < nodes.len() && routes_to(#[trigger] nodes[j].1.routing, target)
}

pub open spec fn still_routed_msg(target: Seq<char>) -> Seq<char> {
    "routes still lead to removed step '"@ + target + "'"@
}

/// Removes a step, then writes the flow to a document and reads it back, as
/// the command does: the removal is refused as `remove_step_v` says; a flow
/// that does not read back is refused with the loading error; so is one in
/// which a route still leads to the removed step (a step named `out` aside,
/// which routes name to end the flow).
pub fn delete_step(flow: FlowIr, target: &str, multi_pred_error: bool, splice: bool) -> (r: Result<FlowIr, String>)
    ensures
        match remove_step_v(flow@, target@, multi_pred_error, splice) {
            Err(m) => r matches Err(x) && x@ == m,
            Ok(f) => match load_v(doc_json_v(to_doc_v(f))) {
                Err(x) => r matches Err(m) && exists|e: FlowError| #[trigger] load_err_is(x, e, "<inline>"@) && m@ == flow_error_text(e),
                Ok(_) => if target@ != "out"@ && still_routed(f.nodes, target@) {
                    r matches Err(m) && m@ == still_routed_msg(target@)
                } else {
                    r matches Ok(g) && g@ == f
                },
            },
        },
        r matches Ok(g) ==> target@ != "out"@ ==> forall|j: int|
            0 <= j < g@.nodes.len() ==> !routes_to(#[trigger] g@.nodes[j].1.routing, target@),
        flow.wf() ==> (r matches Ok(g) ==> g.wf()),
{
    proof {
        lemma_ir_nodes_v(flow.nodes@);
        lemma_str_pairs_v(flow.entrypoints@);
    }
    let ghost fl = flow@;
    let f = match remove_step(flow, target, multi_pred_error, splice) {
        Ok(f) => f,
        Err(m) => {
            return Err(m);
        },
    };
    match reload_check(&f) {
        Ok(()) => {},
        Err(e) => {
            let m = e.message();
            proof {
                let x = load_v(doc_json_v(to_doc_v(f@)))->Err_0;
                assert(load_err_is(x, e, "<inline>"@) && m@ == flow_error_text(e));
            }
            return Err(m);
        },
    }
    if !str_eq(target, "out") {
        let mut j: usize = 0;
        while j < f.nodes.len()
            invariant
                j <= f.nodes.len(),
                f@.nodes == ir_nodes_v(f.nodes@),
                fl == flow@,
                remove_step_v(fl, target@, multi_pred_error, splice) == Ok::<FlowIrV, Seq<char>>(f@),
                load_v(doc_json_v(to_doc_v(f@))) is Ok,
                target@ != "out"@,
                forall|k: int| 0 <= k < j ==> !routes_to(#[trigger] f@.nodes[k].1.routing, target@),
            decreases f.nodes.len() - j,
        {
            if route_targets(&f.nodes[j].1.routing, target) {
                proof {
                    assert(f@.nodes[j as int].1.routing == routes_v(f.nodes@[j as int].1.routing@));
                    assert(routes_to(f@.nodes[j as int].1.routing, target@));
                    assert(still_routed(f@.nodes, target@));
                }
                return Err(concat3("routes still lead to removed step '", target, "'"));
            }
            j = j + 1;
        }
    }
    proof {
        reveal_strlit("out");
        if target@ != "out"@ {
            assert(!still_routed(f@.nodes, target@));
        }
        let fv = f@;
        assert(remove_step_v(flow@, target@, multi_pred_error, splice) == Ok::<FlowIrV, Seq<char>>(fv));
        assert(load_v(doc_json_v(to_doc_v(fv))) is Ok);
        if crate::assoc::unique(kseq(fl.nodes)) && crate::assoc::unique(kseq(fl.entrypoints)) {
            lemma_remove_step_wf(fl, target@, multi_pred_error, splice);
            lemma_ir_nodes_v(f.nodes@);
            lemma_str_pairs_v(f.entrypoints@);
        }
    }
    Ok(f)
}

/// Removes a step. `multi_pred_error` refuses a step with several
/// predecessors; `splice` lets each predecessor take over the step's routes.
fn remove_step(flow: FlowIr, target: &str, multi_pred_error: bool, splice: bool) -> (r: Result<FlowIr, String>)
    ensures
        match r {
            Ok(f) => remove_step_v(flow@, target@, multi_pred_error, splice) == Ok::<FlowIrV, Seq<char>>(f@),
            Err(m) => remove_step_v(flow@, target@, multi_pred_error, splice) == Err::<FlowIrV, Seq<char>>(m@),
        },
{
    proof {
        lemma_ir_nodes_v(flow.nodes@);
        lemma_aget_map(kv(flow.nodes@), target@, |x: NodeIr| x@);
    }
    let ghost fv = flow@;
    let removed = match get_key(&flow.nodes, target) {
        Some(n) => clone_routes(&n.routing),
        None => {
            return Err(concat3("step '", target, "' not found"));
        },
    };
    let ghost nv = fv.nodes;
    let mut preds: Vec<String> = Vec::new();
    let mut i: usize = 0;
    proof {
        assert(nv.subrange(0, 0) =~= Seq::<(Seq<char>, NodeIrV)>::empty());
        assert(strs_v(preds@) =~= Seq::<Seq<char>>::empty());
    }
    while i < flow.nodes.len()
        invariant
            i <= flow.nodes.len(),
            nv == ir_nodes_v(flow.nodes@),
            nv.len() == flow.nodes@.len(),
            strs_v(preds@) == preds_v(nv.subrange(0, i as int), target@),
        decreases flow.nodes.len() - i,
    {
        proof {
            lemma_preds_step(nv, target@, i as int);
            assert(nv[i as int] == (flow.nodes@[i as int].0@, flow.nodes@[i as int].1@));
        }
        if route_targets(&flow.nodes[i].1.routing, target) {
            let ghost before = preds@;
            preds.push(flow.nodes[i].0.clone());
            proof {
                lemma_strs_push(before, preds@.last());
            }
        }
        i = i + 1;
    }
    proof {
        assert(nv.subrange(0, flow.nodes.len() as int) =~= nv);
    }
    if preds.len() > 1 && multi_pred_error {
        let mut m = concat3("multiple predecessors for '", target, "': ");
        let ghost pv = strs_v(preds@);
        let mut joined = String::new();
        let mut j: usize = 0;
        while j < preds.len()
            invariant
                j <= preds.len(),
                pv == strs_v(preds@),
                joined@ == join_ids(pv.subrange(0, j as int)),
            decreases preds.len() - j,
        {
            let ghost cur = pv.subrange(0, j + 1);
            proof {
                assert(cur.drop_last() =~= pv.subrange(0, j as int));
                assert(cur.last() == preds@[j as int]@);
            }
            if j > 0 {
                joined.append(", ");
            }
            joined.append(preds[j].as_str());
            proof {
                if j == 0 {
                    assert(cur.len() == 1 && cur[0] == cur.last());
                }
                assert(joined@ =~= join_ids(cur));
            }
            j = j + 1;
        }
        proof {
            assert(pv.subrange(0, preds.len() as int) =~= pv);
        }
        m.append(joined.as_str());
        m.append(" (use --if-multiple-predecessors splice-all)");
        return Err(m);
    }
    let FlowIr { id, kind, entrypoints, nodes, meta } = flow;
    let mut nodes = nodes;
    let ghost rewired = if splice { rewire_nodes_v(nv, target@, routes_v(removed@)) } else { nv };
    if splice {
        let removed_terminal = is_terminal(&removed);
        let mut out: Vec<(String, NodeIr)> = Vec::new();
        let mut k: usize = 0;
        while k < nodes.len()
            invariant
                k <= nodes.len(),
                nv == ir_nodes_v(nodes@),
                removed_terminal == terminal(routes_v(removed@)),
                out@.len() == k,
                forall|q: int|
                    0 <= q < k ==> (#[trigger] out@[q]).0@ == nv[q].0 && out@[q].1@ == (NodeIrV {
                        routing: rewire_v(nv[q].1.routing, target@, routes_v(removed@)),
                        ..nv[q].1
                    }),
            decreases nodes.len() - k,
        {
            let n = &nodes[k].1;
            proof {
                assert(nv[k as int] == (nodes@[k as int].0@, nodes@[k as int].1@));
            }
            let new_node = NodeIr {
                id: n.id.clone(),
                kind: crate::flow_ir::clone_kind(&n.kind),
                routing: rewire(&n.routing, target, &removed, removed_terminal),
            };
            out.push((nodes[k].0.clone(), new_node));
            k = k + 1;
        }
        proof {
            assert(ir_nodes_v(out@) =~= rewire_nodes_v(nv, target@, routes_v(removed@)));
        }
        nodes = out;
    }
    proof {
        lemma_ir_nodes_v(nodes@);
        lemma_key_index(kseq(rewired), target@);
        assert(kseq(rewired) =~= kseq(nv));
    }
    assert(ir_nodes_v(nodes@) == rewired);
    let ghost before_remove = nodes@;
    match crate::assoc::find_key(&nodes, target) {
        Some(p) => {
            proof {
                lemma_kv_keys(nodes@);
            }
            let last = nodes.len() - 1;
            if p == last {
                let _ = nodes.pop();
                proof {
                    assert(ir_nodes_v(nodes@) =~= rewired.drop_last());
                }
            } else {
                let moved = nodes.pop();
                match moved {
                    Some(x) => {
                        nodes.set(p, x);
                    },
                    None => {},
                }
                proof {
                    assert(ir_nodes_v(nodes@) =~= rewired.update(p as int, rewired.last()).drop_last());
                }
            }
        },
        None => {
            proof {
                lemma_kv_keys(nodes@);
            }
        },
    }
    let ghost final_nodes = ir_nodes_v(nodes@);
    assert(final_nodes == swap_remove_node(rewired, target@));
    let first: String = if nodes.len() > 0 {
        assert(final_nodes[0].0 == nodes@[0].0@);
        nodes[0].0.clone()
    } else {
        String::new()
    };
    let mut eps: Vec<(String, String)> = Vec::new();
    let mut e: usize = 0;
    while e < entrypoints.len()
        invariant
            e <= entrypoints.len(),
            eps@.len() == e,
            forall|q: int|
                0 <= q < e ==> (#[trigger] eps@[q]).0@ == entrypoints@[q].0@ && eps@[q].1@ == (if entrypoints@[q].1@
                    == target@ {
                    first@
                } else {
                    entrypoints@[q].1@
                }),
        decreases entrypoints.len() - e,
    {
        let v = if str_eq(entrypoints[e].1.as_str(), target) { first.clone() } else { entrypoints[e].1.clone() };
        eps.push((entrypoints[e].0.clone(), v));
        e = e + 1;
    }
    proof {
        assert(str_pairs_v(eps@) =~= fix_entries(str_pairs_v(entrypoints@), target@, first@));
    }
    let mut meta = meta;
    clear_component_entry(&mut meta, target);
    Ok(FlowIr { id, kind, entrypoints: eps, nodes, meta })
}


// ---------------------------------------------------------------------------
// Choosing the step, merging payloads, routing options
// ---------------------------------------------------------------------------

/// The step to edit: the one named, else the one that runs the component,
/// else none (refused).
pub open spec fn step_id_v(step: Option<Seq<char>>, component_id: Option<Seq<char>>, meta: Option<JsonV>) -> Result<
    Seq<char>,
    Seq<char>,
> {
    match step {
        Some(s) => Ok(s),
        None => match component_id {
            Some(c) => find_node_v(meta, c),
            None => Err("--step or component_id is required"@),
        },
    }
}

pub fn resolve_step_id(step: Option<String>, component_id: Option<&str>, meta: &Option<JsonValue>) -> (r: Result<String, String>)
    ensures
        match r {
            Ok(s) => step_id_v(opt_str(step), crate::error::opt_ref(component_id), opt_jv(*meta)) == Ok::<Seq<char>, Seq<char>>(s@),
            Err(m) => step_id_v(opt_str(step), crate::error::opt_ref(component_id), opt_jv(*meta)) == Err::<Seq<char>, Seq<char>>(m@),
        },
{
    if let Some(s) = step {
        return Ok(s);
    }
    if let Some(c) = component_id {
        return find_node_for_component(meta, c);
    }
    Err(String::from_str("--step or component_id is required"))
}

/// Entries of `o` written over `b`, in order.
pub open spec fn overlay_v(b: Entries, o: Entries) -> Entries
    decreases o.len(),
{
    if o.len() == 0 {
        b
    } else {
        obj_insert_v(overlay_v(b, o.drop_last()), o.last().0, o.last().1)
    }
}

/// Two objects merge key by key, the overlay winning; otherwise the overlay
/// replaces the base; no overlay keeps the base.
pub open spec fn merge_v(base: JsonV, overlay: Option<JsonV>) -> JsonV {
    match overlay {
        None => base,
        Some(o) => match (base, o) {
            (JsonV::Object(b), JsonV::Object(oe)) => JsonV::Object(overlay_v(b, oe)),
            _ => o,
        },
    }
}

pub fn merge_payload(base: JsonValue, overlay: Option<JsonValue>) -> (r: JsonValue)
    ensures
        r@ == merge_v(base@, opt_jv(overlay)),
{
    let o = match overlay {
        None => {
            return base;
        },
        Some(o) => o,
    };
    match (base, o) {
        (JsonValue::Object(mut b), JsonValue::Object(oe)) => {
            proof {
                lemma_jv_entries(oe@);
            }
            let ghost b0 = ev(b@);
            let ghost ov = ev(oe@);
            let mut i: usize = 0;
            proof {
                assert(ov.subrange(0, 0) =~= Seq::<(Seq<char>, JsonV)>::empty());
            }
            while i < oe.len()
                invariant
                    i <= oe.len(),
                    ov == ev(oe@),
                    ov.len() == oe@.len(),
                    forall|k: int| 0 <= k < oe@.len() ==> #[trigger] ov[k] == (oe@[k].0@, jv(oe@[k].1)),
                    ev(b@) == overlay_v(b0, ov.subrange(0, i as int)),
                decreases oe.len() - i,
            {
                let ghost cur = ov.subrange(0, i + 1);
                proof {
                    assert(cur.drop_last() =~= ov.subrange(0, i as int));
                    assert(cur.last() == ov[i as int]);
                }
                obj_insert(&mut b, oe[i].0.clone(), deep_clone(&oe[i].1));
                i = i + 1;
            }
            proof {
                assert(ov.subrange(0, oe.len() as int) =~= ov);
            }
            JsonValue::Object(b)
        },
        (_, other) => other,
    }
}

/// The pieces of `s` between the separators, in order.
pub open spec fn split_all_v(s: Seq<char>, c: char) -> Seq<Seq<char>>
    decreases s.len(),
{
    match split_once_v(s, c) {
        Some((a, b)) => if b.len() < s.len() {
            seq![a] + split_all_v(b, c)
        } else {
            seq![a]
        },
        None => seq![s],
    }
}

/// The trimmed pieces that are not empty.
pub open spec fn nonempty_trimmed(parts: Seq<Seq<char>>) -> Seq<Seq<char>>
    decreases parts.len(),
{
    if parts.len() == 0 {
        Seq::empty()
    } else {
        let rest = nonempty_trimmed(parts.drop_first());
        let t = trim_seq(parts[0]);
        if t.len() > 0 {
            seq![t] + rest
        } else {
            rest
        }
    }
}

/// The targets of `--routing-multi-to`: comma-separated, trimmed, empty
/// ones dropped; none at all is refused.
pub open spec fn multi_targets_v(multi: Seq<char>) -> Result<Seq<Seq<char>>, Seq<char>> {
    let t = nonempty_trimmed(split_all_v(multi, ','));
    if t.len() == 0 {
        Err("--routing-multi-to requires at least one target"@)
    } else {
        Ok(t)
    }
}

pub fn multi_to_targets(multi: &str) -> (r: Result<Vec<String>, String>)
    ensures
        match r {
            Ok(v) => multi_targets_v(multi@) == Ok::<Seq<Seq<char>>, Seq<char>>(strs_v(v@)),
            Err(m) => multi_targets_v(multi@) == Err::<Seq<Seq<char>>, Seq<char>>(m@),
        },
{
    let mut out: Vec<String> = Vec::new();
    let mut rest = String::from_str(multi);
    let ghost all = nonempty_trimmed(split_all_v(multi@, ','));
    proof {
        assert(strs_v(out@) + nonempty_trimmed(split_all_v(rest@, ',')) =~= all);
    }
    loop
        invariant_except_break
            strs_v(out@) + nonempty_trimmed(split_all_v(rest@, ',')) == all,
        invariant
            all == nonempty_trimmed(split_all_v(multi@, ',')),
        ensures
            strs_v(out@) == all,
        decreases rest@.len(),
    {
        proof {
            crate::text::lemma_char_pos(rest@, ',');
        }
        match split_once(rest.as_str(), ',') {
            Some((a, b)) => {
                let t = trim(a.as_str());
                let ghost r0 = rest@;
                proof {
                    assert(split_all_v(r0, ',') == seq![a@] + split_all_v(b@, ','));
                    assert((seq![a@] + split_all_v(b@, ',')).drop_first() =~= split_all_v(b@, ','));
                    assert((seq![a@] + split_all_v(b@, ','))[0] == a@);
                }
                if t.unicode_len() > 0 {
                    let ghost before = out@;
                    out.push(t);
                    proof {
                        lemma_strs_push(before, out@.last());
                        assert(strs_v(out@) + nonempty_trimmed(split_all_v(b@, ',')) =~= strs_v(before) + nonempty_trimmed(
                            split_all_v(r0, ','),
                        ));
                    }
                }
                rest = b;
            },
            None => {
                let t = trim(rest.as_str());
                proof {
                    assert(split_all_v(rest@, ',') == seq![rest@]);
                    assert(seq![rest@].drop_first() =~= Seq::<Seq<char>>::empty());
                    assert(nonempty_trimmed(Seq::<Seq<char>>::empty()) == Seq::<Seq<char>>::empty());
                    assert(seq![rest@][0] == rest@);
                    assert(nonempty_trimmed(seq![rest@]) == (if trim_seq(rest@).len() > 0 {
                        seq![trim_seq(rest@)] + Seq::<Seq<char>>::empty()
                    } else {
                        Seq::<Seq<char>>::empty()
                    }));
                }
                if t.unicode_len() > 0 {
                    let ghost before = out@;
                    out.push(t);
                    proof {
                        lemma_strs_push(before, out@.last());
                        assert(strs_v(out@) =~= all);
                    }
                } else {
                    assert(strs_v(out@) =~= all);
                }
                break;
            },
        }
    }
    if out.len() == 0 {
        return Err(String::from_str("--routing-multi-to requires at least one target"));
    }
    Ok(out)
}

/// `--routing-*` as given, besides a routing file.
pub struct RoutingOptions {
    pub out: bool,
    pub reply: bool,
    pub next: Option<String>,
    pub multi_to: Option<String>,
}

pub open spec fn route_v(to: Option<Seq<char>>, out: bool, reply: bool) -> RouteV {
    RouteV { to, out, status: None, reply }
}

/// The routes that update-step's options give, if any: an `out` route, a
/// `reply` route, a route to the next node, or one route per target.
pub open spec fn update_routing_v(o: RoutingOptions) -> Result<Option<Seq<RouteV>>, Seq<char>> {
    if o.out {
        Ok(Some(seq![route_v(None, true, false)]))
    } else if o.reply {
        Ok(Some(seq![route_v(None, false, true)]))
    } else if o.next is Some {
        Ok(Some(seq![route_v(Some(o.next->0@), false, false)]))
    } else if o.multi_to is Some {
        match multi_targets_v(o.multi_to->0@) {
            Err(m) => Err(m),
            Ok(t) => Ok(Some(t.map_values(|x: Seq<char>| route_v(Some(x), false, false)))),
        }
    } else {
        Ok(None)
    }
}

pub fn build_update_routing(o: &RoutingOptions) -> (r: Result<Option<Vec<Route>>, String>)
    ensures
        match r {
            Ok(Some(v)) => update_routing_v(*o) == Ok::<Option<Seq<RouteV>>, Seq<char>>(Some(routes_v(v@))),
            Ok(None) => update_routing_v(*o) == Ok::<Option<Seq<RouteV>>, Seq<char>>(None),
            Err(m) => update_routing_v(*o) == Err::<Option<Seq<RouteV>>, Seq<char>>(m@),
        },
{
    let mut v: Vec<Route> = Vec::new();
    if o.out {
        v.push(Route { to: None, out: true, status: None, reply: false });
        assert(routes_v(v@) =~= seq![route_v(None, true, false)]);
        return Ok(Some(v));
    }
    if o.reply {
        v.push(Route { to: None, out: false, status: None, reply: true });
        assert(routes_v(v@) =~= seq![route_v(None, false, true)]);
        return Ok(Some(v));
    }
    if let Some(next) = &o.next {
        v.push(Route::to_node(next.clone()));
        assert(routes_v(v@) =~= seq![route_v(Some(next@), false, false)]);
        return Ok(Some(v));
    }
    if let Some(multi) = &o.multi_to {
        let targets = multi_to_targets(multi.as_str())?;
        let mut i: usize = 0;
        while i < targets.len()
            invariant
                i <= targets.len(),
                v@.len() == i,
                forall|k: int| 0 <= k < i ==> (#[trigger] v@[k])@ == route_v(Some(targets@[k]@), false, false),
            decreases targets.len() - i,
        {
            v.push(Route::to_node(targets[i].clone()));
            i = i + 1;
        }
        assert(routes_v(v@) =~= strs_v(targets@).map_values(|x: Seq<char>| route_v(Some(x), false, false)));
        return Ok(Some(v));
    }
    Ok(None)
}

/// The routing shorthands `out` and `reply`.
pub fn parse_routing_shorthand(raw: &str) -> (r: Option<Vec<Route>>)
    ensures
        match r {
            Some(v) => (raw@ == "out"@ && routes_v(v@) == seq![route_v(None, true, false)]) || (raw@ == "reply"@ && routes_v(v@)
                == seq![route_v(None, false, true)]),
            None => raw@ != "out"@ && raw@ != "reply"@,
        },
{
    let mut v: Vec<Route> = Vec::new();
    if str_eq(raw, "out") {
        v.push(Route { to: None, out: true, status: None, reply: false });
        assert(routes_v(v@) =~= seq![route_v(None, true, false)]);
        return Some(v);
    }
    if str_eq(raw, "reply") {
        v.push(Route { to: None, out: false, status: None, reply: true });
        assert(routes_v(v@) =~= seq![route_v(None, false, true)]);
        return Some(v);
    }
    None
}


// ---------------------------------------------------------------------------
// Adding a step: the routing value and the wizard's node
// ---------------------------------------------------------------------------

/// `{ "to": t }`.
pub open spec fn to_route_v(t: Seq<char>) -> JsonV {
    JsonV::Object(seq![("to"@, JsonV::Str(t))])
}

/// The routing that add-step's options give, as JSON, and whether the new
/// node must thread the anchor's routes: a routing file's value; `"out"`;
/// `"reply"`; a route to the next node; one route per target; or, by
/// default, a route to the placeholder, which asks for threading.
pub open spec fn add_routing_v(o: RoutingOptions, file: Option<JsonV>) -> Result<(Option<JsonV>, bool), Seq<char>> {
    match file {
        Some(v) => Ok((Some(v), false)),
        None => if o.out {
            Ok((Some(JsonV::Str("out"@)), false))
        } else if o.reply {
            Ok((Some(JsonV::Str("reply"@)), false))
        } else if o.next is Some {
            Ok((Some(JsonV::Array(seq![to_route_v(o.next->0@)])), false))
        } else if o.multi_to is Some {
            match multi_targets_v(o.multi_to->0@) {
                Err(m) => Err(m),
                Ok(t) => Ok((Some(JsonV::Array(t.map_values(|x: Seq<char>| to_route_v(x)))), false)),
            }
        } else {
            Ok((Some(JsonV::Array(seq![to_route_v("NEXT_NODE_PLACEHOLDER"@)])), true))
        },
    }
}

fn to_route(t: String) -> (r: JsonValue)
    ensures
        r@ == to_route_v(t@),
{
    let mut e: Vec<(String, JsonValue)> = Vec::new();
    e.push((String::from_str("to"), JsonValue::String(t)));
    proof {
        lemma_jv_entries(e@);
    }
    assert(ev(e@) =~= seq![("to"@, JsonV::Str(t@))]);
    JsonValue::Object(e)
}

pub fn build_routing_value(o: &RoutingOptions, file: Option<JsonValue>) -> (r: Result<(Option<JsonValue>, bool), String>)
    ensures
        match r {
            Ok((v, t)) => add_routing_v(*o, opt_jv(file)) == Ok::<(Option<JsonV>, bool), Seq<char>>((opt_jv(v), t)),
            Err(m) => add_routing_v(*o, opt_jv(file)) == Err::<(Option<JsonV>, bool), Seq<char>>(m@),
        },
{
    if let Some(v) = file {
        return Ok((Some(v), false));
    }
    if o.out {
        return Ok((Some(JsonValue::String(String::from_str("out"))), false));
    }
    if o.reply {
        return Ok((Some(JsonValue::String(String::from_str("reply"))), false));
    }
    let mut routes: Vec<JsonValue> = Vec::new();
    if let Some(next) = &o.next {
        let x = to_route(next.clone());
        routes.push(x);
        proof {
            crate::json::lemma_jv_seq(routes@);
        }
        assert(crate::json::jv_seq(routes@) =~= seq![to_route_v(next@)]);
        return Ok((Some(JsonValue::Array(routes)), false));
    }
    if let Some(multi) = &o.multi_to {
        let targets = multi_to_targets(multi.as_str())?;
        let mut i: usize = 0;
        while i < targets.len()
            invariant
                i <= targets.len(),
                routes@.len() == i,
                forall|k: int| 0 <= k < i ==> jv(#[trigger] routes@[k]) == to_route_v(targets@[k]@),
            decreases targets.len() - i,
        {
            routes.push(to_route(targets[i].clone()));
            i = i + 1;
        }
        proof {
            crate::json::lemma_jv_seq(routes@);
        }
        assert(crate::json::jv_seq(routes@) =~= strs_v(targets@).map_values(|x: Seq<char>| to_route_v(x)));
        return Ok((Some(JsonValue::Array(routes)), false));
    }
    let x = to_route(String::from_str(crate::splice::NEXT_NODE_PLACEHOLDER));
    routes.push(x);
    proof {
        crate::json::lemma_jv_seq(routes@);
        reveal_strlit("NEXT_NODE_PLACEHOLDER");
    }
    assert(crate::json::jv_seq(routes@) =~= seq![to_route_v("NEXT_NODE_PLACEHOLDER"@)]);
    Ok((Some(JsonValue::Array(routes)), true))
}

/// The node that a component wizard produces:
/// `{ "component.exec": { "component": c, "config": config }, "operation": op, "routing": routing }`,
/// with no routing as an empty list.
pub open spec fn wizard_node_v(component: Seq<char>, config: JsonV, operation: Seq<char>, routing: Option<JsonV>) -> JsonV {
    JsonV::Object(
        seq![
            ("component.exec"@, JsonV::Object(seq![("component"@, JsonV::Str(component)), ("config"@, config)])),
            ("operation"@, JsonV::Str(operation)),
            ("routing"@, match routing {
                Some(r) => r,
                None => JsonV::Array(Seq::empty()),
            }),
        ],
    )
}

pub fn wizard_node_value(component: &str, config: JsonValue, operation: &str, routing: Option<JsonValue>) -> (r: JsonValue)
    ensures
        r@ == wizard_node_v(component@, config@, operation@, opt_jv(routing)),
{
    let mut exec: Vec<(String, JsonValue)> = Vec::new();
    exec.push((String::from_str("component"), JsonValue::String(String::from_str(component))));
    exec.push((String::from_str("config"), config));
    proof {
        lemma_jv_entries(exec@);
    }
    assert(ev(exec@) =~= seq![("component"@, JsonV::Str(component@)), ("config"@, config@)]);
    let routing_value = match routing {
        Some(r) => r,
        None => JsonValue::Array(Vec::new()),
    };
    proof {
        crate::json::lemma_jv_seq(Seq::<JsonValue>::empty());
    }
    assert(routing_value@ == match opt_jv(routing) {
        Some(r) => r,
        None => JsonV::Array(Seq::empty()),
    });
    let mut node: Vec<(String, JsonValue)> = Vec::new();
    node.push((String::from_str("component.exec"), JsonValue::Object(exec)));
    node.push((String::from_str("operation"), JsonValue::String(String::from_str(operation))));
    node.push((String::from_str("routing"), routing_value));
    proof {
        lemma_jv_entries(node@);
    }
    assert(ev(node@) =~= match wizard_node_v(component@, config@, operation@, opt_jv(routing)) {
        JsonV::Object(e) => e,
        _ => Seq::empty(),
    });
    JsonValue::Object(node)
}

/// The answers as an object, or nothing when there are none.
pub fn answers_to_value(answers: &Vec<(String, JsonValue)>) -> (r: Option<JsonValue>)
    ensures
        match r {
            Some(v) => answers@.len() > 0 && v@ == JsonV::Object(ev(answers@)),
            None => answers@.len() == 0,
        },
{
    if answers.len() == 0 {
        None
    } else {
        Some(JsonValue::Object(crate::json::clone_entries(answers)))
    }
}

/// The name a component goes by in messages: its id, else its reference,
/// else its wasm file's stem, else `component`.
pub fn component_identity(component_id: Option<String>, component_ref: Option<String>, wasm_stem: Option<String>) -> (r: String)
    ensures
        r@ == match (opt_str(component_id), opt_str(component_ref), opt_str(wasm_stem)) {
            (Some(c), _, _) => c,
            (None, Some(c), _) => c,
            (None, None, Some(c)) => c,
            (None, None, None) => "component"@,
        },
{
    match component_id {
        Some(c) => c,
        None => match component_ref {
            Some(c) => c,
            None => match wasm_stem {
                Some(c) => c,
                None => String::from_str("component"),
            },
        },
    }
}


// ---------------------------------------------------------------------------
// What removing a step guarantees
// ---------------------------------------------------------------------------

proof fn lemma_rewire_no_target(rs: Seq<RouteV>, target: Seq<char>, removed: Seq<RouteV>)
    requires
        !routes_to(removed, target),
    ensures
        !routes_to(rewire_v(rs, target, removed), target),
    decreases rs.len(),
{
    if rs.len() > 0 {
        lemma_rewire_no_target(rs.drop_last(), target, removed);
        let prev = rewire_v(rs.drop_last(), target, removed);
        let r = rewire_v(rs, target, removed);
        if rs.last().to == Some(target) {
            if !terminal(removed) {
                assert forall|i: int| 0 <= i < r.len() implies (#[trigger] r[i]).to != Some(target) by {
                    if i < prev.len() {
                        assert(r[i] == prev[i]);
                        if prev[i].to == Some(target) {
                            assert(routes_to(prev, target));
                        }
                    } else {
                        assert(r[i] == removed[i - prev.len()]);
                        if removed[i - prev.len()].to == Some(target) {
                            assert(routes_to(removed, target));
                        }
                    }
                }
            }
        } else {
            assert forall|i: int| 0 <= i < r.len() implies (#[trigger] r[i]).to != Some(target) by {
                if i < prev.len() {
                    assert(r[i] == prev[i]);
                    if prev[i].to == Some(target) {
                        assert(routes_to(prev, target));
                    }
                }
            }
        }
    }
}

proof fn lemma_swap_remove_keys(nodes: Seq<(Seq<char>, NodeIrV)>, k: Seq<char>)
    requires
        crate::assoc::unique(kseq(nodes)),
        kseq(nodes).contains(k),
    ensures
        !kseq(swap_remove_node(nodes, k)).contains(k),
        forall|x: Seq<char>| x != k && kseq(nodes).contains(x) ==> #[trigger] kseq(swap_remove_node(nodes, k)).contains(x),
        forall|j: int| 0 <= j < swap_remove_node(nodes, k).len() ==> exists|i: int|
            0 <= i < nodes.len() && #[trigger] swap_remove_node(nodes, k)[j] == nodes[i],
{
    let ks = kseq(nodes);
    lemma_key_index(ks, k);
    let p = key_index(ks, k);
    let r = swap_remove_node(nodes, k);
    let n = nodes.len() as int;
    if p == n - 1 {
        assert forall|j: int| 0 <= j < r.len() implies exists|i: int| 0 <= i < nodes.len() && #[trigger] r[j] == nodes[i] by {
            assert(r[j] == nodes[j]);
        }
        if kseq(r).contains(k) {
            let j = choose|j: int| 0 <= j < kseq(r).len() && kseq(r)[j] == k;
            assert(ks[j] == k && ks[p] == k && j < p);
        }
        assert forall|x: Seq<char>| x != k && ks.contains(x) implies #[trigger] kseq(r).contains(x) by {
            let i = choose|i: int| 0 <= i < ks.len() && ks[i] == x;
            assert(i != p);
            assert(kseq(r)[i] == x);
        }
    } else {
        assert forall|j: int| 0 <= j < r.len() implies exists|i: int| 0 <= i < nodes.len() && #[trigger] r[j] == nodes[i] by {
            if j == p {
                assert(r[j] == nodes[n - 1]);
            } else {
                assert(r[j] == nodes[j]);
            }
        }
        if kseq(r).contains(k) {
            let j = choose|j: int| 0 <= j < kseq(r).len() && kseq(r)[j] == k;
            if j == p {
                assert(ks[n - 1] == k && ks[p] == k);
            } else {
                assert(ks[j] == k && ks[p] == k);
            }
        }
        assert forall|x: Seq<char>| x != k && ks.contains(x) implies #[trigger] kseq(r).contains(x) by {
            let i = choose|i: int| 0 <= i < ks.len() && ks[i] == x;
            assert(i != p);
            if i == n - 1 {
                assert(kseq(r)[p] == x);
            } else {
                assert(kseq(r)[i] == x);
            }
        }
    }
}

/// Removing a step from a flow whose node ids are distinct: the step is gone,
/// every other step stays, and, when its predecessors take over its routes
/// (and it did not route to itself), no route leads to it any more.
pub proof fn law_delete_removes_only_target(flow: FlowIrV, target: Seq<char>, multi_pred_error: bool, splice: bool)
    requires
        crate::assoc::unique(kseq(flow.nodes)),
    ensures
        remove_step_v(flow, target, multi_pred_error, splice) matches Ok(f) ==> {
            &&& !kseq(f.nodes).contains(target)
            &&& forall|x: Seq<char>| x != target && kseq(flow.nodes).contains(x) ==> #[trigger] kseq(f.nodes).contains(x)
            &&& (splice && !routes_to(aget(flow.nodes, target)->0.routing, target)) ==> forall|j: int|
                0 <= j < f.nodes.len() ==> !routes_to(#[trigger] f.nodes[j].1.routing, target)
        },
{
    lemma_key_index(kseq(flow.nodes), target);
    if let Some(t) = aget(flow.nodes, target) {
        let rewired = if splice { rewire_nodes_v(flow.nodes, target, t.routing) } else { flow.nodes };
        assert(kseq(rewired) =~= kseq(flow.nodes));
        assert(kseq(flow.nodes).contains(target)) by {
            assert(kseq(flow.nodes)[key_index(kseq(flow.nodes), target)] == target);
        }
        lemma_swap_remove_keys(rewired, target);
        if splice && !routes_to(t.routing, target) {
            let r = swap_remove_node(rewired, target);
            assert forall|j: int| 0 <= j < r.len() implies !routes_to(#[trigger] r[j].1.routing, target) by {
                let i = choose|i: int| 0 <= i < rewired.len() && r[j] == rewired[i];
                lemma_rewire_no_target(flow.nodes[i].1.routing, target, t.routing);
            }
        }
    }
}


/// Removing a key keeps the others distinct.
proof fn lemma_swap_remove_unique(nodes: Seq<(Seq<char>, NodeIrV)>, k: Seq<char>)
    requires
        crate::assoc::unique(kseq(nodes)),
    ensures
        crate::assoc::unique(kseq(swap_remove_node(nodes, k))),
{
    let ks = kseq(nodes);
    lemma_key_index(ks, k);
    let p = key_index(ks, k);
    let r = swap_remove_node(nodes, k);
    let kr = kseq(r);
    let n = nodes.len() as int;
    if p >= 0 {
        assert forall|i: int, j: int| 0 <= i < j < kr.len() implies kr[i] != kr[j] by {
            if p == n - 1 {
                assert(kr[i] == ks[i] && kr[j] == ks[j]);
            } else {
                let ii = if i == p { n - 1 } else { i };
                let jj = if j == p { n - 1 } else { j };
                assert(kr[i] == ks[ii]);
                assert(kr[j] == ks[jj]);
                assert(ii != jj);
            }
        }
    }
}

/// Removing a step from a flow whose node ids and entry names are distinct
/// keeps them distinct.
pub proof fn lemma_remove_step_wf(flow: FlowIrV, target: Seq<char>, multi_pred_error: bool, splice: bool)
    requires
        crate::assoc::unique(kseq(flow.nodes)),
        crate::assoc::unique(kseq(flow.entrypoints)),
    ensures
        remove_step_v(flow, target, multi_pred_error, splice) matches Ok(f) ==> crate::assoc::unique(kseq(f.nodes))
            && crate::assoc::unique(kseq(f.entrypoints)),
{
    if let Some(t) = aget(flow.nodes, target) {
        let rewired = if splice { rewire_nodes_v(flow.nodes, target, t.routing) } else { flow.nodes };
        assert(kseq(rewired) =~= kseq(flow.nodes));
        lemma_swap_remove_unique(rewired, target);
        let nodes = swap_remove_node(rewired, target);
        let first = if nodes.len() > 0 { nodes[0].0 } else { Seq::empty() };
        assert(kseq(fix_entries(flow.entrypoints, target, first)) =~= kseq(flow.entrypoints));
    }
}

/// In a list with distinct keys, the entry at a position is what its key
/// looks up.
proof fn lemma_aget_at<V>(e: Seq<(Seq<char>, V)>, j: int)
    requires
        0 <= j < e.len(),
        crate::assoc::unique(kseq(e)),
    ensures
        aget(e, e[j].0) == Some(e[j].1),
{
    let ks = kseq(e);
    let k = e[j].0;
    assert(ks[j] == k);
    lemma_key_index(ks, k);
    let p = key_index(ks, k);
    if p != j {
        if p < j {
            assert(ks[p] == ks[j]);
        } else {
            assert(ks[j] != k);
        }
    }
}

/// What a key looks up after removing another key.
proof fn lemma_swap_remove_aget(nodes: Seq<(Seq<char>, NodeIrV)>, k: Seq<char>, x: Seq<char>)
    requires
        crate::assoc::unique(kseq(nodes)),
        kseq(nodes).contains(k),
        kseq(nodes).contains(x),
        x != k,
    ensures
        aget(swap_remove_node(nodes, k), x) == aget(nodes, x),
{
    lemma_swap_remove_keys(nodes, k);
    let r = swap_remove_node(nodes, k);
    let kr = kseq(r);
    assert(kr.contains(x));
    lemma_key_index(kr, x);
    let q = key_index(kr, x);
    assert(r[q].0 == x);
    let i = choose|i: int| 0 <= i < nodes.len() && #[trigger] r[q] == nodes[i];
    assert(nodes[i].0 == x);
    lemma_aget_at(nodes, i);
}

/// Removing a step with splicing, from a flow whose node ids are distinct:
/// when the step exists and has at most one predecessor, or several are
/// allowed, the removal succeeds; the step is gone; every other step keeps
/// its id and kind and takes, in place of each route to the removed step,
/// that step's routes (none when they all end the flow); entry points that
/// named the step name the first remaining one.
pub proof fn law_delete_splices_predecessors(flow: FlowIrV, target: Seq<char>, multi_pred_error: bool)
    requires
        crate::assoc::unique(kseq(flow.nodes)),
        aget(flow.nodes, target) is Some,
        preds_v(flow.nodes, target).len() <= 1 || !multi_pred_error,
    ensures
        remove_step_v(flow, target, multi_pred_error, true) matches Ok(f) && {
            let t = aget(flow.nodes, target)->0;
            &&& !kseq(f.nodes).contains(target)
            &&& f.nodes.len() == flow.nodes.len() - 1
            &&& forall|x: Seq<char>|
                x != target && #[trigger] aget(flow.nodes, x) is Some ==> aget(f.nodes, x) == Some(
                    NodeIrV { routing: rewire_v(aget(flow.nodes, x)->0.routing, target, t.routing), ..aget(flow.nodes, x)->0 },
                )
            &&& f.entrypoints == fix_entries(
                flow.entrypoints,
                target,
                if f.nodes.len() > 0 {
                    f.nodes[0].0
                } else {
                    Seq::<char>::empty()
                },
            )
            &&& f.id == flow.id && f.kind == flow.kind
        },
{
    let t = aget(flow.nodes, target)->0;
    let ks = kseq(flow.nodes);
    lemma_key_index(ks, target);
    assert(ks.contains(target)) by {
        assert(ks[key_index(ks, target)] == target);
    }
    let rewired = rewire_nodes_v(flow.nodes, target, t.routing);
    assert(kseq(rewired) =~= ks);
    lemma_swap_remove_keys(rewired, target);
    let r = swap_remove_node(rewired, target);
    assert forall|x: Seq<char>|
        x != target && #[trigger] aget(flow.nodes, x) is Some implies aget(r, x) == Some(
            NodeIrV { routing: rewire_v(aget(flow.nodes, x)->0.routing, target, t.routing), ..aget(flow.nodes, x)->0 },
        ) by {
        lemma_key_index(ks, x);
        let p = key_index(ks, x);
        assert(ks[p] == x);
        assert(kseq(rewired).contains(x)) by {
            assert(kseq(rewired)[p] == x);
        }
        lemma_swap_remove_aget(rewired, target, x);
        lemma_aget_at(rewired, p);
    }
}


// ---------------------------------------------------------------------------
// Updating a step
// ---------------------------------------------------------------------------

/// The answers as a payload overlay: none when there are no answers.
pub open spec fn answers_overlay_v(answers: Entries) -> Option<JsonV> {
    if answers.len() == 0 {
        None
    } else {
        Some(JsonV::Object(answers))
    }
}

/// A node's kind after an update: its payload merged with the component's
/// defaults, then with the answers; a component's operation replaced when a
/// new one is given. Question and template nodes carry no payload.
pub open spec fn update_kind_v(k: NodeKindV, defaults: Option<JsonV>, answers: Entries, op: Option<Seq<char>>) -> Option<NodeKindV> {
    match k {
        NodeKindV::Component { component_id, pack_alias, operation, payload } => Some(
            NodeKindV::Component {
                component_id,
                pack_alias,
                operation: if op is Some {
                    op
                } else {
                    operation
                },
                payload: merge_v(merge_v(payload, defaults), answers_overlay_v(answers)),
            },
        ),
        NodeKindV::Other { component_id, payload } => Some(
            NodeKindV::Other { component_id, payload: merge_v(merge_v(payload, defaults), answers_overlay_v(answers)) },
        ),
        _ => None,
    }
}

pub open spec fn step_not_found_msg(step: Seq<char>) -> Seq<char> {
    "step '"@ + step + "' not found"@
}

pub open spec fn no_payload_msg(step: Seq<char>) -> Seq<char> {
    "step '"@ + step + "' has no payload to update"@
}

/// The flow after updating `step`: the step must exist; a new describe hash
/// must agree with the stored one unless a change is allowed; the step's
/// payload, operation and routing change as `update_kind_v` says and as
/// `routing` gives (the old routing when none is given); nothing else changes.
pub open spec fn update_step_v(
    f: FlowIrV,
    step: Seq<char>,
    defaults: Option<JsonV>,
    answers: Entries,
    op: Option<Seq<char>>,
    routing: Option<Seq<RouteV>>,
    describe_hash: Option<Seq<char>>,
    allow_contract_change: bool,
) -> Result<FlowIrV, Seq<char>> {
    match aget(f.nodes, step) {
        None => Err(step_not_found_msg(step)),
        Some(n) => {
            let drift = match describe_hash {
                Some(h) => contract_drift_v(stored_describe_hash_v(f.meta, step), h, allow_contract_change, step),
                None => Ok(()),
            };
            match drift {
                Err(m) => Err(m),
                Ok(_) => match update_kind_v(n.kind, defaults, answers, op) {
                    None => Err(no_payload_msg(step)),
                    Some(k) => Ok(
                        FlowIrV {
                            nodes: ains(
                                f.nodes,
                                step,
                                NodeIrV {
                                    id: n.id,
                                    kind: k,
                                    routing: match routing {
                                        Some(r) => r,
                                        None => n.routing,
                                    },
                                },
                            ),
                            ..f
                        },
                    ),
                },
            }
        },
    }
}

/// Updates a step of a flow (see `update_step_v`).
pub fn update_step(
    flow: FlowIr,
    step: &str,
    defaults: Option<JsonValue>,
    answers: &Vec<(String, JsonValue)>,
    operation: Option<String>,
    routing: Option<Vec<Route>>,
    describe_hash: Option<&str>,
    allow_contract_change: bool,
) -> (r: Result<FlowIr, String>)
    ensures
        match r {
            Ok(f) => update_step_v(flow@, step@, opt_jv(defaults), ev(answers@), opt_str(operation), match routing {
                Some(v) => Some(routes_v(v@)),
                None => None,
            }, opt_ref(describe_hash), allow_contract_change) == Ok::<FlowIrV, Seq<char>>(f@),
            Err(m) => update_step_v(flow@, step@, opt_jv(defaults), ev(answers@), opt_str(operation), match routing {
                Some(v) => Some(routes_v(v@)),
                None => None,
            }, opt_ref(describe_hash), allow_contract_change) == Err::<FlowIrV, Seq<char>>(m@),
        },
        flow.wf() ==> (r matches Ok(f) ==> f.wf()),
{
    proof {
        lemma_ir_nodes_v(flow.nodes@);
        lemma_str_pairs_v(flow.entrypoints@);
        lemma_aget_map(kv(flow.nodes@), step@, |x: NodeIr| x@);
    }
    let ghost fv = flow@;
    let node = match get_key(&flow.nodes, step) {
        Some(n) => clone_node(n),
        None => {
            let m = concat3("step '", step, "' not found");
            proof {
                reveal_strlit("step '");
                reveal_strlit("' not found");
            }
            return Err(m);
        },
    };
    match describe_hash {
        Some(h) => {
            match check_contract_drift(&flow.meta, step, h, allow_contract_change) {
                Ok(()) => {},
                Err(m) => {
                    return Err(m);
                },
            }
        },
        None => {},
    }
    let overlay = answers_to_value(answers);
    proof {
        assert(opt_jv(overlay) == answers_overlay_v(ev(answers@)));
    }
    let NodeIr { id, kind, routing: old_routing } = node;
    let new_kind = match kind {
        NodeKind::Component(c) => {
            let merged = merge_payload(merge_payload(c.payload, defaults), overlay);
            let op = match operation {
                Some(o) => Some(o),
                None => c.operation,
            };
            NodeKind::Component(ComponentRef {
                component_id: c.component_id,
                pack_alias: c.pack_alias,
                operation: op,
                payload: merged,
            })
        },
        NodeKind::Other { component_id, payload } => {
            let merged = merge_payload(merge_payload(payload, defaults), overlay);
            NodeKind::Other { component_id, payload: merged }
        },
        _ => {
            let m = concat3("step '", step, "' has no payload to update");
            proof {
                reveal_strlit("step '");
                reveal_strlit("' has no payload to update");
            }
            return Err(m);
        },
    };
    let new_routing = match routing {
        Some(r) => r,
        None => old_routing,
    };
    let new_node = NodeIr { id, kind: new_kind, routing: new_routing };
    let ghost nn = new_node;
    let ghost nv = new_node@;
    let FlowIr { id: fid, kind: fkind, entrypoints, mut nodes, meta } = flow;
    let ghost before = nodes@;
    crate::assoc::insert_key(&mut nodes, String::from_str(step), new_node);
    proof {
        lemma_ir_nodes_v(nodes@);
        crate::assoc::lemma_ains_map(kv(before), step@, nn, |x: NodeIr| x@);
    }
    let out = FlowIr { id: fid, kind: fkind, entrypoints, nodes, meta };
    proof {
        assert(out@.nodes == ains(fv.nodes, step@, nv));
        if crate::assoc::unique(kseq(fv.nodes)) {
            crate::assoc::lemma_ains_unique(fv.nodes, step@, nv);
        }
        lemma_ir_nodes_v(out.nodes@);
        lemma_str_pairs_v(out.entrypoints@);
    }
    Ok(out)
}

// ---------------------------------------------------------------------------
// Flow metadata and answers
// ---------------------------------------------------------------------------

/// A comma-separated list: items trimmed, empty ones dropped.
pub fn comma_list(raw: &str) -> (r: Vec<String>)
    ensures
        strs_v(r@) == nonempty_trimmed(split_all_v(raw@, ',')),
{
    match multi_to_targets(raw) {
        Ok(v) => v,
        Err(_) => {
            let v: Vec<String> = Vec::new();
            assert(strs_v(v@) =~= nonempty_trimmed(split_all_v(raw@, ',')));
            v
        },
    }
}

pub open spec fn type_change_msg() -> Seq<char> {
    "refusing to change type on a non-empty flow; create a new flow or migrate explicitly"@
}

/// A flow document with new metadata: the id, title, description and tags
/// that are given replace the old ones (tags as a comma-separated list); the
/// type changes only on a flow without nodes, entry points or start.
pub open spec fn update_metadata_v(
    d: FlowDocV,
    id: Option<Seq<char>>,
    name: Option<Seq<char>>,
    description: Option<Seq<char>>,
    tags: Option<Seq<char>>,
    flow_type: Option<Seq<char>>,
) -> Result<FlowDocV, Seq<char>> {
    let d1 = FlowDocV {
        id: match id {
            Some(i) => i,
            None => d.id,
        },
        title: if name is Some {
            name
        } else {
            d.title
        },
        description: if description is Some {
            description
        } else {
            d.description
        },
        tags: match tags {
            Some(t) => nonempty_trimmed(split_all_v(t, ',')),
            None => d.tags,
        },
        ..d
    };
    match flow_type {
        None => Ok(d1),
        Some(ft) => if d.nodes.len() == 0 && d.entrypoints.len() == 0 && d.start is None {
            Ok(FlowDocV { flow_type: ft, ..d1 })
        } else {
            Err(type_change_msg())
        },
    }
}

/// Updates a flow document's metadata (see `update_metadata_v`), then
/// writes it and reads it back: a document that does not read back is
/// refused with the loading error.
pub fn update_metadata(
    doc: FlowDoc,
    id: Option<String>,
    name: Option<String>,
    description: Option<String>,
    tags: Option<&str>,
    flow_type: Option<String>,
) -> (r: Result<FlowDoc, String>)
    ensures
        match update_metadata_v(doc@, opt_str(id), opt_str(name), opt_str(description), opt_ref(tags), opt_str(flow_type)) {
            Err(m) => r matches Err(x) && x@ == m,
            Ok(d) => match load_v(doc_json_v(d)) {
                Err(x) => r matches Err(m) && exists|e: FlowError| #[trigger] load_err_is(x, e, "<inline>"@) && m@ == flow_error_text(e),
                Ok(_) => r matches Ok(g) && g@ == d,
            },
        },
{
    let mut d = doc;
    let ghost d0 = d@;
    let empty_flow = d.nodes.len() == 0 && d.entrypoints.len() == 0 && d.start.is_none();
    proof {
        lemma_jv_entries(d.entrypoints@);
        assert(d0.nodes.len() == d.nodes@.len());
        assert(d0.entrypoints.len() == d.entrypoints@.len());
    }
    match id {
        Some(i) => {
            d.id = i;
        },
        None => {},
    }
    if name.is_some() {
        d.title = name;
    }
    if description.is_some() {
        d.description = description;
    }
    match tags {
        Some(t) => {
            d.tags = comma_list(t);
        },
        None => {},
    }
    match flow_type {
        Some(ft) => {
            if !empty_flow {
                proof {
                    reveal_strlit("refusing to change type on a non-empty flow; create a new flow or migrate explicitly");
                }
                return Err(String::from_str("refusing to change type on a non-empty flow; create a new flow or migrate explicitly"));
            }
            d.flow_type = ft;
        },
        None => {},
    }
    let v = crate::loader::doc_to_json(&d);
    let none: Vec<(String, String)> = Vec::new();
    match crate::loader::load_from_value(&v, &none, "<inline>") {
        Ok(_) => Ok(d),
        Err(e) => {
            let m = e.message();
            proof {
                let x = load_v(doc_json_v(d@))->Err_0;
                assert(load_err_is(x, e, "<inline>"@) && m@ == flow_error_text(e));
            }
            Err(m)
        },
    }
}

pub open spec fn merge_answers_v(file: Entries, inline: Entries) -> Entries
    decreases inline.len(),
{
    if inline.len() == 0 {
        file
    } else {
        let prev = merge_answers_v(file, inline.drop_last());
        obj_insert_v(prev, inline.last().0, inline.last().1)
    }
}

/// The answers from a file and those given inline: the inline answers
/// replace the file's, in order.
pub fn merge_answers(file: Vec<(String, JsonValue)>, inline: &Vec<(String, JsonValue)>) -> (r: Vec<(String, JsonValue)>)
    ensures
        ev(r@) == merge_answers_v(ev(file@), ev(inline@)),
{
    let mut out = file;
    let ghost start = ev(out@);
    let mut i: usize = 0;
    proof {
        lemma_jv_entries(inline@);
        assert(ev(inline@).take(0) =~= Seq::<(Seq<char>, JsonV)>::empty());
    }
    while i < inline.len()
        invariant
            i <= inline.len(),
            ev(inline@).len() == inline@.len(),
            forall|k: int| 0 <= k < inline@.len() ==> #[trigger] ev(inline@)[k] == (inline@[k].0@, jv(inline@[k].1)),
            ev(out@) == merge_answers_v(start, ev(inline@).take(i as int)),
        decreases inline.len() - i,
    {
        proof {
            assert(ev(inline@).take(i + 1).drop_last() =~= ev(inline@).take(i as int));
            assert(ev(inline@).take(i + 1).last() == ev(inline@)[i as int]);
        }
        obj_insert(&mut out, inline[i].0.clone(), deep_clone(&inline[i].1));
        i = i + 1;
    }
    proof {
        assert(ev(inline@).take(inline.len() as int) =~= ev(inline@));
    }
    out
}

/// `--routing-multi-to`: updating a step gives one plain route to each
/// target, in target order, and adding a step one `to` route per target;
/// both are refused exactly when there is no target.
pub proof fn law_multi_to_routes_each_target(o: RoutingOptions, file: Option<JsonV>)
    requires
        !o.out,
        !o.reply,
        o.next is None,
        o.multi_to is Some,
    ensures
        update_routing_v(o) is Err <==> multi_targets_v(o.multi_to->0@) is Err,
        multi_targets_v(o.multi_to->0@) matches Ok(t) ==> (update_routing_v(o) matches Ok(Some(rs)) && rs.len() == t.len()
            && forall|i: int|
            0 <= i < t.len() ==> (#[trigger] rs[i]).to == Some(t[i]) && !rs[i].out && !rs[i].reply && rs[i].status is None),
        file is None ==> (multi_targets_v(o.multi_to->0@) matches Ok(t) ==> (add_routing_v(o, file) matches Ok(
            (Some(JsonV::Array(items)), placeholder),
        ) && !placeholder && items.len() == t.len() && forall|i: int|
            0 <= i < t.len() ==> #[trigger] items[i] == JsonV::Object(seq![("to"@, JsonV::Str(t[i]))]))),
{
}

proof fn lemma_split_first(a: Seq<char>, b: Seq<char>, c: char)
    requires
        !a.contains(c),
    ensures
        split_all_v(a + seq![c] + b, c) == seq![a] + split_all_v(b, c),
{
    let s = a + seq![c] + b;
    crate::text::lemma_char_pos(s, c);
    let p = crate::text::char_pos(s, c);
    assert(s[a.len() as int] == c);
    if p < a.len() {
        assert(s[p] == a[p]);
    }
    if p > a.len() {
        assert(s[a.len() as int] != c);
    }
    assert(p == a.len());
    assert(s.subrange(0, p) =~= a);
    assert(s.subrange(p + 1, s.len() as int) =~= b);
}

proof fn lemma_split_none(a: Seq<char>, c: char)
    requires
        !a.contains(c),
    ensures
        split_all_v(a, c) == seq![a],
{
    crate::text::lemma_char_pos(a, c);
}

proof fn lemma_trimmed_cons(a: Seq<char>, rest: Seq<Seq<char>>)
    ensures
        nonempty_trimmed(seq![a] + rest) == if trim_seq(a).len() > 0 {
            seq![trim_seq(a)] + nonempty_trimmed(rest)
        } else {
            nonempty_trimmed(rest)
        },
{
    let parts = seq![a] + rest;
    assert(parts[0] == a);
    assert(parts.drop_first() =~= rest);
}

/// The targets of a comma-separated list: a piece without commas and with
/// text is one target; a piece followed by a comma and more text gives its
/// trimmed self followed by the targets of the rest.
pub proof fn law_multi_targets_pieces(a: Seq<char>, b: Seq<char>)
    requires
        !a.contains(','),
    ensures
        multi_targets_v(a) == if trim_seq(a).len() > 0 {
            Ok::<Seq<Seq<char>>, Seq<char>>(seq![trim_seq(a)])
        } else {
            Err::<Seq<Seq<char>>, Seq<char>>("--routing-multi-to requires at least one target"@)
        },
        trim_seq(a).len() > 0 && multi_targets_v(b) is Ok ==> multi_targets_v(a + seq![','] + b) == Ok::<
            Seq<Seq<char>>,
            Seq<char>,
        >(seq![trim_seq(a)] + multi_targets_v(b)->Ok_0),
{
    lemma_split_none(a, ',');
    lemma_trimmed_cons(a, Seq::empty());
    assert(nonempty_trimmed(Seq::<Seq<char>>::empty()) =~= Seq::<Seq<char>>::empty());
    assert(seq![a] + Seq::<Seq<char>>::empty() =~= seq![a]);
    assert(seq![trim_seq(a)] + Seq::<Seq<char>>::empty() =~= seq![trim_seq(a)]);
    lemma_split_first(a, b, ',');
    lemma_trimmed_cons(a, split_all_v(b, ','));
}

} // verus!
