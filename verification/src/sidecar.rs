//! The sidecar of a flow records where each node's component comes from;
//! linting checks that it has an entry for every node and none besides.
//! Reading the sidecar and checking each entry's source on disk are the
//! caller's.
use vstd::prelude::*;
use crate::add_step::id::contains_text;
use crate::model::strs_v;
use crate::step_edit::join_ids;
use crate::text::{concat, concat3};

verus! {

/// A sidecar entry: its node id, and why its source is invalid, if it is.
#[derive(Debug)]
pub struct SidecarEntry {
    pub node_id: String,
    pub source_error: Option<String>,
}

/// Nodes without an entry, entries without a node, and invalid entries.
#[derive(Debug)]
pub struct SidecarValidation {
    pub missing: Vec<String>,
    pub extra: Vec<String>,
    pub invalid: Vec<String>,
}

/// The items of `xs` that `ys` does not hold, in order.
pub open spec fn not_in_v(xs: Seq<Seq<char>>, ys: Seq<Seq<char>>) -> Seq<Seq<char>>
    decreases xs.len(),
{
    if xs.len() == 0 {
        Seq::empty()
    } else {
        let prev = not_in_v(xs.drop_last(), ys);
        if ys.contains(xs.last()) {
            prev
        } else {
            prev.push(xs.last())
        }
    }
}

pub open spec fn entry_ids_v(es: Seq<SidecarEntry>) -> Seq<Seq<char>> {
    es.map_values(|e: SidecarEntry| e.node_id@)
}

/// `<id>: <error>` for each entry whose source is invalid, in entry order.
pub open spec fn invalid_v(es: Seq<SidecarEntry>) -> Seq<Seq<char>>
    decreases es.len(),
{
    if es.len() == 0 {
        Seq::empty()
    } else {
        let prev = invalid_v(es.drop_last());
        match es.last().source_error {
            Some(e) => prev.push(es.last().node_id@ + ": "@ + e@),
            None => prev,
        }
    }
}

fn not_in(xs: &Vec<String>, ys: &Vec<String>) -> (r: Vec<String>)
    ensures
        strs_v(r@) == not_in_v(strs_v(xs@), strs_v(ys@)),
{
    let ghost xv = strs_v(xs@);
    let mut out: Vec<String> = Vec::new();
    let mut i: usize = 0;
    proof {
        assert(xv.take(0) =~= Seq::<Seq<char>>::empty());
        assert(strs_v(out@) =~= Seq::<Seq<char>>::empty());
    }
    while i < xs.len()
        invariant
            i <= xs.len(),
            xv == strs_v(xs@),
            strs_v(out@) == not_in_v(xv.take(i as int), strs_v(ys@)),
        decreases xs.len() - i,
    {
        proof {
            assert(xv.take(i + 1).drop_last() =~= xv.take(i as int));
            assert(xv.take(i + 1).last() == xs@[i as int]@);
        }
        if !contains_text(ys, xs[i].as_str()) {
            let ghost before = out@;
            out.push(xs[i].clone());
            proof {
                assert(strs_v(out@) =~= strs_v(before).push(xs@[i as int]@));
            }
        }
        i = i + 1;
    }
    proof {
        assert(xv.take(xs.len() as int) =~= xv);
    }
    out
}

/// Checks a sidecar against a flow's node ids (see `missing`, `extra` and
/// `invalid` in the contract); without a sidecar every node is missing.
pub fn validate_sidecar(node_ids: &Vec<String>, sidecar: Option<&Vec<SidecarEntry>>) -> (r: SidecarValidation)
    ensures
        match sidecar {
            None => strs_v(r.missing@) == strs_v(node_ids@) && r.extra@.len() == 0 && r.invalid@.len() == 0,
            Some(es) => {
                &&& strs_v(r.missing@) == not_in_v(strs_v(node_ids@), entry_ids_v(es@))
                &&& strs_v(r.extra@) == not_in_v(entry_ids_v(es@), strs_v(node_ids@))
                &&& strs_v(r.invalid@) == invalid_v(es@)
            },
        },
{
    match sidecar {
        None => {
            let mut missing: Vec<String> = Vec::new();
            let mut i: usize = 0;
            while i < node_ids.len()
                invariant
                    i <= node_ids.len(),
                    strs_v(missing@) == strs_v(node_ids@).take(i as int),
                decreases node_ids.len() - i,
            {
                let ghost before = missing@;
                missing.push(node_ids[i].clone());
                proof {
                    assert(strs_v(missing@) =~= strs_v(before).push(node_ids@[i as int]@));
                    assert(strs_v(node_ids@).take(i + 1) =~= strs_v(node_ids@).take(i as int).push(node_ids@[i as int]@));
                }
                i = i + 1;
            }
            proof {
                assert(strs_v(node_ids@).take(node_ids.len() as int) =~= strs_v(node_ids@));
            }
            SidecarValidation { missing, extra: Vec::new(), invalid: Vec::new() }
        },
        Some(es) => {
            let mut ids: Vec<String> = Vec::new();
            let mut invalid: Vec<String> = Vec::new();
            let mut i: usize = 0;
            proof {
                assert(es@.take(0) =~= Seq::<SidecarEntry>::empty());
                assert(strs_v(invalid@) =~= Seq::<Seq<char>>::empty());
            }
            while i < es.len()
                invariant
                    i <= es.len(),
                    strs_v(ids@) == entry_ids_v(es@.take(i as int)),
                    strs_v(invalid@) == invalid_v(es@.take(i as int)),
                decreases es.len() - i,
            {
                proof {
                    assert(es@.take(i + 1).drop_last() =~= es@.take(i as int));
                    assert(es@.take(i + 1).last() == es@[i as int]);
                }
                let ghost ids0 = ids@;
                ids.push(es[i].node_id.clone());
                proof {
                    assert(strs_v(ids@) =~= strs_v(ids0).push(es@[i as int].node_id@));
                    assert(entry_ids_v(es@.take(i + 1)) =~= entry_ids_v(es@.take(i as int)).push(es@[i as int].node_id@));
                }
                match &es[i].source_error {
                    Some(e) => {
                        let ghost inv0 = invalid@;
                        invalid.push(concat3(es[i].node_id.as_str(), ": ", e.as_str()));
                        proof {
                            assert(strs_v(invalid@) =~= strs_v(inv0).push(es@[i as int].node_id@ + ": "@ + e@));
                        }
                    },
                    None => {},
                }
                i = i + 1;
            }
            proof {
                assert(es@.take(es.len() as int) =~= es@);
            }
            let missing = not_in(node_ids, &ids);
            let extra = not_in(&ids, node_ids);
            SidecarValidation { missing, extra, invalid }
        },
    }
}

fn join_list(v: &Vec<String>) -> (r: String)
    ensures
        r@ == join_ids(strs_v(v@)),
{
    let ghost pv = strs_v(v@);
    let mut joined = String::new();
    let mut j: usize = 0;
    while j < v.len()
        invariant
            j <= v.len(),
            pv == strs_v(v@),
            joined@ == join_ids(pv.subrange(0, j as int)),
        decreases v.len() - j,
    {
        let ghost cur = pv.subrange(0, j + 1);
        proof {
            assert(cur.drop_last() =~= pv.subrange(0, j as int));
            assert(cur.last() == v@[j as int]@);
        }
        if j > 0 {
            joined.append(", ");
        }
        joined.append(v[j].as_str());
        proof {
            if j == 0 {
                assert(cur.len() == 1 && cur[0] == cur.last());
            }
            assert(joined@ =~= join_ids(cur));
        }
        j = j + 1;
    }
    proof {
        assert(pv.subrange(0, v.len() as int) =~= pv);
    }
    joined
}

pub open spec fn opt_line_v(prefix: Seq<char>, items: Seq<Seq<char>>) -> Seq<Seq<char>> {
    if items.len() == 0 {
        Seq::empty()
    } else {
        seq![prefix + join_ids(items)]
    }
}

/// The lint errors of a sidecar check: one line each for missing, unused
/// and invalid entries, when there are any.
pub open spec fn sidecar_errors_v(missing: Seq<Seq<char>>, extra: Seq<Seq<char>>, invalid: Seq<Seq<char>>) -> Seq<Seq<char>> {
    opt_line_v("missing sidecar entries for nodes: "@, missing) + opt_line_v("unused sidecar entries: "@, extra)
        + opt_line_v("invalid sidecar entries: "@, invalid)
}

fn push_line(out: &mut Vec<String>, prefix: &str, items: &Vec<String>)
    ensures
        strs_v(final(out)@) == strs_v(old(out)@) + opt_line_v(prefix@, strs_v(items@)),
{
    if items.len() > 0 {
        let joined = join_list(items);
        let ghost before = out@;
        out.push(concat(prefix, joined.as_str()));
        proof {
            assert(strs_v(out@) =~= strs_v(before) + opt_line_v(prefix@, strs_v(items@)));
        }
    } else {
        proof {
            assert(opt_line_v(prefix@, strs_v(items@)) =~= Seq::<Seq<char>>::empty());
            assert(strs_v(out@) =~= strs_v(out@) + Seq::<Seq<char>>::empty());
        }
    }
}

/// The lint errors of a sidecar check (see `sidecar_errors_v`).
pub fn sidecar_errors(v: &SidecarValidation) -> (r: Vec<String>)
    ensures
        strs_v(r@) == sidecar_errors_v(strs_v(v.missing@), strs_v(v.extra@), strs_v(v.invalid@)),
{
    let mut out: Vec<String> = Vec::new();
    assert(strs_v(out@) =~= Seq::<Seq<char>>::empty());
    push_line(&mut out, "missing sidecar entries for nodes: ", &v.missing);
    push_line(&mut out, "unused sidecar entries: ", &v.extra);
    push_line(&mut out, "invalid sidecar entries: ", &v.invalid);
    proof {
        assert(strs_v(out@) =~= sidecar_errors_v(strs_v(v.missing@), strs_v(v.extra@), strs_v(v.invalid@)));
    }
    out
}

pub open spec fn no_mapping_msg(step: Seq<char>) -> Seq<char> {
    "no sidecar mapping for node '"@ + step
        + "'; run greentic-flow bind-component or re-add the step with --component/--local-wasm"@
}

/// A step can be updated without its wizard only when the sidecar maps it.
pub fn require_sidecar_entry(entries: &Vec<SidecarEntry>, step: &str) -> (r: Result<(), String>)
    ensures
        r is Ok <==> entry_ids_v(entries@).contains(step@),
        r matches Err(m) ==> m@ == no_mapping_msg(step@),
{
    let mut i: usize = 0;
    while i < entries.len()
        invariant
            i <= entries.len(),
            forall|k: int| 0 <= k < i ==> entry_ids_v(entries@)[k] != step@,
        decreases entries.len() - i,
    {
        if crate::text::str_eq(entries[i].node_id.as_str(), step) {
            proof {
                assert(entry_ids_v(entries@)[i as int] == step@);
            }
            return Ok(());
        }
        i = i + 1;
    }
    Err(concat3(
        "no sidecar mapping for node '",
        step,
        "'; run greentic-flow bind-component or re-add the step with --component/--local-wasm",
    ))
}

} // verus!
