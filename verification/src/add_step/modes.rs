//! Building the node to insert from an operation, its payload and routing.
use vstd::prelude::*;
use crate::assoc::{keys_of, sorted, sorted_insert_v};
use crate::error::FlowError;
use crate::flow_ir::raw_insert;
use crate::json::{JsonValue, JsonV, ev, jv, jv_seq, deep_clone, lemma_jv_seq, lemma_jv_entries};
use crate::model::opt_jv;
use crate::step_edit::{answers_overlay_v, answers_to_value, merge_payload, merge_v};
use super::normalize::{NormalizedNodeV, NormErr, normalize_node_map, normalize_v, norm_err_matches};

verus! {

/// The routing of a node that should take over its anchor's routes.
pub open spec fn placeholder_routing_v() -> JsonV {
    JsonV::Array(seq![JsonV::Object(seq![("to"@, JsonV::Str("NEXT_NODE_PLACEHOLDER"@))])])
}

/// The node for an operation: the operation's key holding the payload, and
/// `routing` (the placeholder route when none is given), in key order.
pub open spec fn default_node_v(operation: Seq<char>, payload: JsonV, routing: Option<JsonV>) -> JsonV {
    let r = match routing {
        Some(r) => r,
        None => placeholder_routing_v(),
    };
    JsonV::Object(sorted_insert_v(sorted_insert_v(Seq::empty(), operation, payload), "routing"@, r))
}

/// Builds the node for an operation and checks its shape; gives the
/// operation that the node names and the node.
pub fn materialize_node(operation: &str, payload: JsonValue, routing: Option<JsonValue>) -> (r: Result<
    (Option<String>, JsonValue),
    FlowError,
>)
    ensures
        match r {
            Ok((op, node)) => node@ == default_node_v(operation@, payload@, opt_jv(routing)) && (normalize_v(node@) matches Ok(
                n,
            ) && crate::error::opt_str(op) == n.operation),
            Err(e) => (normalize_v(default_node_v(operation@, payload@, opt_jv(routing))) matches Err(x) && norm_err_matches(x, e)),
        },
{
    let mut node: Vec<(String, JsonValue)> = Vec::new();
    proof {
        assert(keys_of(node@) =~= Seq::<Seq<char>>::empty());
        assert(ev(node@) =~= Seq::<(Seq<char>, JsonV)>::empty());
    }
    raw_insert(&mut node, String::from_str(operation), payload);
    let r = match routing {
        Some(r) => r,
        None => {
            let mut route: Vec<(String, JsonValue)> = Vec::new();
            route.push((String::from_str("to"), JsonValue::String(String::from_str(crate::splice::NEXT_NODE_PLACEHOLDER))));
            let mut list: Vec<JsonValue> = Vec::new();
            list.push(JsonValue::Object(route));
            proof {
                lemma_jv_entries(route@);
                lemma_jv_seq(list@);
                assert(ev(route@) =~= seq![("to"@, JsonV::Str("NEXT_NODE_PLACEHOLDER"@))]);
                assert(jv_seq(list@) =~= seq![JsonV::Object(seq![("to"@, JsonV::Str("NEXT_NODE_PLACEHOLDER"@))])]);
            }
            JsonValue::Array(list)
        },
    };
    raw_insert(&mut node, String::from_str("routing"), r);
    let value = JsonValue::Object(node);
    let copy = deep_clone(&value);
    let normalized = normalize_node_map(copy)?;
    Ok((normalized.operation, value))
}

/// Why the node for a default-mode insertion could not be built.
#[derive(Debug)]
pub enum DefaultModeFailure {
    /// No operation was given; a flow does not record component ids, so the
    /// operation names the node's key.
    MissingOperation,
    /// The node that the operation and payload make is not a valid node.
    Node(FlowError),
}

/// The node for a default-mode insertion: the payload with the answers
/// merged over it, under the operation's key, with the routing given (the
/// placeholder route when none is).
pub fn default_mode_node(
    operation: Option<&str>,
    payload: JsonValue,
    answers: &Vec<(String, JsonValue)>,
    routing: Option<JsonValue>,
) -> (r: Result<(Option<String>, JsonValue), DefaultModeFailure>)
    ensures
        operation is None <==> r matches Err(DefaultModeFailure::MissingOperation),
        operation matches Some(op) ==> {
            let node = default_node_v(op@, merge_v(payload@, answers_overlay_v(ev(answers@))), opt_jv(routing));
            match r {
                Ok((o, n)) => n@ == node && (normalize_v(node) matches Ok(x) && crate::error::opt_str(o) == x.operation),
                Err(DefaultModeFailure::Node(e)) => (normalize_v(node) matches Err(x) && norm_err_matches(x, e)),
                Err(DefaultModeFailure::MissingOperation) => false,
            }
        },
{
    let op = match operation {
        Some(o) => o,
        None => {
            return Err(DefaultModeFailure::MissingOperation);
        },
    };
    let overlay = answers_to_value(answers);
    proof {
        assert(opt_jv(overlay) == answers_overlay_v(ev(answers@)));
    }
    let merged = merge_payload(payload, overlay);
    match materialize_node(op, merged, routing) {
        Ok(x) => Ok(x),
        Err(e) => Err(DefaultModeFailure::Node(e)),
    }
}

} // verus!
