//! What a trace holds of the document that it is read from.
use vstd::prelude::*;

use crate::ton::trace::{
    action_phase_of, children_of, compute_phase_of, in_message_of, message_of, messages_of,
    out_messages_of, trace_of, traces_of,
};
use crate::utils::json::{
    at, law_low_bits_stay, lemma_value_is_smaller, low_i32, low_u32, JsonNumberView, JsonView,
};
use crate::websocket::message::{ActionPhaseInfo, ComputePhaseView, MessageView, TraceView};

verus! {

/// The text of the value, or the other text where the value is none.
pub open spec fn reads_text(read: Seq<char>, value: JsonView, otherwise: Seq<char>) -> bool {
    match value {
        JsonView::Text(text) => read == text,
        _ => read == otherwise,
    }
}

/// The text of the value, where it is one.
pub open spec fn reads_optional(read: Option<Seq<char>>, value: JsonView) -> bool {
    match value {
        JsonView::Text(text) => read == Some(text),
        _ => read is None,
    }
}

/// True exactly for the value true.
pub open spec fn reads_flag(read: bool, value: JsonView) -> bool {
    read <==> value == JsonView::Bool(true)
}

/// The thirty-two low bits of a value that is a non-negative integer, else zero.
pub open spec fn reads_count(read: u32, value: JsonView) -> bool {
    match value {
        JsonView::Number(JsonNumberView::Unsigned(n)) => (n - read) % 0x1_0000_0000 == 0,
        _ => read == 0,
    }
}

/// The thirty-two low bits, sign included, of a value that is an integer of at most sixty-four
/// bits, sign included.
pub open spec fn reads_code(read: Option<i32>, value: JsonView) -> bool {
    match value {
        JsonView::Number(JsonNumberView::Unsigned(n)) => if n <= i64::MAX {
            read is Some && (n - read->0) % 0x1_0000_0000 == 0
        } else {
            read is None
        },
        JsonView::Number(JsonNumberView::Negative(n)) => read is Some && (n - read->0)
            % 0x1_0000_0000 == 0,
        _ => read is None,
    }
}

/// Every field of a message is that of the document.
pub open spec fn reads_message(read: MessageView, value: JsonView) -> bool {
    &&& reads_text(read.hash, at(value, "hash"@), Seq::empty())
    &&& reads_optional(read.source, at(value, "source"@))
    &&& reads_optional(read.destination, at(value, "destination"@))
    &&& reads_text(read.value, at(value, "value"@), "0"@)
    &&& reads_optional(read.body, at(value, "body"@))
    &&& reads_text(read.message_type, at(value, "msg_type"@), "unknown"@)
}

/// Every field of a computation phase is that of the document, and there is no phase exactly
/// where the document is `Null`.
pub open spec fn reads_compute_phase(read: Option<ComputePhaseView>, value: JsonView) -> bool {
    match read {
        None => value == JsonView::Null,
        Some(phase) => {
            &&& value != JsonView::Null
            &&& reads_flag(phase.success, at(value, "success"@))
            &&& reads_text(phase.gas_used, at(value, "gas_used"@), "0"@)
            &&& reads_text(phase.gas_limit, at(value, "gas_limit"@), "0"@)
            &&& reads_code(phase.exit_code, at(value, "exit_code"@))
        },
    }
}

/// Every field of an action phase is that of the document, and there is no phase exactly where
/// the document is `Null`.
pub open spec fn reads_action_phase(read: Option<ActionPhaseInfo>, value: JsonView) -> bool {
    match read {
        None => value == JsonView::Null,
        Some(phase) => {
            &&& value != JsonView::Null
            &&& reads_flag(phase.success, at(value, "success"@))
            &&& reads_count(phase.total_actions, at(value, "total_actions"@))
            &&& reads_count(phase.valid_actions, at(value, "valid_actions"@))
            &&& reads_flag(phase.no_funds, at(value, "no_funds"@))
        },
    }
}

/// The objects of a list, in order. What is no list has none.
pub open spec fn objects_of(value: JsonView) -> Seq<JsonView> {
    match value {
        JsonView::Array(items) => items.filter(|item: JsonView| item is Object),
        _ => Seq::empty(),
    }
}

/// The messages are those of the objects of a list, one for each, in order.
pub open spec fn reads_messages(read: Seq<MessageView>, value: JsonView) -> bool {
    &&& read.len() == objects_of(value).len()
    &&& forall|k: int|
        0 <= k < read.len() ==> reads_message(#[trigger] read[k], objects_of(value)[k])
}

/// The message is that of the document, where it is an object.
pub open spec fn reads_in_message(read: Option<MessageView>, value: JsonView) -> bool {
    match read {
        Some(message) => value is Object && reads_message(message, value),
        None => !(value is Object),
    }
}

/// Every field of a trace is that of the document, and its children are those of the objects of
/// the list of children, one for each, in order, and so on below them.
pub open spec fn reads_trace(read: TraceView, value: JsonView) -> bool
    decreases read,
{
    let transaction = at(value, "transaction"@);
    let children = objects_of(at(value, "children"@));
    &&& reads_text(read.hash, at(transaction, "hash"@), Seq::empty())
    &&& read.root_hash == read.hash
    &&& read.trace_id == "trace_"@ + read.hash
    &&& reads_text(read.account, at(at(transaction, "account"@), "address"@), Seq::empty())
    &&& reads_text(read.lt, at(transaction, "lt"@), "0"@)
    &&& reads_count(read.now, at(transaction, "now"@))
    &&& reads_in_message(read.in_msg, at(transaction, "in_msg"@))
    &&& reads_messages(read.out_msgs, at(transaction, "out_msgs"@))
    &&& reads_text(read.total_fees, at(transaction, "total_fees"@), "0"@)
    &&& reads_compute_phase(read.compute_phase, at(transaction, "compute"@))
    &&& reads_action_phase(read.action_phase, at(transaction, "action"@))
    &&& read.children.len() == children.len()
    &&& forall|k: int| #![trigger read.children[k]]
        0 <= k < read.children.len() ==> reads_trace(read.children[k], children[k])
}

/// A message is read field by field.
pub proof fn law_message_is_read(value: JsonView)
    ensures
        reads_message(message_of(value), value),
        reads_in_message(in_message_of(value), value),
{
}

/// The phases are read field by field: a computation or an action counts as a success exactly
/// where the document says so by the value true.
pub proof fn law_phases_are_read(value: JsonView)
    ensures
        reads_compute_phase(compute_phase_of(value), value),
        reads_action_phase(action_phase_of(value), value),
{
    lemma_code(at(value, "exit_code"@));
    lemma_count(at(value, "total_actions"@));
    lemma_count(at(value, "valid_actions"@));
}

/// The low bits of a count.
proof fn lemma_count(value: JsonView)
    ensures
        value matches JsonView::Number(JsonNumberView::Unsigned(n)) ==> reads_count(
            low_u32(n),
            value,
        ),
{
    if let JsonView::Number(JsonNumberView::Unsigned(n)) = value {
        law_low_bits_stay(n, 0);
    }
}

/// The low bits of a code.
proof fn lemma_code(value: JsonView)
    ensures
        value matches JsonView::Number(JsonNumberView::Unsigned(n)) ==> n <= i64::MAX ==> (n
            - low_i32(n as i64)) % 0x1_0000_0000 == 0,
        value matches JsonView::Number(JsonNumberView::Negative(n)) ==> (n
            - low_i32(n)) % 0x1_0000_0000 == 0,
{
    if let JsonView::Number(JsonNumberView::Unsigned(n)) = value {
        if n <= i64::MAX {
            law_low_bits_stay(0, n as i64);
        }
    }
    if let JsonView::Number(JsonNumberView::Negative(n)) = value {
        law_low_bits_stay(0, n);
    }
}

/// The messages of a list are those of its objects.
proof fn lemma_messages(items: Seq<JsonView>)
    ensures
        reads_messages(messages_of(items), JsonView::Array(items)),
    decreases items.len(),
{
    reveal(Seq::filter);
    if items.len() > 0 {
        let earlier = items.drop_last();
        lemma_messages(earlier);
        let objects = objects_of(JsonView::Array(items));
        let before = objects_of(JsonView::Array(earlier));
        let read = messages_of(items);
        assert forall|k: int| 0 <= k < read.len() implies reads_message(
            #[trigger] read[k],
            objects[k],
        ) by {
            if k < before.len() {
                assert(read[k] == messages_of(earlier)[k]);
                assert(objects[k] == before[k]);
            }
        }
    }
}

/// The outgoing messages are those of the objects of the list, one for each, in order.
pub proof fn law_messages_are_read(value: JsonView)
    ensures
        reads_messages(out_messages_of(value), value),
{
    if let JsonView::Array(items) = value {
        lemma_messages(items);
    }
}

/// The traces of a list are those of its objects.
proof fn lemma_traces(items: Seq<JsonView>)
    ensures
        traces_of(items).len() == objects_of(JsonView::Array(items)).len(),
        forall|k: int| #![trigger traces_of(items)[k]]
            0 <= k < traces_of(items).len() ==> reads_trace(
                traces_of(items)[k],
                objects_of(JsonView::Array(items))[k],
            ),
    decreases items,
{
    reveal(Seq::filter);
    if items.len() > 0 {
        let earlier = items.drop_last();
        lemma_traces(earlier);
        let objects = objects_of(JsonView::Array(items));
        let before = objects_of(JsonView::Array(earlier));
        let read = traces_of(items);
        law_trace_is_read(items.last());
        assert forall|k: int| #![trigger read[k]] 0 <= k < read.len() implies reads_trace(
            read[k],
            objects[k],
        ) by {
            if k < before.len() {
                assert(read[k] == traces_of(earlier)[k]);
                assert(objects[k] == before[k]);
            }
        }
    }
}

/// A trace is read field by field, with all its children, at every depth.
pub proof fn law_trace_is_read(value: JsonView)
    ensures
        reads_trace(trace_of(value), value),
    decreases value,
{
    let transaction = at(value, "transaction"@);
    let children = at(value, "children"@);
    lemma_value_is_smaller(value, "children"@);
    lemma_count(at(transaction, "now"@));
    law_message_is_read(at(transaction, "in_msg"@));
    law_messages_are_read(at(transaction, "out_msgs"@));
    law_phases_are_read(at(transaction, "compute"@));
    law_phases_are_read(at(transaction, "action"@));
    if let JsonView::Array(items) = children {
        assert(decreases_to!(children => children->Array_0));
        lemma_traces(items);
        assert(trace_of(value).children == traces_of(items));
    }
}

/// The children of an answer are those of the objects of its list of children, one for each, in
/// order, each read field by field.
pub proof fn law_children_are_read(value: JsonView)
    ensures
        children_of(value).len() == objects_of(value).len(),
        forall|k: int| #![trigger children_of(value)[k]]
            0 <= k < children_of(value).len() ==> reads_trace(
                children_of(value)[k],
                objects_of(value)[k],
            ),
{
    if let JsonView::Array(items) = value {
        lemma_traces(items);
    }
}

} // verus!
