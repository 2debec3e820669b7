//! The messages that clients and the service exchange.
use vstd::prelude::*;

use crate::utils::ids::{is_random_uuid, new_id};
use crate::utils::text::opt_text;

verus! {

/// A message from a client.
#[allow(inconsistent_fields)]
#[derive(Debug, Clone)]
pub enum ClientMessage {
    /// Ask for updates of an address.
    Subscribe { address: String, subscription_id: Option<String> },
    /// Stop the updates of a subscription.
    Unsubscribe { subscription_id: String },
    /// Check that the connection is alive.
    Ping,
}

/// A message to a client.
#[allow(inconsistent_fields)]
#[derive(Debug, Clone)]
pub enum ServerMessage {
    /// A subscription was made.
    SubscriptionConfirm { subscription_id: String, address: String },
    /// A subscription was dropped.
    UnsubscriptionConfirm { subscription_id: String },
    /// A new transaction and its trace.
    TransactionTrace { subscription_id: String, address: String, trace: Box<TransactionTrace> },
    /// Something failed.
    Error { message: String, subscription_id: Option<String> },
    /// The answer to a ping.
    Pong,
}

/// A transaction and the transactions that it caused.
#[derive(Debug)]
pub struct TransactionTrace {
    pub trace_id: String,
    pub root_hash: String,
    pub account: String,
    pub lt: String,
    pub hash: String,
    pub now: u32,
    pub in_msg: Option<MessageInfo>,
    pub out_msgs: Vec<MessageInfo>,
    /// The transactions that this one caused directly.
    pub children: Vec<TransactionTrace>,
    pub total_fees: String,
    pub compute_phase: Option<ComputePhaseInfo>,
    pub action_phase: Option<ActionPhaseInfo>,
}

/// A message between accounts.
#[derive(Debug)]
pub struct MessageInfo {
    pub hash: String,
    pub source: Option<String>,
    pub destination: Option<String>,
    pub value: String,
    pub body: Option<String>,
    pub message_type: String,
}

/// How the computation of a transaction went.
#[derive(Debug)]
pub struct ComputePhaseInfo {
    pub success: bool,
    pub gas_used: String,
    pub gas_limit: String,
    pub exit_code: Option<i32>,
}

/// How the actions of a transaction went.
#[derive(Debug, Clone, Copy)]
pub struct ActionPhaseInfo {
    pub success: bool,
    pub total_actions: u32,
    pub valid_actions: u32,
    pub no_funds: bool,
}

/// [`MessageInfo`] by its characters.
#[verifier::ext_equal]
pub struct MessageView {
    pub hash: Seq<char>,
    pub source: Option<Seq<char>>,
    pub destination: Option<Seq<char>>,
    pub value: Seq<char>,
    pub body: Option<Seq<char>>,
    pub message_type: Seq<char>,
}

/// [`ComputePhaseInfo`] by its characters.
#[verifier::ext_equal]
pub struct ComputePhaseView {
    pub success: bool,
    pub gas_used: Seq<char>,
    pub gas_limit: Seq<char>,
    pub exit_code: Option<i32>,
}

/// [`TransactionTrace`] by its characters.
#[verifier::ext_equal]
pub struct TraceView {
    pub trace_id: Seq<char>,
    pub root_hash: Seq<char>,
    pub account: Seq<char>,
    pub lt: Seq<char>,
    pub hash: Seq<char>,
    pub now: u32,
    pub in_msg: Option<MessageView>,
    pub out_msgs: Seq<MessageView>,
    pub children: Seq<TraceView>,
    pub total_fees: Seq<char>,
    pub compute_phase: Option<ComputePhaseView>,
    pub action_phase: Option<ActionPhaseInfo>,
}

/// [`ServerMessage`] by its characters.
#[allow(inconsistent_fields)]
#[verifier::ext_equal]
pub enum ServerMessageView {
    SubscriptionConfirm { subscription_id: Seq<char>, address: Seq<char> },
    UnsubscriptionConfirm { subscription_id: Seq<char> },
    TransactionTrace { subscription_id: Seq<char>, address: Seq<char>, trace: TraceView },
    Error { message: Seq<char>, subscription_id: Option<Seq<char>> },
    Pong,
}

/// [`ClientMessage`] by its characters.
#[allow(inconsistent_fields)]
#[verifier::ext_equal]
pub enum ClientMessageView {
    Subscribe { address: Seq<char>, subscription_id: Option<Seq<char>> },
    Unsubscribe { subscription_id: Seq<char> },
    Ping,
}

impl View for MessageInfo {
    type V = MessageView;

    open spec fn view(&self) -> MessageView {
        MessageView {
            hash: self.hash@,
            source: opt_text(self.source),
            destination: opt_text(self.destination),
            value: self.value@,
            body: opt_text(self.body),
            message_type: self.message_type@,
        }
    }
}

impl View for ComputePhaseInfo {
    type V = ComputePhaseView;

    open spec fn view(&self) -> ComputePhaseView {
        ComputePhaseView {
            success: self.success,
            gas_used: self.gas_used@,
            gas_limit: self.gas_limit@,
            exit_code: self.exit_code,
        }
    }
}

/// An optional message by its view.
pub open spec fn opt_message(message: Option<MessageInfo>) -> Option<MessageView> {
    match message {
        Some(m) => Some(m@),
        None => None,
    }
}

/// A list of messages by their views.
pub open spec fn message_list(messages: Seq<MessageInfo>) -> Seq<MessageView> {
    Seq::new(messages.len(), |i: int| messages[i]@)
}

/// An optional computation phase by its view.
pub open spec fn opt_compute(phase: Option<ComputePhaseInfo>) -> Option<ComputePhaseView> {
    match phase {
        Some(p) => Some(p@),
        None => None,
    }
}

/// A trace by its view.
pub open spec fn trace_view(trace: TransactionTrace) -> TraceView
    decreases trace,
{
    TraceView {
        trace_id: trace.trace_id@,
        root_hash: trace.root_hash@,
        account: trace.account@,
        lt: trace.lt@,
        hash: trace.hash@,
        now: trace.now,
        in_msg: opt_message(trace.in_msg),
        out_msgs: message_list(trace.out_msgs@),
        children: Seq::new(
            trace.children@.len(),
            |i: int|
                if 0 <= i < trace.children@.len() {
                    trace_view(trace.children@[i])
                } else {
                    arbitrary()
                },
        ),
        total_fees: trace.total_fees@,
        compute_phase: opt_compute(trace.compute_phase),
        action_phase: trace.action_phase,
    }
}

/// A list of traces by their views.
pub open spec fn trace_list(traces: Seq<TransactionTrace>) -> Seq<TraceView> {
    Seq::new(traces.len(), |i: int| traces[i]@)
}

impl View for TransactionTrace {
    type V = TraceView;

    open spec fn view(&self) -> TraceView {
        trace_view(*self)
    }
}

impl View for ServerMessage {
    type V = ServerMessageView;

    open spec fn view(&self) -> ServerMessageView {
        match *self {
            ServerMessage::SubscriptionConfirm { subscription_id, address } =>
                ServerMessageView::SubscriptionConfirm {
                subscription_id: subscription_id@,
                address: address@,
            },
            ServerMessage::UnsubscriptionConfirm { subscription_id } =>
                ServerMessageView::UnsubscriptionConfirm { subscription_id: subscription_id@ },
            ServerMessage::TransactionTrace { subscription_id, address, trace } =>
                ServerMessageView::TransactionTrace {
                subscription_id: subscription_id@,
                address: address@,
                trace: (*trace)@,
            },
            ServerMessage::Error { message, subscription_id } => ServerMessageView::Error {
                message: message@,
                subscription_id: opt_text(subscription_id),
            },
            ServerMessage::Pong => ServerMessageView::Pong,
        }
    }
}

impl View for ClientMessage {
    type V = ClientMessageView;

    open spec fn view(&self) -> ClientMessageView {
        match *self {
            ClientMessage::Subscribe { address, subscription_id } => ClientMessageView::Subscribe {
                address: address@,
                subscription_id: opt_text(subscription_id),
            },
            ClientMessage::Unsubscribe { subscription_id } => ClientMessageView::Unsubscribe {
                subscription_id: subscription_id@,
            },
            ClientMessage::Ping => ClientMessageView::Ping,
        }
    }
}

impl Clone for MessageInfo {
    fn clone(&self) -> (copy: Self)
        ensures
            copy@ == self@,
    {
        MessageInfo {
            hash: self.hash.clone(),
            source: self.source.clone(),
            destination: self.destination.clone(),
            value: self.value.clone(),
            body: self.body.clone(),
            message_type: self.message_type.clone(),
        }
    }
}

impl Clone for ComputePhaseInfo {
    fn clone(&self) -> (copy: Self)
        ensures
            copy@ == self@,
    {
        ComputePhaseInfo {
            success: self.success,
            gas_used: self.gas_used.clone(),
            gas_limit: self.gas_limit.clone(),
            exit_code: self.exit_code,
        }
    }
}

impl TransactionTrace {
    /// A copy of the transaction itself with the given children.
    pub fn with_children(&self, children: Vec<TransactionTrace>) -> (copy: TransactionTrace)
        ensures
            copy@ == (TraceView { children: trace_list(children@), ..self@ }),
    {
        let out_msgs = self.out_msgs.clone();
        assert(message_list(out_msgs@) =~= message_list(self.out_msgs@));
        let copy = TransactionTrace {
            trace_id: self.trace_id.clone(),
            root_hash: self.root_hash.clone(),
            account: self.account.clone(),
            lt: self.lt.clone(),
            hash: self.hash.clone(),
            now: self.now,
            in_msg: self.in_msg.clone(),
            out_msgs,
            children,
            total_fees: self.total_fees.clone(),
            compute_phase: self.compute_phase.clone(),
            action_phase: self.action_phase,
        };
        assert(copy@.children =~= trace_list(children@));
        copy
    }
}

impl Clone for TransactionTrace {
    fn clone(&self) -> (copy: Self)
        ensures
            copy@ == self@,
        decreases self,
    {
        let mut children: Vec<TransactionTrace> = Vec::new();
        for i in 0..self.children.len()
            invariant
                children@.len() == i,
                forall|j: int| 0 <= j < i ==> (#[trigger] children@[j])@ == self.children@[j]@,
        {
            let child = self.children[i].clone();
            children.push(child);
        }
        assert(trace_list(children@) =~= self@.children);
        self.with_children(children)
    }
}

impl ServerMessage {
    /// An error message.
    pub fn error(message: String, subscription_id: Option<String>) -> (result: Self)
        ensures
            result == (ServerMessage::Error { message, subscription_id }),
    {
        ServerMessage::Error { message, subscription_id }
    }

    /// The confirmation of a subscription to `address` under a fresh random identifier.
    pub fn subscription_confirm(address: String) -> (result: Self)
        ensures
            result matches ServerMessage::SubscriptionConfirm { subscription_id, address: confirmed }
                && is_random_uuid(subscription_id@) && confirmed == address,
    {
        let subscription_id = new_id();
        ServerMessage::SubscriptionConfirm { subscription_id, address }
    }
}

/// A trace is spoken of by all its fields, and so is what it is made of.
pub proof fn law_trace_is_shown_whole(
    trace: TransactionTrace,
    message: MessageInfo,
    phase: ComputePhaseInfo,
    i: int,
)
    ensures
        trace@.trace_id == trace.trace_id@,
        trace@.root_hash == trace.root_hash@,
        trace@.account == trace.account@,
        trace@.lt == trace.lt@,
        trace@.hash == trace.hash@,
        trace@.now == trace.now,
        trace@.in_msg == opt_message(trace.in_msg),
        trace@.out_msgs == message_list(trace.out_msgs@),
        trace@.children == trace_list(trace.children@),
        trace@.total_fees == trace.total_fees@,
        trace@.compute_phase == opt_compute(trace.compute_phase),
        trace@.action_phase == trace.action_phase,
        trace_list(trace.children@).len() == trace.children@.len(),
        0 <= i < trace.children@.len() ==> trace_list(trace.children@)[i] == trace.children@[i]@,
        message_list(trace.out_msgs@).len() == trace.out_msgs@.len(),
        0 <= i < trace.out_msgs@.len() ==> message_list(trace.out_msgs@)[i]
            == trace.out_msgs@[i]@,
        message@.hash == message.hash@,
        message@.source == opt_text(message.source),
        message@.destination == opt_text(message.destination),
        message@.value == message.value@,
        message@.body == opt_text(message.body),
        message@.message_type == message.message_type@,
        opt_message(Some(message)) == Some(message@),
        opt_message(None) == None::<MessageView>,
        phase@.success == phase.success,
        phase@.gas_used == phase.gas_used@,
        phase@.gas_limit == phase.gas_limit@,
        phase@.exit_code == phase.exit_code,
        opt_compute(Some(phase)) == Some(phase@),
        opt_compute(None) == None::<ComputePhaseView>,
{
    assert(trace@.children =~= trace_list(trace.children@));
}

/// The messages between clients and the service are spoken of by all their fields.
pub proof fn law_messages_are_shown_whole(
    text: String,
    address: String,
    wish: Option<String>,
    trace: Box<TransactionTrace>,
)
    ensures
        (ClientMessage::Subscribe { address, subscription_id: wish })@ == (
        ClientMessageView::Subscribe { address: address@, subscription_id: opt_text(wish) }),
        (ClientMessage::Unsubscribe { subscription_id: text })@ == (
        ClientMessageView::Unsubscribe { subscription_id: text@ }),
        ClientMessage::Ping@ == ClientMessageView::Ping,
        (ServerMessage::SubscriptionConfirm { subscription_id: text, address })@ == (
        ServerMessageView::SubscriptionConfirm { subscription_id: text@, address: address@ }),
        (ServerMessage::UnsubscriptionConfirm { subscription_id: text })@ == (
        ServerMessageView::UnsubscriptionConfirm { subscription_id: text@ }),
        (ServerMessage::TransactionTrace { subscription_id: text, address, trace })@ == (
        ServerMessageView::TransactionTrace {
            subscription_id: text@,
            address: address@,
            trace: (*trace)@,
        }),
        (ServerMessage::Error { message: text, subscription_id: wish })@ == (
        ServerMessageView::Error { message: text@, subscription_id: opt_text(wish) }),
        ServerMessage::Pong@ == ServerMessageView::Pong,
{
}

} // verus!
