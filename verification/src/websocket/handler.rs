//! Serving the clients: what follows from what a client sends.
use vstd::prelude::*;

use crate::subscription::laws::{
    consistent, law_address_is_given_up_with_the_last_subscription,
    law_only_the_dropped_are_gone, law_subscribing_keeps_consistency,
    law_unsubscribing_keeps_consistency, law_unsubscribing_undoes_subscribing, lemma_ids_without,
};
use crate::subscription::manager::{
    event_list, ids_without, opt_event, subscribed, unsubscribe_event, unsubscribe_events,
    unsubscribed, unsubscribed_all, without_id, ManagerView, MonitorEvent, MonitorEventView,
    SubscriptionManager,
};
use crate::utils::error::{error_text, ServiceError, ServiceErrorView};
use crate::utils::ids::{is_random_uuid, new_id};
use crate::utils::text::texts;
use crate::websocket::message::{
    ClientMessage, ClientMessageView, ServerMessage, ServerMessageView,
};

verus! {

/// Counts of what the clients asked for.
#[derive(Debug, Clone)]
pub struct ConnectionStats {
    pub total_subscriptions: usize,
    pub monitored_addresses: usize,
}

/// A connection to a client: the channel to it, and the subscriptions that were made over it.
#[derive(Debug)]
pub struct Connection {
    pub sender: u64,
    pub active_subscriptions: Vec<String>,
}

/// [`Connection`] by its characters.
#[verifier::ext_equal]
pub struct ConnectionView {
    pub sender: u64,
    pub active: Seq<Seq<char>>,
}

impl View for Connection {
    type V = ConnectionView;

    open spec fn view(&self) -> ConnectionView {
        ConnectionView { sender: self.sender, active: texts(self.active_subscriptions@) }
    }
}

impl Connection {
    /// A new connection.
    pub fn new(sender: u64) -> (connection: Self)
        ensures
            connection@ == (ConnectionView { sender, active: Seq::empty() }),
    {
        let connection = Connection { sender, active_subscriptions: Vec::new() };
        assert(connection@.active =~= Seq::empty());
        connection
    }
}

/// What came in over a connection.
#[derive(Debug)]
pub enum Frame {
    /// A text: the message that it holds, or why it holds none.
    Text(Result<ClientMessage, String>),
    Binary,
    Ping,
    Pong,
    Close,
    /// The connection failed.
    Failed,
}

/// An answer to a client.
#[derive(Debug)]
pub struct Reply {
    pub message: ServerMessage,
    /// The change to the watched addresses that goes with it, if any.
    pub event: Option<MonitorEvent>,
    /// The error for the case that the message cannot be sent, if there is one.
    pub failure: Option<ServiceError>,
}

/// [`Reply`] by its characters.
#[verifier::ext_equal]
pub struct ReplyView {
    pub message: ServerMessageView,
    pub event: Option<MonitorEventView>,
    pub failure: Option<ServiceErrorView>,
}

/// An optional error by its view.
pub open spec fn opt_error(error: Option<ServiceError>) -> Option<ServiceErrorView> {
    match error {
        Some(e) => Some(e@),
        None => None,
    }
}

impl View for Reply {
    type V = ReplyView;

    open spec fn view(&self) -> ReplyView {
        ReplyView {
            message: self.message@,
            event: opt_event(self.event),
            failure: opt_error(self.failure),
        }
    }
}

/// What follows from a frame.
#[derive(Debug)]
pub enum FrameStep {
    /// The client gets an answer.
    Send(Reply),
    /// Nothing follows.
    Ignored,
    /// The connection is over.
    Closed,
}

/// The answer to a subscription.
pub open spec fn subscribe_reply(id: Seq<char>, address: Seq<char>) -> ReplyView {
    ReplyView {
        message: ServerMessageView::SubscriptionConfirm { subscription_id: id, address },
        event: Some(MonitorEventView::AddAddress(address)),
        failure: Some(ServiceErrorView::WebSocket("Failed to send confirmation"@)),
    }
}

/// The answer to the end of a subscription.
pub open spec fn unsubscribe_reply(manager: ManagerView, id: Seq<char>) -> ReplyView {
    ReplyView {
        message: ServerMessageView::UnsubscriptionConfirm { subscription_id: id },
        event: unsubscribe_event(manager, id),
        failure: Some(ServiceErrorView::WebSocket("Failed to send unsubscription confirmation"@)),
    }
}

/// The answer to a ping.
pub open spec fn pong_reply() -> ReplyView {
    ReplyView {
        message: ServerMessageView::Pong,
        event: None,
        failure: Some(ServiceErrorView::WebSocket("Failed to send pong"@)),
    }
}

/// The answer to a text that cannot be served.
pub open spec fn error_reply(error: ServiceErrorView) -> ReplyView {
    ReplyView {
        message: error_message(error),
        event: None,
        failure: None,
    }
}

/// The message that tells a client of an error.
pub open spec fn error_message(error: ServiceErrorView) -> ServerMessageView {
    ServerMessageView::Error { message: error_text(error), subscription_id: None }
}

/// The subscriptions, the connection and the answer once a client's message is served. A new
/// subscription gets the identifier `id`.
pub open spec fn served(
    manager: ManagerView,
    connection: ConnectionView,
    message: ClientMessageView,
    id: Seq<char>,
) -> (ManagerView, ConnectionView, ReplyView) {
    match message {
        ClientMessageView::Subscribe { address, subscription_id } => (
            subscribed(manager, id, address, connection.sender),
            ConnectionView { active: connection.active.push(id), ..connection },
            subscribe_reply(id, address),
        ),
        ClientMessageView::Unsubscribe { subscription_id } => (
            unsubscribed(manager, subscription_id),
            ConnectionView {
                active: ids_without(connection.active, subscription_id),
                ..connection
            },
            unsubscribe_reply(manager, subscription_id),
        ),
        ClientMessageView::Ping => (manager, connection, pong_reply()),
    }
}

impl Reply {
    /// The message to try when the answer itself could not be sent.
    pub fn failure_message(&self) -> (message: Option<ServerMessage>)
        ensures
            match (message, self@.failure) {
                (Some(m), Some(error)) => m@ == error_message(error),
                (None, None) => true,
                _ => false,
            },
    {
        match &self.failure {
            Some(error) => Some(ServerMessage::error(error.to_text(), None)),
            None => None,
        }
    }
}

/// Serves the clients' connections.
pub struct WebSocketHandler {
    pub subscription_manager: SubscriptionManager,
}

impl WebSocketHandler {
    /// A handler that keeps the subscriptions in `subscription_manager`.
    pub fn new(subscription_manager: SubscriptionManager) -> (handler: Self)
        ensures
            handler.subscription_manager@ == subscription_manager@,
    {
        WebSocketHandler { subscription_manager }
    }

    /// Takes what came in over a connection. A text is answered, the end of the connection and
    /// its failure close it, and everything else is ignored.
    pub fn handle_connection(
        &mut self,
        connection: &mut Connection,
        frame: Frame,
    ) -> (step: FrameStep)
        ensures
            match frame {
                Frame::Text(Ok(message)) => {
                    &&& step is Send
                    &&& exists|id: Seq<char>|
                        (message@ is Subscribe ==> is_random_uuid(id)) && (
                            final(self).subscription_manager@,
                            final(connection)@,
                            step->Send_0@,
                        ) == #[trigger] served(
                            old(self).subscription_manager@,
                            old(connection)@,
                            message@,
                            id,
                        )
                },
                Frame::Text(Err(e)) => {
                    &&& step is Send
                    &&& step->Send_0@ == error_reply(ServiceErrorView::Serialization(e@))
                    &&& final(self).subscription_manager@ == old(self).subscription_manager@
                    &&& final(connection)@ == old(connection)@
                },
                Frame::Close | Frame::Failed => {
                    &&& step is Closed
                    &&& final(self).subscription_manager@ == old(self).subscription_manager@
                    &&& final(connection)@ == old(connection)@
                },
                Frame::Binary | Frame::Ping | Frame::Pong => {
                    &&& step is Ignored
                    &&& final(self).subscription_manager@ == old(self).subscription_manager@
                    &&& final(connection)@ == old(connection)@
                },
            },
    {
        match frame {
            Frame::Text(parsed) => match self.handle_text_message(connection, parsed) {
                Ok(reply) => FrameStep::Send(reply),
                Err(error) => FrameStep::Send(
                    Reply {
                        message: ServerMessage::error(error.to_text(), None),
                        event: None,
                        failure: None,
                    },
                ),
            },
            Frame::Binary | Frame::Ping | Frame::Pong => FrameStep::Ignored,
            Frame::Close | Frame::Failed => FrameStep::Closed,
        }
    }

    /// Serves a client's message, or says why the text held none. A new subscription gets a
    /// fresh random identifier.
    pub fn handle_text_message(
        &mut self,
        connection: &mut Connection,
        parsed: Result<ClientMessage, String>,
    ) -> (result: Result<Reply, ServiceError>)
        ensures
            match parsed {
                Ok(message) => {
                    &&& result is Ok
                    &&& exists|id: Seq<char>|
                        (message@ is Subscribe ==> is_random_uuid(id)) && (
                            final(self).subscription_manager@,
                            final(connection)@,
                            result->Ok_0@,
                        ) == #[trigger] served(
                            old(self).subscription_manager@,
                            old(connection)@,
                            message@,
                            id,
                        )
                },
                Err(e) => {
                    &&& result is Err
                    &&& result->Err_0@ == ServiceErrorView::Serialization(e@)
                    &&& final(self).subscription_manager@ == old(self).subscription_manager@
                    &&& final(connection)@ == old(connection)@
                },
            },
    {
        match parsed {
            Ok(message) => {
                let id = match &message {
                    ClientMessage::Subscribe { .. } => new_id(),
                    _ => String::new(),
                };
                Ok(self.serve(connection, message, id))
            },
            Err(e) => Err(ServiceError::Serialization(e)),
        }
    }

    /// Serves a client's message. A new subscription gets the identifier `id`.
    pub fn serve(
        &mut self,
        connection: &mut Connection,
        message: ClientMessage,
        id: String,
    ) -> (reply: Reply)
        ensures
            (final(self).subscription_manager@, final(connection)@, reply@) == served(
                old(self).subscription_manager@,
                old(connection)@,
                message@,
                id@,
            ),
    {
        match message {
            ClientMessage::Subscribe { address, .. } => {
                let event = self.subscription_manager.insert_subscription(
                    id.clone(),
                    address.clone(),
                    connection.sender,
                );
                let ghost active = connection@.active;
                connection.active_subscriptions.push(id.clone());
                assert(connection@.active =~= active.push(id@));
                Reply {
                    message: ServerMessage::SubscriptionConfirm { subscription_id: id, address },
                    event: Some(event),
                    failure: Some(
                        ServiceError::WebSocket("Failed to send confirmation".to_owned()),
                    ),
                }
            },
            ClientMessage::Unsubscribe { subscription_id } => {
                let event = self.subscription_manager.drop_subscription(&subscription_id);
                connection.active_subscriptions =
                without_id(&connection.active_subscriptions, &subscription_id);
                Reply {
                    message: ServerMessage::UnsubscriptionConfirm { subscription_id },
                    event,
                    failure: Some(
                        ServiceError::WebSocket(
                            "Failed to send unsubscription confirmation".to_owned(),
                        ),
                    ),
                }
            },
            ClientMessage::Ping => Reply {
                message: ServerMessage::Pong,
                event: None,
                failure: Some(ServiceError::WebSocket("Failed to send pong".to_owned())),
            },
        }
    }

    /// Drops the subscriptions of a connection that is over, and says which addresses are given
    /// up.
    pub fn close_connection(&mut self, connection: Connection) -> (events: Vec<MonitorEvent>)
        ensures
            final(self).subscription_manager@ == unsubscribed_all(
                old(self).subscription_manager@,
                connection@.active,
            ),
            event_list(events@) == unsubscribe_events(
                old(self).subscription_manager@,
                connection@.active,
            ),
    {
        self.subscription_manager.remove_subscriptions(&connection.active_subscriptions)
    }

    /// The counts of what the clients asked for.
    pub fn get_connection_stats(&self) -> (stats: ConnectionStats)
        ensures
            stats.total_subscriptions == self.subscription_manager@.subscriptions.len(),
            stats.monitored_addresses == self.subscription_manager@.addresses.len(),
    {
        let subscription_stats = self.subscription_manager.get_stats();
        ConnectionStats {
            total_subscriptions: subscription_stats.total_subscriptions,
            monitored_addresses: subscription_stats.monitored_addresses,
        }
    }
}

/// The connection lists exactly the subscriptions that its channel serves.
pub open spec fn knows_its_own(manager: ManagerView, connection: ConnectionView) -> bool {
    forall|id: Seq<char>| #[trigger]
        manager.subscriptions.contains_key(id) ==> (manager.subscriptions[id].sender
            == connection.sender <==> connection.active.contains(id))
}

/// A new connection over a channel that serves no subscription lists what it should: nothing.
pub proof fn law_new_connection_knows_its_own(manager: ManagerView, sender: u64)
    requires
        forall|id: Seq<char>| #[trigger]
            manager.subscriptions.contains_key(id) ==> manager.subscriptions[id].sender != sender,
    ensures
        knows_its_own(manager, ConnectionView { sender, active: Seq::empty() }),
{
}

/// Whatever a client asks for, its connection lists exactly its own subscriptions afterwards.
pub proof fn law_connection_knows_its_own(
    manager: ManagerView,
    connection: ConnectionView,
    message: ClientMessageView,
    id: Seq<char>,
)
    requires
        knows_its_own(manager, connection),
    ensures
        knows_its_own(
            served(manager, connection, message, id).0,
            served(manager, connection, message, id).1,
        ),
{
    let after = served(manager, connection, message, id).1;
    match message {
        ClientMessageView::Subscribe { address, subscription_id } => {
            assert forall|other: Seq<char>| #[trigger] after.active.contains(other) <==> other == id
                || connection.active.contains(other) by {
                lemma_pushed(connection.active, id, other);
            }
        },
        ClientMessageView::Unsubscribe { subscription_id } => {
            lemma_ids_without(connection.active, subscription_id);
        },
        ClientMessageView::Ping => {},
    }
}

/// Whatever one client asks for, the connection of another client still lists exactly its own
/// subscriptions, as long as the identifier of a new subscription is not on its list.
pub proof fn law_others_know_their_own(
    manager: ManagerView,
    connection: ConnectionView,
    message: ClientMessageView,
    id: Seq<char>,
    other: ConnectionView,
)
    requires
        knows_its_own(manager, other),
        other.sender != connection.sender,
        message is Subscribe ==> !other.active.contains(id),
    ensures
        knows_its_own(served(manager, connection, message, id).0, other),
{
}

/// When a connection is over, exactly its own subscriptions are gone, and the others are as
/// they were.
pub proof fn law_closing_drops_exactly_its_own(
    manager: ManagerView,
    connection: ConnectionView,
    id: Seq<char>,
)
    requires
        knows_its_own(manager, connection),
    ensures
        unsubscribed_all(manager, connection.active).subscriptions.contains_key(id)
            <==> manager.subscriptions.contains_key(id) && manager.subscriptions[id].sender
            != connection.sender,
        unsubscribed_all(manager, connection.active).subscriptions.contains_key(id)
            ==> unsubscribed_all(manager, connection.active).subscriptions[id]
            == manager.subscriptions[id],
{
    law_only_the_dropped_are_gone(manager, connection.active, id);
}

/// Whatever a client asks for, the maps of the manager stay in agreement, as long as the
/// identifier of a new subscription is not in use.
pub proof fn law_serving_keeps_consistency(
    manager: ManagerView,
    connection: ConnectionView,
    message: ClientMessageView,
    id: Seq<char>,
)
    requires
        consistent(manager),
        message is Subscribe ==> !manager.subscriptions.contains_key(id),
    ensures
        consistent(served(manager, connection, message, id).0),
{
    match message {
        ClientMessageView::Subscribe { address, subscription_id } => {
            law_subscribing_keeps_consistency(manager, id, address, connection.sender);
        },
        ClientMessageView::Unsubscribe { subscription_id } => {
            law_unsubscribing_keeps_consistency(manager, subscription_id);
        },
        ClientMessageView::Ping => {},
    }
}

/// A client that subscribes and gives up the subscription that was confirmed leaves everything
/// as it was.
pub proof fn law_client_can_undo_a_subscription(
    manager: ManagerView,
    connection: ConnectionView,
    address: Seq<char>,
    wish: Option<Seq<char>>,
    id: Seq<char>,
    other: Seq<char>,
)
    requires
        consistent(manager),
        !manager.subscriptions.contains_key(id),
        !connection.active.contains(id),
    ensures
        ({
            let subscribe = ClientMessageView::Subscribe { address, subscription_id: wish };
            let first = served(manager, connection, subscribe, id);
            let confirmed = first.2.message->SubscriptionConfirm_subscription_id;
            let unsubscribe = ClientMessageView::Unsubscribe { subscription_id: confirmed };
            let second = served(first.0, first.1, unsubscribe, other);
            second.0 == manager && second.1 == connection
        }),
{
    law_unsubscribing_undoes_subscribing(manager, id, address, connection.sender);
    lemma_ids_without(connection.active, id);
    reveal(Seq::filter);
    assert(connection.active.push(id).drop_last() =~= connection.active);
    assert(ids_without(connection.active.push(id), id) == connection.active);
}

/// What a list holds once an identifier is added to it.
proof fn lemma_pushed(ids: Seq<Seq<char>>, id: Seq<char>, other: Seq<char>)
    ensures
        ids.push(id).contains(other) <==> other == id || ids.contains(other),
{
    let after = ids.push(id);
    assert(after[ids.len() as int] == id);
    if ids.contains(other) {
        let k = choose|k: int| 0 <= k < ids.len() && ids[k] == other;
        assert(after[k] == other);
    }
    if after.contains(other) && other != id {
        let k = choose|k: int| 0 <= k < after.len() && after[k] == other;
        assert(ids[k] == other);
    }
}

/// A ping is answered by a pong, and changes nothing: neither the subscriptions nor the kept
/// traces nor what the connection lists.
pub proof fn law_ping_changes_nothing(
    manager: ManagerView,
    connection: ConnectionView,
    id: Seq<char>,
)
    ensures
        served(manager, connection, ClientMessageView::Ping, id).0 == manager,
        served(manager, connection, ClientMessageView::Ping, id).1 == connection,
        served(manager, connection, ClientMessageView::Ping, id).2.message
            == ServerMessageView::Pong,
        served(manager, connection, ClientMessageView::Ping, id).2.event is None,
        served(manager, connection, ClientMessageView::Ping, id).2.failure == Some(
            ServiceErrorView::WebSocket("Failed to send pong"@),
        ),
{
}

/// Only giving it up takes a subscription away, whatever a client asks for: every other one is
/// there as it was, unless a new subscription got its identifier. The kept traces and the channel
/// of the connection are never touched.
pub proof fn law_only_giving_up_takes_away(
    manager: ManagerView,
    connection: ConnectionView,
    message: ClientMessageView,
    id: Seq<char>,
    other: Seq<char>,
)
    requires
        manager.subscriptions.contains_key(other),
        message != (ClientMessageView::Unsubscribe { subscription_id: other }),
        message is Subscribe ==> id != other,
    ensures
        served(manager, connection, message, id).0.subscriptions.contains_key(other),
        served(manager, connection, message, id).0.subscriptions[other]
            == manager.subscriptions[other],
        served(manager, connection, message, id).0.traces == manager.traces,
        served(manager, connection, message, id).1.sender == connection.sender,
        connection.active.contains(other) ==> served(
            manager,
            connection,
            message,
            id,
        ).1.active.contains(other),
{
    match message {
        ClientMessageView::Subscribe { address, subscription_id } => {
            lemma_pushed(connection.active, id, other);
        },
        ClientMessageView::Unsubscribe { subscription_id } => {
            lemma_ids_without(connection.active, subscription_id);
        },
        ClientMessageView::Ping => {},
    }
}

/// A client that subscribes gets one more subscription: to the address that was asked for, over
/// its own channel, and under the identifier that it is told, whatever identifier it wished for.
/// The address is announced, and the connection lists the subscription last.
pub proof fn law_subscribing_is_confirmed(
    manager: ManagerView,
    connection: ConnectionView,
    address: Seq<char>,
    wish: Option<Seq<char>>,
    id: Seq<char>,
    other: Seq<char>,
)
    ensures
        ({
            let message = ClientMessageView::Subscribe { address, subscription_id: wish };
            let (after, listing, reply) = served(manager, connection, message, id);
            &&& reply.message == (ServerMessageView::SubscriptionConfirm {
                subscription_id: id,
                address,
            })
            &&& reply.event == Some(MonitorEventView::AddAddress(address))
            &&& reply.failure == Some(ServiceErrorView::WebSocket("Failed to send confirmation"@))
            &&& after.subscriptions.contains_key(id)
            &&& after.subscriptions[id].id == id
            &&& after.subscriptions[id].address == address
            &&& after.subscriptions[id].sender == connection.sender
            &&& after.addresses.contains_key(address)
            &&& after.addresses[address].contains(id)
            &&& other != id && after.subscriptions.contains_key(other)
                ==> manager.subscriptions.contains_key(other)
            &&& listing.sender == connection.sender
            &&& listing.active.len() == connection.active.len() + 1
            &&& listing.active.last() == id
            &&& listing.active.drop_last() == connection.active
        }),
{
    let after = subscribed(manager, id, address, connection.sender);
    let ids = after.addresses[address];
    assert(ids[ids.len() - 1] == id);
    assert(connection.active.push(id).drop_last() =~= connection.active);
}

/// A client that gives up a subscription is told so, whether or not there was one. That one is
/// gone then, from the subscriptions and from what the connection lists, and no other; and its
/// address is given up where nobody else was subscribed to it.
pub proof fn law_giving_up_is_confirmed(
    manager: ManagerView,
    connection: ConnectionView,
    given_up: Seq<char>,
    id: Seq<char>,
    other: Seq<char>,
)
    requires
        consistent(manager),
    ensures
        ({
            let message = ClientMessageView::Unsubscribe { subscription_id: given_up };
            let (after, listing, reply) = served(manager, connection, message, id);
            &&& reply.message == (ServerMessageView::UnsubscriptionConfirm {
                subscription_id: given_up,
            })
            &&& reply.failure == Some(
                ServiceErrorView::WebSocket("Failed to send unsubscription confirmation"@),
            )
            &&& !manager.subscriptions.contains_key(given_up) ==> reply.event is None && after
                == manager
            &&& manager.subscriptions.contains_key(given_up) ==> reply.event == if exists|
                neighbour: Seq<char>,
            |
                neighbour != given_up && #[trigger] manager.subscriptions.contains_key(neighbour)
                    && manager.subscriptions[neighbour].address
                    == manager.subscriptions[given_up].address {
                None::<MonitorEventView>
            } else {
                Some(
                    MonitorEventView::RemoveAddress(manager.subscriptions[given_up].address),
                )
            }
            &&& after.subscriptions.contains_key(other) <==> manager.subscriptions.contains_key(
                other,
            ) && other != given_up
            &&& listing.sender == connection.sender
            &&& listing.active.contains(other) <==> connection.active.contains(other) && other
                != given_up
        }),
{
    lemma_ids_without(connection.active, given_up);
    if manager.subscriptions.contains_key(given_up) {
        law_address_is_given_up_with_the_last_subscription(manager, given_up);
    }
}

/// An error is told by its text alone, and what cannot be served changes no watched address.
pub proof fn law_error_is_told(error: ServiceErrorView)
    ensures
        error_message(error) == (ServerMessageView::Error {
            message: error_text(error),
            subscription_id: None,
        }),
        error_reply(error).message == error_message(error),
        error_reply(error).event is None,
        error_reply(error).failure is None,
{
}

/// Connections and answers are spoken of by all their fields.
pub proof fn law_answers_are_shown_whole(connection: Connection, reply: Reply)
    ensures
        connection@.sender == connection.sender,
        connection@.active == texts(connection.active_subscriptions@),
        reply@.message == reply.message@,
        reply@.event == opt_event(reply.event),
        match reply.failure {
            Some(error) => reply@.failure == Some(error@),
            None => reply@.failure is None,
        },
{
}

} // verus!
