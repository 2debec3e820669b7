//! What clients are answered.
use tonmon::subscription::manager::{MonitorEvent, SubscriptionManager};
use tonmon::ton::trace::TraceService;
use tonmon::websocket::handler::{Connection, Frame, FrameStep, Reply, WebSocketHandler};
use tonmon::websocket::message::{ClientMessage, ServerMessage};

const FIRST: &str = "EQCD39VS5jcptHL8vMjEXrzGaRcCVYto7HUn4bpAOg8xqB2N";

fn handler() -> WebSocketHandler {
    WebSocketHandler::new(SubscriptionManager::new(TraceService::default()))
}

fn subscribe(address: &str) -> ClientMessage {
    ClientMessage::Subscribe { address: address.to_string(), subscription_id: None }
}

fn unsubscribe(id: &str) -> ClientMessage {
    ClientMessage::Unsubscribe { subscription_id: id.to_string() }
}

fn answer(step: FrameStep) -> Reply {
    match step {
        FrameStep::Send(reply) => reply,
        other => panic!("{:?}", other),
    }
}

fn failure_text(reply: &Reply) -> String {
    match reply.failure_message() {
        Some(ServerMessage::Error { message, subscription_id: None }) => message,
        other => panic!("{:?}", other),
    }
}

#[test]
fn test_handler_creation() {
    let trace_service = TraceService::default();
    let manager = SubscriptionManager::new(trace_service);
    let handler = WebSocketHandler::new(manager);

    let stats = handler.get_connection_stats();
    assert_eq!(stats.total_subscriptions, 0);
}

#[test]
fn subscribing_is_confirmed() {
    let mut handler = handler();
    let mut connection = Connection::new(5);
    let wish = ClientMessage::Subscribe {
        address: FIRST.to_string(),
        subscription_id: Some("mine".to_string()),
    };
    let reply = answer(handler.handle_connection(&mut connection, Frame::Text(Ok(wish))));
    let id = match &reply.message {
        ServerMessage::SubscriptionConfirm { subscription_id, address } => {
            assert_eq!(address, FIRST);
            subscription_id.clone()
        }
        other => panic!("{:?}", other),
    };
    assert_ne!(id, "mine");
    assert_eq!(id.len(), 36);
    assert_eq!(connection.active_subscriptions, vec![id]);
    assert!(matches!(&reply.event, Some(MonitorEvent::AddAddress(a)) if a == FIRST));
    assert_eq!(failure_text(&reply), "WebSocket error: Failed to send confirmation");
    let stats = handler.get_connection_stats();
    assert_eq!(stats.total_subscriptions, 1);
    assert_eq!(stats.monitored_addresses, 1);
}

#[test]
fn giving_up_is_confirmed() {
    let mut handler = handler();
    let mut connection = Connection::new(5);
    handler.serve(&mut connection, subscribe(FIRST), "a".to_string());
    handler.serve(&mut connection, subscribe(FIRST), "b".to_string());
    let reply = answer(handler.handle_connection(&mut connection, Frame::Text(Ok(unsubscribe("a")))));
    assert!(matches!(
        &reply.message,
        ServerMessage::UnsubscriptionConfirm { subscription_id } if subscription_id == "a"
    ));
    assert!(reply.event.is_none());
    assert_eq!(
        failure_text(&reply),
        "WebSocket error: Failed to send unsubscription confirmation"
    );
    assert_eq!(connection.active_subscriptions, vec!["b".to_string()]);
    let reply = handler.serve(&mut connection, unsubscribe("b"), String::new());
    assert!(matches!(&reply.event, Some(MonitorEvent::RemoveAddress(a)) if a == FIRST));
    assert!(connection.active_subscriptions.is_empty());
}

#[test]
fn giving_up_what_is_unknown_is_confirmed_too() {
    let mut handler = handler();
    let mut connection = Connection::new(5);
    let reply = answer(handler.handle_connection(&mut connection, Frame::Text(Ok(unsubscribe("x")))));
    assert!(matches!(
        &reply.message,
        ServerMessage::UnsubscriptionConfirm { subscription_id } if subscription_id == "x"
    ));
    assert!(reply.event.is_none());
}

#[test]
fn ping_is_answered_by_pong() {
    let mut handler = handler();
    let mut connection = Connection::new(5);
    let ping = Frame::Text(Ok(ClientMessage::Ping));
    let reply = answer(handler.handle_connection(&mut connection, ping));
    assert!(matches!(reply.message, ServerMessage::Pong));
    assert!(reply.event.is_none());
    assert_eq!(failure_text(&reply), "WebSocket error: Failed to send pong");
    assert_eq!(handler.get_connection_stats().total_subscriptions, 0);
}

#[test]
fn malformed_text_is_answered_by_an_error() {
    let mut handler = handler();
    let mut connection = Connection::new(5);
    let frame = Frame::Text(Err("expected value at line 1 column 1".to_string()));
    let reply = answer(handler.handle_connection(&mut connection, frame));
    match &reply.message {
        ServerMessage::Error { message, subscription_id } => {
            assert_eq!(message, "Serialization error: expected value at line 1 column 1");
            assert!(subscription_id.is_none());
        }
        other => panic!("{:?}", other),
    }
    assert!(reply.event.is_none());
    assert!(reply.failure_message().is_none());
}

#[test]
fn other_frames_are_ignored_or_close() {
    let mut handler = handler();
    let mut connection = Connection::new(5);
    for frame in [Frame::Binary, Frame::Ping, Frame::Pong] {
        assert!(matches!(handler.handle_connection(&mut connection, frame), FrameStep::Ignored));
    }
    for frame in [Frame::Close, Frame::Failed] {
        assert!(matches!(handler.handle_connection(&mut connection, frame), FrameStep::Closed));
    }
}

#[test]
fn closing_drops_exactly_the_connections_own() {
    let mut handler = handler();
    let mut first = Connection::new(5);
    let mut second = Connection::new(6);
    handler.serve(&mut first, subscribe(FIRST), "a".to_string());
    handler.serve(&mut second, subscribe(FIRST), "b".to_string());
    handler.serve(&mut first, subscribe("elsewhere"), "c".to_string());
    let events = handler.close_connection(first);
    assert_eq!(events.len(), 1);
    assert!(matches!(&events[0], MonitorEvent::RemoveAddress(a) if a == "elsewhere"));
    assert_eq!(handler.get_connection_stats().total_subscriptions, 1);
    let delivery = handler
        .subscription_manager
        .send_to_subscription("b", ServerMessage::Pong)
        .unwrap();
    assert_eq!(delivery.sender, 6);
}

#[test]
fn client_undoes_a_subscription() {
    let mut handler = handler();
    let mut connection = Connection::new(5);
    handler.serve(&mut connection, subscribe(FIRST), "a".to_string());
    handler.serve(&mut connection, subscribe(FIRST), "b".to_string());
    handler.serve(&mut connection, unsubscribe("b"), String::new());
    assert_eq!(connection.active_subscriptions, vec!["a".to_string()]);
    assert_eq!(handler.get_connection_stats().total_subscriptions, 1);
    assert_eq!(handler.get_connection_stats().monitored_addresses, 1);
}
