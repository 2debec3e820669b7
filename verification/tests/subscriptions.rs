//! Who is subscribed to what, and what the subscribers are sent.
use tonmon::subscription::manager::{EventStep, MonitorEvent, Subscription, SubscriptionManager};
use tonmon::subscription::watching::follow;
use tonmon::ton::monitor::{RawTransaction, TransactionEvent, TransactionMonitor};
use tonmon::ton::trace::{TraceResponse, TraceService};
use tonmon::websocket::message::ServerMessage;

const FIRST: &str = "EQCD39VS5jcptHL8vMjEXrzGaRcCVYto7HUn4bpAOg8xqB2N";
const SECOND: &str = "Ef8zMzMzMzMzMzMzMzMzMzMzMzMzMzMzMzMzMzMzMzMzM0vF";

fn manager() -> SubscriptionManager {
    SubscriptionManager::new(TraceService::default())
}

fn transaction(address: &str, hash: &str) -> TransactionEvent {
    TransactionEvent {
        address: address.to_string(),
        transaction_hash: hash.to_string(),
        logical_time: 7,
        timestamp: 8,
    }
}

fn trace_answer(hash: &str) -> Result<TraceResponse, String> {
    let body = format!(
        "{{\"transaction\": {{\"hash\": \"{}\", \"account\": {{\"address\": \"0:aa\"}}}}}}",
        hash
    );
    Ok(TraceResponse { status: 200, status_text: "200 OK".to_string(), body: body.into_bytes() })
}

#[test]
fn test_subscription_creation() {
    let trace_service = TraceService::default();

    let mut manager = SubscriptionManager::new(trace_service);

    let result = manager.create_subscription(
        "EQD3o5h_LmFwcSXvZWuOy9W9y7cE3I4n2Ni0kxqTNPhjj5yt".to_string(),
        1,
    );

    assert!(result.is_ok());
    assert_eq!(manager.get_subscription_count(), 1);
}

#[test]
fn test_subscription_removal() {
    let trace_service = TraceService::default();
    let mut manager = SubscriptionManager::new(trace_service);

    let (subscription_id, _) = manager
        .create_subscription("EQD3o5h_LmFwcSXvZWuOy9W9y7cE3I4n2Ni0kxqTNPhjj5yt".to_string(), 1)
        .unwrap();

    assert_eq!(manager.get_subscription_count(), 1);

    manager.remove_subscription(&subscription_id).unwrap();
    assert_eq!(manager.get_subscription_count(), 0);
}

#[test]
fn created_identifier_is_a_random_uuid() {
    let mut manager = manager();
    let (first, event) = manager.create_subscription(FIRST.to_string(), 1).unwrap();
    let (second, _) = manager.create_subscription(FIRST.to_string(), 1).unwrap();
    assert_eq!(first.len(), 36);
    for (i, c) in first.chars().enumerate() {
        if i == 8 || i == 13 || i == 18 || i == 23 {
            assert_eq!(c, '-');
        } else {
            assert!(c.is_ascii_digit() || ('a'..='f').contains(&c));
        }
    }
    assert_eq!(first.as_bytes()[14], b'4');
    assert!(b"89ab".contains(&first.as_bytes()[19]));
    assert_ne!(first, second);
    assert!(matches!(event, MonitorEvent::AddAddress(a) if a == FIRST));
}

#[test]
fn address_is_given_up_with_the_last_subscription() {
    let mut manager = manager();
    manager.insert_subscription("a".to_string(), FIRST.to_string(), 1);
    manager.insert_subscription("b".to_string(), FIRST.to_string(), 2);
    assert_eq!(manager.get_subscription_count(), 2);
    assert_eq!(manager.get_monitored_addresses_count(), 1);
    assert!(manager.remove_subscription("a").unwrap().is_none());
    assert_eq!(manager.get_monitored_addresses_count(), 1);
    match manager.remove_subscription("b").unwrap() {
        Some(MonitorEvent::RemoveAddress(address)) => assert_eq!(address, FIRST),
        other => panic!("{:?}", other),
    }
    assert_eq!(manager.get_subscription_count(), 0);
    assert_eq!(manager.get_monitored_addresses_count(), 0);
}

#[test]
fn dropping_what_is_no_subscription_changes_nothing() {
    let mut manager = manager();
    manager.insert_subscription("a".to_string(), FIRST.to_string(), 1);
    assert!(manager.remove_subscription("b").unwrap().is_none());
    assert_eq!(manager.get_subscription_count(), 1);
    assert_eq!(manager.get_monitored_addresses_count(), 1);
}

#[test]
fn several_are_dropped_in_turn() {
    let mut manager = manager();
    manager.insert_subscription("a".to_string(), FIRST.to_string(), 1);
    manager.insert_subscription("b".to_string(), FIRST.to_string(), 1);
    manager.insert_subscription("c".to_string(), SECOND.to_string(), 2);
    let dropped = vec!["a".to_string(), "x".to_string(), "b".to_string()];
    let events = manager.remove_subscriptions(&dropped);
    assert_eq!(events.len(), 1);
    assert!(matches!(&events[0], MonitorEvent::RemoveAddress(a) if a == FIRST));
    assert_eq!(manager.get_subscription_count(), 1);
    assert_eq!(manager.get_monitored_addresses_count(), 1);
}

#[test]
fn counts_by_address_add_up() {
    let mut manager = manager();
    manager.insert_subscription("a".to_string(), FIRST.to_string(), 1);
    manager.insert_subscription("b".to_string(), FIRST.to_string(), 2);
    manager.insert_subscription("c".to_string(), SECOND.to_string(), 2);
    let stats = manager.get_stats();
    assert_eq!(stats.total_subscriptions, 3);
    assert_eq!(stats.monitored_addresses, 2);
    let mut counts: Vec<(String, usize)> =
        stats.addresses.iter().map(|s| (s.address.clone(), s.subscription_count)).collect();
    counts.sort();
    assert_eq!(counts, vec![(FIRST.to_string(), 2), (SECOND.to_string(), 1)]);
}

#[test]
fn transaction_without_subscribers_is_ignored() {
    let mut manager = manager();
    manager.insert_subscription("a".to_string(), FIRST.to_string(), 1);
    let step = manager.handle_transaction_event(transaction(SECOND, "h1"));
    assert!(matches!(step, EventStep::Ignored));
}

#[test]
fn trace_goes_once_to_each_subscriber_of_the_address() {
    let mut manager = manager();
    manager.insert_subscription("a".to_string(), FIRST.to_string(), 11);
    manager.insert_subscription("b".to_string(), SECOND.to_string(), 12);
    manager.insert_subscription("c".to_string(), FIRST.to_string(), 13);
    let pending = match manager.handle_transaction_event(transaction(FIRST, "h1")) {
        EventStep::Fetch { request, pending } => {
            assert_eq!(request.url, "https://tonapi.io/v2/traces/h1");
            assert!(request.authorization.is_none());
            assert_eq!(pending.subscription_ids, vec!["a".to_string(), "c".to_string()]);
            pending
        }
        other => panic!("{:?}", other),
    };
    let deliveries = manager.receive_event_trace(pending, trace_answer("h1")).unwrap();
    let sent: Vec<(String, u64)> =
        deliveries.iter().map(|d| (d.subscription_id.clone(), d.sender)).collect();
    assert_eq!(sent, vec![("a".to_string(), 11), ("c".to_string(), 13)]);
    for delivery in &deliveries {
        match &delivery.message {
            ServerMessage::TransactionTrace { subscription_id, address, trace } => {
                assert_eq!(subscription_id, &delivery.subscription_id);
                assert_eq!(address, FIRST);
                assert_eq!(trace.hash, "h1");
                assert_eq!(trace.trace_id, "trace_h1");
            }
            other => panic!("{:?}", other),
        }
    }
    match manager.handle_transaction_event(transaction(FIRST, "h1")) {
        EventStep::Deliver(again) => assert_eq!(again.len(), 2),
        other => panic!("{:?}", other),
    }
}

#[test]
fn who_left_meanwhile_gets_no_trace() {
    let mut manager = manager();
    manager.insert_subscription("a".to_string(), FIRST.to_string(), 11);
    manager.insert_subscription("b".to_string(), FIRST.to_string(), 12);
    let pending = match manager.handle_transaction_event(transaction(FIRST, "h1")) {
        EventStep::Fetch { pending, .. } => pending,
        other => panic!("{:?}", other),
    };
    manager.remove_subscription("a").unwrap();
    let deliveries = manager.receive_event_trace(pending, trace_answer("h1")).unwrap();
    assert_eq!(deliveries.len(), 1);
    assert_eq!(deliveries[0].subscription_id, "b");
}

#[test]
fn failed_trace_reaches_nobody() {
    let mut manager = manager();
    manager.insert_subscription("a".to_string(), FIRST.to_string(), 11);
    let pending = match manager.handle_transaction_event(transaction(FIRST, "h1")) {
        EventStep::Fetch { pending, .. } => pending,
        other => panic!("{:?}", other),
    };
    let answer = Ok(TraceResponse {
        status: 404,
        status_text: "404 Not Found".to_string(),
        body: Vec::new(),
    });
    let error = manager.receive_event_trace(pending, answer).unwrap_err();
    assert_eq!(error, "API request failed with status: 404 Not Found");
    assert!(matches!(
        manager.handle_transaction_event(transaction(FIRST, "h1")),
        EventStep::Fetch { .. }
    ));
}

#[test]
fn message_for_one_subscription() {
    let mut manager = manager();
    manager.insert_subscription("a".to_string(), FIRST.to_string(), 11);
    let delivery = manager.send_to_subscription("a", ServerMessage::Pong).unwrap();
    assert_eq!(delivery.subscription_id, "a");
    assert_eq!(delivery.sender, 11);
    assert!(matches!(delivery.message, ServerMessage::Pong));
    let error = manager.send_to_subscription("b", ServerMessage::Pong).unwrap_err();
    assert_eq!(error, "Subscription not found: b");
}

#[test]
fn closed_connection_loses_its_subscription() {
    let mut manager = manager();
    manager.insert_subscription("a".to_string(), FIRST.to_string(), 11);
    let outcome = manager.finish_send("a", true);
    assert!(outcome.result.is_ok());
    assert!(outcome.event.is_none());
    assert_eq!(manager.get_subscription_count(), 1);
    let outcome = manager.finish_send("a", false);
    assert_eq!(outcome.result.unwrap_err(), "Subscription connection closed");
    assert!(matches!(outcome.event, Some(MonitorEvent::RemoveAddress(a)) if a == FIRST));
    assert_eq!(manager.get_subscription_count(), 0);
}

#[test]
fn shutdown_says_goodbye_to_everyone() {
    let mut manager = manager();
    manager.insert_subscription("a".to_string(), FIRST.to_string(), 11);
    manager.insert_subscription("b".to_string(), SECOND.to_string(), 12);
    let mut notices: Vec<(String, u64)> = manager
        .clear_all()
        .into_iter()
        .map(|d| match d.message {
            ServerMessage::Error { message, subscription_id } => {
                assert_eq!(message, "Service shutting down");
                assert_eq!(subscription_id, Some(d.subscription_id.clone()));
                (d.subscription_id, d.sender)
            }
            other => panic!("{:?}", other),
        })
        .collect();
    notices.sort();
    assert_eq!(notices, vec![("a".to_string(), 11), ("b".to_string(), 12)]);
    assert_eq!(manager.get_subscription_count(), 0);
    assert_eq!(manager.get_monitored_addresses_count(), 0);
}

#[test]
fn subscription_is_copied_whole() {
    let subscription =
        Subscription { id: "a".to_string(), address: FIRST.to_string(), sender: 3 };
    let copy = subscription.clone();
    assert_eq!(copy.id, "a");
    assert_eq!(copy.address, FIRST);
    assert_eq!(copy.sender, 3);
}

#[test]
fn watched_addresses_follow_a_lone_subscription() {
    let mut manager = manager();
    let mut monitor = TransactionMonitor::new();
    let latest: Result<Vec<RawTransaction>, String> = Ok(Vec::new());
    let added = manager.insert_subscription("a".to_string(), FIRST.to_string(), 1);
    assert!(follow(&mut monitor, added, &latest, 5).is_ok());
    assert_eq!(monitor.get_monitored_addresses(), vec![FIRST.to_string()]);
    let removed = manager.remove_subscription("a").unwrap().unwrap();
    assert!(follow(&mut monitor, removed, &latest, 6).is_ok());
    assert_eq!(monitor.get_monitor_count(), 0);
}

#[test]
fn address_stays_watched_while_somebody_is_subscribed_and_after_several_were() {
    let mut manager = manager();
    let mut monitor = TransactionMonitor::new();
    let latest: Result<Vec<RawTransaction>, String> = Ok(Vec::new());
    for id in ["a", "b"] {
        let added = manager.insert_subscription(id.to_string(), FIRST.to_string(), 1);
        assert!(follow(&mut monitor, added, &latest, 5).is_ok());
    }
    assert!(manager.remove_subscription("a").unwrap().is_none());
    assert_eq!(monitor.get_monitor_count(), 1);
    let removed = manager.remove_subscription("b").unwrap().unwrap();
    assert!(follow(&mut monitor, removed, &latest, 6).is_ok());
    assert_eq!(monitor.get_monitor_count(), 1);
}

#[test]
fn text_that_is_no_address_is_never_watched() {
    let mut manager = manager();
    let mut monitor = TransactionMonitor::new();
    let latest: Result<Vec<RawTransaction>, String> = Ok(Vec::new());
    let added = manager.insert_subscription("a".to_string(), "nowhere".to_string(), 1);
    let error = follow(&mut monitor, added, &latest, 5).unwrap_err();
    assert!(error.starts_with("Invalid TON address: "));
    assert_eq!(monitor.get_monitor_count(), 0);
    assert_eq!(manager.get_subscription_count(), 1);
}
