//! Which addresses are watched, and which transactions are announced.
use tonmon::ton::monitor::{RawTransaction, TransactionMonitor};

const FIRST: &str = "EQCD39VS5jcptHL8vMjEXrzGaRcCVYto7HUn4bpAOg8xqB2N";
const SECOND: &str = "Ef8zMzMzMzMzMzMzMzMzMzMzMzMzMzMzMzMzMzMzMzMzM0vF";

fn transaction(lt: i64, hash: &[u8], utime: i64) -> RawTransaction {
    RawTransaction { lt, hash: hash.to_vec(), utime }
}

fn latest(lt: i64) -> Result<Vec<RawTransaction>, String> {
    Ok(vec![transaction(lt, &[1], 1), transaction(lt - 1, &[2], 1)])
}

#[test]
fn new_monitor_watches_nothing_every_five_seconds() {
    let monitor = TransactionMonitor::new();
    assert_eq!(monitor.polling_interval(), 5);
    assert_eq!(monitor.get_monitor_count(), 0);
    assert!(monitor.get_monitored_addresses().is_empty());
    assert!(monitor.check_transactions().is_empty());
}

#[test]
fn address_is_watched_until_given_up_as_often() {
    let mut monitor = TransactionMonitor::new();
    assert_eq!(monitor.needs_latest(FIRST), Ok(true));
    assert!(monitor.add_address(FIRST.to_string(), &latest(9), 1).is_ok());
    assert_eq!(monitor.needs_latest(FIRST), Ok(false));
    assert!(monitor.can_add(FIRST));
    assert!(monitor.can_add(SECOND));
    assert!(monitor.add_address(FIRST.to_string(), &latest(20), 2).is_ok());
    assert_eq!(monitor.get_monitor_count(), 1);
    assert!(!monitor.remove_address(FIRST));
    assert_eq!(monitor.get_monitor_count(), 1);
    assert!(monitor.remove_address(FIRST));
    assert_eq!(monitor.get_monitor_count(), 0);
    assert!(!monitor.remove_address(FIRST));
}

#[test]
fn all_watched_addresses_are_listed() {
    let mut monitor = TransactionMonitor::new();
    assert!(monitor.add_address(FIRST.to_string(), &latest(9), 1).is_ok());
    assert!(monitor.add_address(SECOND.to_string(), &latest(9), 1).is_ok());
    let mut addresses = monitor.get_monitored_addresses();
    addresses.sort();
    assert_eq!(addresses, vec![FIRST.to_string(), SECOND.to_string()]);
}

#[test]
fn text_that_is_no_address_is_refused() {
    let mut monitor = TransactionMonitor::new();
    let error = monitor.add_address("nowhere".to_string(), &latest(9), 1).unwrap_err();
    assert_eq!(
        error,
        "Invalid TON address: Invalid address (Address: nowhere, message: Invalid base64url address: Wrong length)"
    );
    assert_eq!(monitor.needs_latest("nowhere"), Err(error));
    assert_eq!(monitor.get_monitor_count(), 0);
}

#[test]
fn new_address_starts_from_its_latest_transaction() {
    let query = TransactionMonitor::latest_query(FIRST);
    assert_eq!(query.address, FIRST);
    assert_eq!(query.from_lt, None);
    assert_eq!(query.limit, 1);
    assert_eq!(TransactionMonitor::get_last_lt_for_address(&latest(9)), 9);
    assert_eq!(TransactionMonitor::get_last_lt_for_address(&Ok(Vec::new())), 0);
    assert_eq!(TransactionMonitor::get_last_lt_for_address(&Err("down".to_string())), 0);
    let mut monitor = TransactionMonitor::new();
    assert!(monitor.add_address(FIRST.to_string(), &latest(9), 1).is_ok());
    let queries = monitor.check_transactions();
    assert_eq!(queries.len(), 1);
    assert_eq!(queries[0].address, FIRST);
    assert_eq!(queries[0].last_lt, 9);
    assert_eq!(queries[0].from_lt, Some(9));
    assert_eq!(queries[0].limit, 15);
}

#[test]
fn address_without_transactions_is_asked_from_anywhere() {
    let mut monitor = TransactionMonitor::new();
    assert!(monitor.add_address(FIRST.to_string(), &Err("down".to_string()), 1).is_ok());
    let queries = monitor.check_transactions();
    assert_eq!(queries[0].last_lt, 0);
    assert_eq!(queries[0].from_lt, None);
}

#[test]
fn exactly_the_newer_transactions_are_announced() {
    let mut monitor = TransactionMonitor::new();
    assert!(monitor.add_address(FIRST.to_string(), &latest(9), 1).is_ok());
    let found = vec![
        transaction(12, &[0xab, 0x01], 1700000000),
        transaction(9, &[0xff], 1),
        transaction(11, &[], 4294967297),
        transaction(3, &[0xff], 1),
    ];
    let events = monitor.check_address_transactions(FIRST, 9, &found, 2);
    assert_eq!(events.len(), 2);
    assert_eq!(events[0].address, FIRST);
    assert_eq!(events[0].transaction_hash, "ab01");
    assert_eq!(events[0].logical_time, 12);
    assert_eq!(events[0].timestamp, 1700000000);
    assert_eq!(events[1].transaction_hash, "");
    assert_eq!(events[1].logical_time, 11);
    assert_eq!(events[1].timestamp, 1);
    assert_eq!(monitor.check_transactions()[0].last_lt, 12);
    assert!(monitor.check_address_transactions(FIRST, 12, &found, 3).is_empty());
    assert_eq!(monitor.check_transactions()[0].last_lt, 12);
}

#[test]
fn address_given_up_meanwhile_is_announced_but_not_watched_again() {
    let mut monitor = TransactionMonitor::new();
    let found = vec![transaction(5, &[0xcd], 1)];
    let events = monitor.check_address_transactions(FIRST, 0, &found, 3);
    assert_eq!(events.len(), 1);
    assert_eq!(events[0].transaction_hash, "cd");
    assert_eq!(monitor.get_monitor_count(), 0);
}

#[test]
fn negative_logical_times_are_read_as_bits() {
    let mut monitor = TransactionMonitor::new();
    let found = vec![transaction(-1, &[0x0f, 0xf0], -1)];
    let events = monitor.check_address_transactions(FIRST, -2, &found, 3);
    assert_eq!(events[0].logical_time, u64::MAX);
    assert_eq!(events[0].timestamp, u32::MAX);
    assert_eq!(events[0].transaction_hash, "0ff0");
}

#[test]
fn address_is_watched_while_wanted_in_any_order() {
    let mut monitor = TransactionMonitor::new();
    assert!(!monitor.remove_address(FIRST));
    assert!(monitor.add_address(FIRST.to_string(), &latest(9), 1).is_ok());
    assert!(monitor.remove_address(FIRST));
    assert_eq!(monitor.get_monitor_count(), 0);
    assert!(monitor.add_address(FIRST.to_string(), &latest(9), 2).is_ok());
    assert!(monitor.add_address(SECOND.to_string(), &latest(9), 2).is_ok());
    assert!(monitor.add_address(FIRST.to_string(), &latest(9), 2).is_ok());
    assert!(!monitor.remove_address(FIRST));
    assert!(monitor.add_address(FIRST.to_string(), &latest(9), 3).is_ok());
    assert!(!monitor.remove_address(FIRST));
    assert!(monitor.remove_address(SECOND));
    assert_eq!(monitor.get_monitored_addresses(), vec![FIRST.to_string()]);
    assert!(monitor.remove_address(FIRST));
    assert_eq!(monitor.get_monitor_count(), 0);
}

#[test]
fn no_time_is_announced_twice_over_many_checks() {
    let mut monitor = TransactionMonitor::new();
    assert!(monitor.add_address(FIRST.to_string(), &latest(9), 1).is_ok());
    assert!(monitor.add_address(SECOND.to_string(), &latest(20), 1).is_ok());
    let mut announced: Vec<(String, u64)> = Vec::new();
    for now in 0..4 {
        let top = 10 + 4 * now;
        let found: Vec<RawTransaction> =
            (5..=top).rev().map(|lt| transaction(lt, &[1], 1)).collect();
        for query in monitor.check_transactions() {
            let events = monitor.check_address_transactions(
                &query.address,
                query.last_lt,
                &found,
                now as u64,
            );
            announced.extend(events.into_iter().map(|e| (e.address, e.logical_time)));
        }
    }
    announced.sort();
    let mut expected: Vec<(String, u64)> = (10..=22).map(|lt| (FIRST.to_string(), lt)).collect();
    expected.extend((21..=22).map(|lt| (SECOND.to_string(), lt)));
    assert_eq!(announced, expected);
}

#[test]
fn address_that_stays_watched_is_announced_once_while_others_come_and_go() {
    let mut monitor = TransactionMonitor::new();
    assert!(monitor.add_address(FIRST.to_string(), &latest(9), 1).is_ok());
    let found = vec![transaction(11, &[1], 1), transaction(10, &[2], 1)];
    let last_lt = monitor.check_transactions()[0].last_lt;
    let mut times: Vec<u64> = Vec::new();
    let events = monitor.check_address_transactions(FIRST, last_lt, &found, 2);
    times.extend(events.into_iter().map(|e| e.logical_time));
    assert!(monitor.add_address(SECOND.to_string(), &latest(3), 3).is_ok());
    assert!(monitor.add_address(FIRST.to_string(), &latest(5), 3).is_ok());
    assert!(monitor.remove_address(SECOND));
    assert!(!monitor.remove_address(FIRST));
    let again = vec![transaction(12, &[3], 1), transaction(11, &[1], 1)];
    let last_lt = monitor.check_transactions()[0].last_lt;
    assert_eq!(last_lt, 11);
    let events = monitor.check_address_transactions(FIRST, last_lt, &again, 4);
    times.extend(events.into_iter().map(|e| e.logical_time));
    assert_eq!(times, vec![11, 10, 12]);
}
