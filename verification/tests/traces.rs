//! How traces are asked for, read, cleaned and kept.
use tonmon::ton::trace::{is_success, TraceLookup, TraceResponse, TraceService};
use tonmon::utils::json::Json;
use tonmon::websocket::message::TransactionTrace;

fn answer(status: u16, status_text: &str, body: &str) -> Result<TraceResponse, String> {
    Ok(TraceResponse {
        status,
        status_text: status_text.to_string(),
        body: body.as_bytes().to_vec(),
    })
}

fn trace(account: &str, hash: &str, children: Vec<TransactionTrace>) -> TransactionTrace {
    TransactionTrace {
        trace_id: format!("trace_{}", hash),
        root_hash: hash.to_string(),
        account: account.to_string(),
        lt: "1".to_string(),
        hash: hash.to_string(),
        now: 2,
        in_msg: None,
        out_msgs: Vec::new(),
        children,
        total_fees: "3".to_string(),
        compute_phase: None,
        action_phase: None,
    }
}

fn shape(trace: &TransactionTrace) -> String {
    let children: Vec<String> = trace.children.iter().map(shape).collect();
    format!("{}{}({})", trace.account, trace.hash, children.join(","))
}

const FULL: &str = r#"{
    "transaction": {
        "hash": "abcd",
        "account": {"address": "0:aa"},
        "lt": "46000001",
        "now": 4294967301,
        "total_fees": "1500",
        "in_msg": {"hash": "m1", "source": "0:bb", "destination": "0:aa", "value": "10",
                   "body": "te6", "msg_type": "internal"},
        "out_msgs": [{"hash": "m2"}, 17, {"hash": "m3", "msg_type": "external-out"}],
        "compute": {"success": true, "gas_used": "7", "gas_limit": "9", "exit_code": -14},
        "action": {"success": true, "total_actions": 4294967298, "valid_actions": 1,
                   "no_funds": true}
    },
    "children": [{"transaction": {"hash": "x"}}]
}"#;

#[test]
fn full_answer_is_read() {
    let trace = TraceService::fetch_trace_from_api(answer(200, "200 OK", FULL)).unwrap();
    assert_eq!(trace.trace_id, "trace_abcd");
    assert_eq!(trace.root_hash, "abcd");
    assert_eq!(trace.hash, "abcd");
    assert_eq!(trace.account, "0:aa");
    assert_eq!(trace.lt, "46000001");
    assert_eq!(trace.now, 5);
    assert_eq!(trace.total_fees, "1500");
    let in_msg = trace.in_msg.unwrap();
    assert_eq!(in_msg.hash, "m1");
    assert_eq!(in_msg.source, Some("0:bb".to_string()));
    assert_eq!(in_msg.destination, Some("0:aa".to_string()));
    assert_eq!(in_msg.value, "10");
    assert_eq!(in_msg.body, Some("te6".to_string()));
    assert_eq!(in_msg.message_type, "internal");
    assert_eq!(trace.out_msgs.len(), 2);
    assert_eq!(trace.out_msgs[0].hash, "m2");
    assert_eq!(trace.out_msgs[0].source, None);
    assert_eq!(trace.out_msgs[0].value, "0");
    assert_eq!(trace.out_msgs[0].message_type, "unknown");
    assert_eq!(trace.out_msgs[1].message_type, "external-out");
    let compute = trace.compute_phase.unwrap();
    assert!(compute.success);
    assert_eq!(compute.gas_used, "7");
    assert_eq!(compute.gas_limit, "9");
    assert_eq!(compute.exit_code, Some(-14));
    let action = trace.action_phase.unwrap();
    assert!(action.success);
    assert_eq!(action.total_actions, 2);
    assert_eq!(action.valid_actions, 1);
    assert!(action.no_funds);
    assert_eq!(trace.children.len(), 1);
    assert_eq!(trace.children[0].hash, "x");
    assert_eq!(trace.children[0].trace_id, "trace_x");
    assert_eq!(trace.children[0].lt, "0");
}

#[test]
fn empty_answer_is_read_with_defaults() {
    let trace = TraceService::fetch_trace_from_api(answer(200, "200 OK", "{}")).unwrap();
    assert_eq!(trace.trace_id, "trace_");
    assert_eq!(trace.hash, "");
    assert_eq!(trace.account, "");
    assert_eq!(trace.lt, "0");
    assert_eq!(trace.now, 0);
    assert_eq!(trace.total_fees, "0");
    assert!(trace.in_msg.is_none());
    assert!(trace.out_msgs.is_empty());
    assert!(trace.compute_phase.is_none());
    assert!(trace.action_phase.is_none());
}

#[test]
fn phase_that_is_no_object_still_counts_as_a_phase() {
    let body = r#"{"transaction": {"compute": 3, "action": "x"}}"#;
    let trace = TraceService::fetch_trace_from_api(answer(200, "200 OK", body)).unwrap();
    let compute = trace.compute_phase.unwrap();
    assert!(!compute.success);
    assert_eq!(compute.gas_used, "0");
    assert_eq!(compute.gas_limit, "0");
    assert_eq!(compute.exit_code, None);
    let action = trace.action_phase.unwrap();
    assert_eq!(action.total_actions, 0);
}

#[test]
fn exit_code_keeps_its_low_bits() {
    let json = Json::parse(r#"{"exit_code": 4294967295}"#).unwrap();
    assert_eq!(TraceService::parse_compute_phase(&json).unwrap().exit_code, Some(-1));
    let json = Json::parse(r#"{"exit_code": 9223372036854775808}"#).unwrap();
    assert_eq!(TraceService::parse_compute_phase(&json).unwrap().exit_code, None);
    assert!(TraceService::parse_compute_phase(&Json::Null).is_none());
    assert!(TraceService::parse_action_phase(&Json::Null).is_none());
}

#[test]
fn message_fields_of_other_kinds_do_not_count() {
    let json = Json::parse(r#"{"hash": 1, "source": null, "value": false}"#).unwrap();
    let message = TraceService::parse_message_info(&json);
    assert_eq!(message.hash, "");
    assert_eq!(message.source, None);
    assert_eq!(message.value, "0");
}

#[test]
fn refused_answer_is_an_error() {
    let error =
        TraceService::fetch_trace_from_api(answer(500, "500 Internal Server Error", "{}"))
            .unwrap_err();
    assert_eq!(error, "API request failed with status: 500 Internal Server Error");
    let error = TraceService::fetch_trace_from_api(Err("no route".to_string())).unwrap_err();
    assert_eq!(error, "no route");
    let error = TraceService::fetch_trace_from_api(answer(200, "200 OK", "")).unwrap_err();
    assert_eq!(error, "error decoding response body");
}

#[test]
fn success_is_the_two_hundreds() {
    assert!(!is_success(199));
    assert!(is_success(200));
    assert!(is_success(299));
    assert!(!is_success(300));
}

#[test]
fn repeats_are_dropped_in_the_whole_trace() {
    let tree = trace(
        "A",
        "0",
        vec![
            trace("B", "1", vec![trace("C", "2", vec![]), trace("C", "3", vec![])]),
            trace("A", "4", vec![trace("E", "9", vec![])]),
            trace("B", "5", vec![]),
            trace("C", "6", vec![trace("D", "7", vec![])]),
            trace("D", "8", vec![trace("A", "10", vec![]), trace("F", "11", vec![])]),
        ],
    );
    let clean = TraceService::deduplicate_trace_by_address(&tree);
    assert_eq!(shape(&clean), "A0(B1(),C6(),D8(F11()))");
    let again = TraceService::deduplicate_trace_by_address(&clean);
    assert_eq!(shape(&again), shape(&clean));
    assert_eq!(clean.trace_id, "trace_0");
    assert_eq!(clean.total_fees, "3");
}

#[test]
fn account_does_not_come_back_deeper_down() {
    let tree = trace("A", "0", vec![trace("B", "1", vec![trace("A", "2", vec![])])]);
    let clean = TraceService::deduplicate_trace_by_address(&tree);
    assert_eq!(shape(&clean), "A0(B1())");
}

#[test]
fn account_does_not_come_back_in_another_branch() {
    let tree = trace(
        "A",
        "0",
        vec![
            trace("B", "1", vec![trace("D", "2", vec![trace("C", "3", vec![])])]),
            trace("C", "4", vec![trace("D", "5", vec![]), trace("E", "6", vec![])]),
        ],
    );
    let clean = TraceService::deduplicate_trace_by_address(&tree);
    assert_eq!(shape(&clean), "A0(B1(D2()),C4(E6()))");
}

#[test]
fn trace_without_repeats_stays_as_it_is() {
    let tree = trace(
        "A",
        "0",
        vec![trace("B", "1", vec![trace("C", "2", vec![])]), trace("D", "3", vec![])],
    );
    let clean = TraceService::deduplicate_trace_by_address(&tree);
    assert_eq!(shape(&clean), "A0(B1(C2()),D3())");
}

#[test]
fn flat_trace_keeps_each_account_once() {
    let children = vec![
        trace("B", "1", vec![]),
        trace("C", "2", vec![]),
        trace("B", "3", vec![]),
        trace("A", "4", vec![]),
    ];
    let clean = TraceService::deduplicate_trace_by_address(&trace("A", "0", children));
    assert_eq!(shape(&clean), "A0(B1(),C2())");
}

#[test]
fn trace_is_asked_for_once() {
    let mut service =
        TraceService::new("https://example.org".to_string(), Some("key".to_string()));
    match service.get_transaction_trace("abcd") {
        TraceLookup::Fetch(request) => {
            assert_eq!(request.url, "https://example.org/v2/traces/abcd");
            assert_eq!(request.authorization, Some("Bearer key".to_string()));
        }
        other => panic!("{:?}", other),
    }
    assert_eq!(service.get_cache_size(), 0);
    let received = service.receive_trace("abcd", answer(200, "200 OK", FULL)).unwrap();
    assert_eq!(received.hash, "abcd");
    assert_eq!(service.get_cache_size(), 1);
    match service.get_transaction_trace("abcd") {
        TraceLookup::Cached(trace) => assert_eq!(trace.account, "0:aa"),
        other => panic!("{:?}", other),
    }
    assert!(matches!(service.get_transaction_trace("other"), TraceLookup::Fetch(_)));
    service.clear_cache();
    assert_eq!(service.get_cache_size(), 0);
    assert!(matches!(service.get_transaction_trace("abcd"), TraceLookup::Fetch(_)));
}

#[test]
fn failure_is_not_kept() {
    let mut service = TraceService::default();
    assert!(service.receive_trace("abcd", Err("down".to_string())).is_err());
    assert_eq!(service.get_cache_size(), 0);
}

const NESTED: &str = r#"{
    "transaction": {"hash": "0", "account": {"address": "A"}},
    "children": [
        {"transaction": {"hash": "1", "account": {"address": "B"}},
         "children": [{"transaction": {"hash": "2", "account": {"address": "A"}}},
                      {"transaction": {"hash": "3", "account": {"address": "C"}}}]},
        17,
        {"transaction": {"hash": "4", "account": {"address": "C"}}, "children": null},
        {"transaction": {"hash": "5", "account": {"address": "D"}}, "children": {}}
    ]
}"#;

#[test]
fn children_are_read_at_every_depth() {
    let json = Json::parse(NESTED).unwrap();
    let trace = TraceService::parse_trace_from_api_response(&json);
    assert_eq!(shape(&trace), "A0(B1(A2(),C3()),C4(),D5())");
    let children = TraceService::get_children_transactions(&json);
    let hashes: Vec<&str> = children.iter().map(|t| t.hash.as_str()).collect();
    assert_eq!(hashes, vec!["1", "4", "5"]);
    assert!(TraceService::get_children_transactions(&Json::Null).is_empty());
    let no_list = Json::parse(r#"{"children": "x"}"#).unwrap();
    assert!(TraceService::get_children_transactions(&no_list).is_empty());
}

#[test]
fn received_trace_holds_its_children_without_repeats() {
    let mut service = TraceService::default();
    let received = service.receive_trace("0", answer(200, "200 OK", NESTED)).unwrap();
    assert_eq!(shape(&received), "A0(B1(),C4(),D5())");
    match service.get_transaction_trace("0") {
        TraceLookup::Cached(kept) => assert_eq!(shape(&kept), shape(&received)),
        other => panic!("{:?}", other),
    }
}
