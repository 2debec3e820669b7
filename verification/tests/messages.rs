//! The messages between clients and the service.
use tonmon::websocket::message::{
    ActionPhaseInfo, ClientMessage, ComputePhaseInfo, MessageInfo, ServerMessage,
    TransactionTrace,
};

#[test]
fn error_message_keeps_its_parts() {
    match ServerMessage::error("boom".to_string(), Some("a".to_string())) {
        ServerMessage::Error { message, subscription_id } => {
            assert_eq!(message, "boom");
            assert_eq!(subscription_id, Some("a".to_string()));
        }
        other => panic!("{:?}", other),
    }
}

#[test]
fn confirmation_gets_an_identifier_of_its_own() {
    match ServerMessage::subscription_confirm("0:aa".to_string()) {
        ServerMessage::SubscriptionConfirm { subscription_id, address } => {
            assert_eq!(address, "0:aa");
            assert_eq!(subscription_id.len(), 36);
            assert_eq!(subscription_id.as_bytes()[14], b'4');
        }
        other => panic!("{:?}", other),
    }
}

#[test]
fn copies_are_whole() {
    let message = MessageInfo {
        hash: "m".to_string(),
        source: Some("s".to_string()),
        destination: None,
        value: "1".to_string(),
        body: None,
        message_type: "internal".to_string(),
    };
    let leaf = TransactionTrace {
        trace_id: "trace_l".to_string(),
        root_hash: "l".to_string(),
        account: "L".to_string(),
        lt: "1".to_string(),
        hash: "l".to_string(),
        now: 1,
        in_msg: None,
        out_msgs: Vec::new(),
        children: Vec::new(),
        total_fees: "0".to_string(),
        compute_phase: None,
        action_phase: None,
    };
    let trace = TransactionTrace {
        trace_id: "trace_h".to_string(),
        root_hash: "h".to_string(),
        account: "A".to_string(),
        lt: "9".to_string(),
        hash: "h".to_string(),
        now: 3,
        in_msg: Some(message.clone()),
        out_msgs: vec![message],
        children: vec![leaf],
        total_fees: "5".to_string(),
        compute_phase: Some(ComputePhaseInfo {
            success: true,
            gas_used: "1".to_string(),
            gas_limit: "2".to_string(),
            exit_code: Some(-1),
        }),
        action_phase: Some(ActionPhaseInfo {
            success: true,
            total_actions: 1,
            valid_actions: 1,
            no_funds: false,
        }),
    };
    assert_eq!(format!("{:?}", trace.clone()), format!("{:?}", trace));
    let ping = ClientMessage::Ping;
    assert_eq!(format!("{:?}", ping.clone()), format!("{:?}", ping));
}
