//! What is answered over plain HTTP, and how the service is set up.
use tonmon::reports::{
    finish_validation, get_stats, health_check, validate_address, ValidationStep,
};
use tonmon::settings::{client_config, server_port, tonapi_endpoint, use_testnet};
use tonmon::subscription::manager::SubscriptionManager;
use tonmon::ton::trace::TraceService;
use tonmon::utils::json::Json;

const FIRST: &str = "EQCD39VS5jcptHL8vMjEXrzGaRcCVYto7HUn4bpAOg8xqB2N";

fn manager() -> SubscriptionManager {
    let mut manager = SubscriptionManager::new(TraceService::default());
    manager.insert_subscription("a".to_string(), FIRST.to_string(), 1);
    manager.insert_subscription("b".to_string(), FIRST.to_string(), 2);
    manager
}

fn some(text: &str) -> Option<String> {
    Some(text.to_string())
}

#[test]
fn healthy_while_the_network_answers() {
    let report = health_check(Ok(77), &manager(), 1700000000);
    assert_eq!(
        report.to_text(),
        Ok("{\"error\":null,\"last_block_seqno\":77,\"monitored_addresses\":1,\"status\":\"healthy\",\"subscriptions\":2,\"timestamp\":1700000000,\"ton_connected\":true}".to_string())
    );
}

#[test]
fn degraded_while_it_does_not() {
    let report = health_check(Err("down".to_string()), &manager(), -1);
    assert_eq!(
        report.to_text(),
        Ok("{\"error\":\"down\",\"last_block_seqno\":null,\"monitored_addresses\":1,\"status\":\"degraded\",\"subscriptions\":2,\"timestamp\":-1,\"ton_connected\":false}".to_string())
    );
}

#[test]
fn statistics_count_by_address() {
    let report = get_stats(&manager(), 5);
    assert_eq!(
        report.to_text(),
        Ok(format!(
            "{{\"service_status\":\"running\",\"subscriptions\":{{\"addresses\":[{{\"address\":\"{}\",\"subscription_count\":2}}],\"monitored_addresses\":1,\"total\":2}},\"timestamp\":5}}",
            FIRST
        ))
    );
}

#[test]
fn request_without_address_is_invalid() {
    for text in ["{}", "[]", "{\"address\": 5}", "null"] {
        match validate_address(&Json::parse(text).unwrap()) {
            ValidationStep::Done(report) => assert_eq!(
                report.to_text(),
                Ok("{\"error\":\"Missing address field\",\"valid\":false}".to_string())
            ),
            other => panic!("{:?}", other),
        }
    }
}

#[test]
fn text_that_is_no_address_is_invalid() {
    match validate_address(&Json::parse("{\"address\": \"x\"}").unwrap()) {
        ValidationStep::Done(report) => {
            assert_eq!(report.flag_at("valid"), Some(false));
            assert_eq!(
                report.text_at("error"),
                some("Invalid TON address: Invalid address (Address: x, message: Invalid base64url address: Wrong length)")
            );
        }
        other => panic!("{:?}", other),
    }
}

#[test]
fn address_is_valid_whether_active_or_not() {
    let payload = Json::from_fields(vec![("address".to_string(), Json::Text(FIRST.to_string()))]);
    let address = match validate_address(&payload) {
        ValidationStep::CheckActive(address) => address,
        other => panic!("{:?}", other),
    };
    assert_eq!(address, FIRST);
    let report = finish_validation(address.clone(), Ok(true));
    assert_eq!(
        report.to_text(),
        Ok(format!("{{\"active\":true,\"address\":\"{}\",\"note\":null,\"valid\":true}}", FIRST))
    );
    let report = finish_validation(address.clone(), Ok(false));
    assert_eq!(report.flag_at("valid"), Some(true));
    assert_eq!(report.flag_at("active"), Some(false));
    assert_eq!(
        report.text_at("note"),
        some("Address format is valid but account may not exist or have unknown contract type")
    );
    assert!(report.get("error").is_none());
    let report = finish_validation(address, Err("down".to_string()));
    assert_eq!(report.flag_at("valid"), Some(true));
    assert_eq!(report.flag_at("active"), Some(false));
    assert_eq!(report.text_at("error"), some("Could not check account status: down"));
    assert!(report.get("note").is_none());
}

#[test]
fn port_is_a_number_of_sixteen_bits() {
    assert_eq!(server_port(None), 3000);
    assert_eq!(server_port(some("8080")), 8080);
    assert_eq!(server_port(some("+80")), 80);
    assert_eq!(server_port(some("0065535")), 65535);
    assert_eq!(server_port(some("0")), 0);
    for text in ["", "+", "-1", "65536", " 80", "80 ", "8_0", "++1", "x"] {
        assert_eq!(server_port(some(text)), 3000);
    }
}

#[test]
fn network_is_chosen_by_the_word_true() {
    assert!(use_testnet(some("true")));
    assert!(!use_testnet(some("false")));
    assert!(!use_testnet(some("True")));
    assert!(!use_testnet(some("1")));
    assert!(!use_testnet(None));
}

#[test]
fn traces_are_asked_for_where_chosen() {
    assert_eq!(tonapi_endpoint(some("https://example.org"), true), "https://example.org");
    assert_eq!(tonapi_endpoint(None, true), "https://testnet.tonapi.io");
    assert_eq!(tonapi_endpoint(None, false), "https://tonapi.io");
}

#[test]
fn service_starts_without_fallbacks() {
    let config = client_config(true, some("k"), None);
    assert!(config.testnet);
    assert_eq!(config.api_key, some("k"));
    assert_eq!(config.config_url, None);
    assert!(config.fallback_configs.is_empty());
    assert_eq!(config.connection_timeout, None);
}
