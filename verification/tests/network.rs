//! How the network is reached.
use tonmon::ton::client::{
    ConfigFetch, ConnectionRetry, ConnectionTest, RetryStep, TonClientConfig, TonService,
};
use tonmon::utils::json::{Json, JsonNumber};

const FIRST: &str = "EQCD39VS5jcptHL8vMjEXrzGaRcCVYto7HUn4bpAOg8xqB2N";

fn wait(step: RetryStep) -> u64 {
    match step {
        RetryStep::RetryAfter(seconds) => seconds,
        other => panic!("{:?}", other),
    }
}

fn fail(step: RetryStep) -> String {
    match step {
        RetryStep::Fail(error) => error,
        other => panic!("{:?}", other),
    }
}

#[test]
fn default_config_has_fallbacks() {
    let config = TonClientConfig::default();
    assert!(!config.testnet);
    assert_eq!(config.api_key, None);
    assert_eq!(config.config_url, None);
    assert_eq!(
        config.fallback_configs,
        vec![
            "https://ton-blockchain.github.io/global.config.json".to_string(),
            "https://ton.org/global.config.json".to_string(),
        ]
    );
    assert_eq!(config.connection_timeout, Some(30));
}

#[test]
fn each_config_has_its_turn() {
    let config = TonClientConfig::default();
    let mut plan = TonService::try_connect_with_fallback(&config);
    assert_eq!(plan.current(), "https://ton.org/global.config.json");
    assert_eq!(wait(plan.failed("one".to_string())), 3);
    assert_eq!(plan.current(), "https://ton-blockchain.github.io/global.config.json");
    assert_eq!(wait(plan.failed("two".to_string())), 3);
    assert_eq!(plan.current(), "https://ton.org/global.config.json");
    assert_eq!(fail(plan.failed("three".to_string())), "three");
}

#[test]
fn first_config_depends_on_choice_and_network() {
    let mut config = TonClientConfig::default();
    config.testnet = true;
    let plan = TonService::try_connect_with_fallback(&config);
    assert_eq!(plan.current(), "https://ton.org/testnet-global.config.json");
    config.config_url = Some("https://example.org/c.json".to_string());
    let plan = TonService::try_connect_with_fallback(&config);
    assert_eq!(plan.current(), "https://example.org/c.json");
}

#[test]
fn connection_is_tested_five_times() {
    let mut test = ConnectionTest::start();
    for seconds in [1, 2, 4, 8] {
        assert_eq!(wait(test.failed("Connection refused".to_string())), seconds);
    }
    assert_eq!(
        fail(test.failed("down".to_string())),
        "Connection test failed after 5 attempts: down"
    );
}

#[test]
fn operation_is_tried_three_times() {
    let mut retry = ConnectionRetry::start();
    assert_eq!(wait(retry.failed("os error: Connection refused (111)".to_string())), 2);
    assert_eq!(wait(retry.failed("timeout".to_string())), 1);
    assert_eq!(fail(retry.failed("gone".to_string())), "gone");
}

#[test]
fn download_comes_to_a_text_or_an_error() {
    let read = |status: u16, text: &str| ConfigFetch::Read {
        status,
        status_text: "404 Not Found".to_string(),
        text: text.to_string(),
    };
    assert_eq!(TonService::load_network_config(read(200, "x")), Ok("x".to_string()));
    assert_eq!(
        TonService::load_network_config(read(404, "x")),
        Err("Failed to load config, HTTP status: 404 Not Found".to_string())
    );
    assert_eq!(
        TonService::load_network_config(ConfigFetch::NotBuilt("bad url".to_string())),
        Err("Failed to build request: bad url".to_string())
    );
    assert_eq!(
        TonService::load_network_config(ConfigFetch::NotAnswered("timeout".to_string())),
        Err("Failed to execute request: timeout".to_string())
    );
    let not_read = |status: u16| ConfigFetch::NotRead {
        status,
        status_text: "500 Internal Server Error".to_string(),
        error: "cut off".to_string(),
    };
    assert_eq!(
        TonService::load_network_config(not_read(200)),
        Err("Failed to read response text: cut off".to_string())
    );
    assert_eq!(
        TonService::load_network_config(not_read(500)),
        Err("Failed to load config, HTTP status: 500 Internal Server Error".to_string())
    );
    assert_eq!(TonService::config_timeout(None), 30);
    assert_eq!(TonService::config_timeout(Some(5)), 5);
}

#[test]
fn liteservers_are_cut_down_to_ten() {
    let many: Vec<String> = (0..12).map(|i| format!("{{\"port\":{}}}", i)).collect();
    let text = format!("{{\"liteservers\":[{}],\"version\":1}}", many.join(","));
    let optimized = TonService::optimize_config_for_connection(text).unwrap();
    let json = Json::parse(&optimized).unwrap();
    match json.get("liteservers") {
        Some(Json::Array(servers)) => {
            assert_eq!(servers.len(), 10);
            assert_eq!(servers[9].unsigned_at("port"), Some(9));
        }
        other => panic!("{:?}", other),
    }
    assert_eq!(json.unsigned_at("version"), Some(1));
}

#[test]
fn other_configs_are_written_as_they_are() {
    let same = |text: &str| {
        assert_eq!(
            TonService::optimize_config_for_connection(text.to_string()),
            Ok(text.to_string())
        )
    };
    same("{\"liteservers\":[1,2,3]}");
    same("{\"liteservers\":\"none\"}");
    same("{\"a\":{\"b\":[-1,1.5,true,null]}}");
    same("[]");
}

#[test]
fn config_that_is_no_json_is_refused() {
    assert_eq!(
        TonService::optimize_config_for_connection("nope".to_string()),
        Err("Failed to parse config JSON: expected ident at line 1 column 2".to_string())
    );
    let fetch = ConfigFetch::Read {
        status: 200,
        status_text: "200 OK".to_string(),
        text: "{\"liteservers\": []}".to_string(),
    };
    assert_eq!(TonService::prepare_config(fetch), Ok("{\"liteservers\":[]}".to_string()));
    assert_eq!(
        TonService::prepare_config(ConfigFetch::NotAnswered("x".to_string())),
        Err("Failed to execute request: x".to_string())
    );
}

#[test]
fn failures_read_as_they_should() {
    assert_eq!(TonService::build_failure("x"), "Failed to build TON client: x");
    assert_eq!(TonService::last_block_failure("x"), "Failed to get masterchain info: x");
    assert_eq!(TonService::transactions_failure("... Unknown code hash ..."), Ok(()));
    assert_eq!(
        TonService::transactions_failure("Connection refused"),
        Err("ADNL connection lost: Connection refused".to_string())
    );
    assert_eq!(
        TonService::transactions_failure("x"),
        Err("Failed to get account state: x".to_string())
    );
    assert_eq!(TonService::account_state_failure("Unknown code hash"), Ok(()));
    assert_eq!(
        TonService::account_state_failure("Connection refused"),
        Err("Failed to get account state: Connection refused".to_string())
    );
}

#[test]
fn refused_connection_stays_recognizable() {
    let error = TonService::transactions_failure("os: Connection refused").unwrap_err();
    let mut retry = ConnectionRetry::start();
    assert_eq!(wait(retry.failed(error)), 2);
}

#[test]
fn service_tells_of_its_connection() {
    let mut config = TonClientConfig::default();
    config.fallback_configs = vec!["f".to_string()];
    let service = TonService::new(config, "u".to_string());
    let info = service.get_connection_info();
    assert_eq!(
        info.to_text(),
        Ok("{\"connection_timeout\":30,\"fallback_configs\":[\"f\"],\"successful_config\":\"u\",\"testnet\":false}".to_string())
    );
    match info.get("connection_timeout") {
        Some(Json::Number(JsonNumber::Unsigned(30))) => {}
        other => panic!("{:?}", other),
    }
}

#[test]
fn address_is_read() {
    let service = TonService::new(TonClientConfig::default(), "u".to_string());
    let address = service.validate_address(FIRST).unwrap();
    assert_eq!(address.workchain, 0);
    assert_eq!(address.hash_part.len(), 32);
    assert_eq!(address.hash_part[0], 0x83);
    assert_eq!(address.hash_part[31], 0xa8);
    let masterchain = "Ef8zMzMzMzMzMzMzMzMzMzMzMzMzMzMzMzMzMzMzMzMzM0vF";
    assert_eq!(service.validate_address(masterchain).unwrap().workchain, -1);
    let error = service
        .validate_address("EQD3o5h_LmFwcSXvZWuOy9W9y7cE3I4n2Ni0kxqTNPhjj5yt")
        .unwrap_err();
    assert_eq!(
        error,
        "Invalid TON address: Invalid address (Address: EQD3o5h_LmFwcSXvZWuOy9W9y7cE3I4n2Ni0kxqTNPhjj5yt, message: Invalid base64src address: CRC mismatch)"
    );
}

#[test]
fn account_is_active_where_it_has_a_state() {
    assert_eq!(TonService::is_address_active::<u8>(Ok(Some(1))), Ok(true));
    assert_eq!(TonService::is_address_active::<u8>(Ok(None)), Ok(false));
    assert_eq!(
        TonService::is_address_active::<u8>(Err("down".to_string())),
        Err("down".to_string())
    );
    assert!(TonService::check_adnl_connection::<u8>(&Ok(1)));
    assert!(!TonService::check_adnl_connection::<u8>(&Err("down".to_string())));
}
