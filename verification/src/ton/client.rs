//! How the TON network is reached: which configurations are tried, when an attempt is repeated,
//! and what an answer or a failure comes to.
use vstd::prelude::*;

use crate::ton::address::{address_result, checked_address, parse_address, AccountAddress};
use crate::ton::trace::{is_success, success_status};
use crate::utils::json::{
    at, find_field, int_json, json_fields, json_of_text, law_later_field_counts, lemma_find_after,
    opt_json, push_field, text_of_json, text_result, with_list_cut, Json, JsonNumber,
    JsonNumberView, JsonView,
};
use crate::utils::text::{
    contains, copy_texts, has_text, lemma_prefix_keeps_text, opt_text, prefixed, texts, unit_result,
};

verus! {

/// Where to find the network.
#[derive(Debug)]
pub struct TonClientConfig {
    pub testnet: bool,
    pub api_key: Option<String>,
    /// The configuration to try first.
    pub config_url: Option<String>,
    /// The configurations to try after it.
    pub fallback_configs: Vec<String>,
    /// Seconds to wait for a configuration.
    pub connection_timeout: Option<u64>,
}

/// [`TonClientConfig`] by its characters.
#[verifier::ext_equal]
pub struct TonClientConfigView {
    pub testnet: bool,
    pub api_key: Option<Seq<char>>,
    pub config_url: Option<Seq<char>>,
    pub fallback_configs: Seq<Seq<char>>,
    pub connection_timeout: Option<u64>,
}

impl View for TonClientConfig {
    type V = TonClientConfigView;

    open spec fn view(&self) -> TonClientConfigView {
        TonClientConfigView {
            testnet: self.testnet,
            api_key: opt_text(self.api_key),
            config_url: opt_text(self.config_url),
            fallback_configs: texts(self.fallback_configs@),
            connection_timeout: self.connection_timeout,
        }
    }
}

/// The configuration that is used where none is chosen.
pub open spec fn default_config() -> TonClientConfigView {
    TonClientConfigView {
        testnet: false,
        api_key: None,
        config_url: None,
        fallback_configs: seq![
            "https://ton-blockchain.github.io/global.config.json"@,
            "https://ton.org/global.config.json"@,
        ],
        connection_timeout: Some(30),
    }
}

impl Default for TonClientConfig {
    fn default() -> (config: Self)
        ensures
            config@ == default_config(),
    {
        let mut fallback_configs: Vec<String> = Vec::new();
        fallback_configs.push("https://ton-blockchain.github.io/global.config.json".to_owned());
        fallback_configs.push("https://ton.org/global.config.json".to_owned());
        let config = TonClientConfig {
            testnet: false,
            api_key: None,
            config_url: None,
            fallback_configs,
            connection_timeout: Some(30),
        };
        assert(config@.fallback_configs =~= default_config().fallback_configs);
        config
    }
}

/// The configuration that is tried first.
pub open spec fn first_config(config: TonClientConfigView) -> Seq<char> {
    match config.config_url {
        Some(url) => url,
        None => if config.testnet {
            "https://ton.org/testnet-global.config.json"@
        } else {
            "https://ton.org/global.config.json"@
        },
    }
}

/// All configurations that are tried, in order.
pub open spec fn configs_to_try(config: TonClientConfigView) -> Seq<Seq<char>> {
    seq![first_config(config)] + config.fallback_configs
}

/// What follows from a failed attempt.
#[derive(Debug)]
pub enum RetryStep {
    /// Wait for so many seconds, and try again.
    RetryAfter(u64),
    /// Give up with this error.
    Fail(String),
}

/// [`RetryStep`] by its characters.
#[verifier::ext_equal]
pub enum RetryStepView {
    RetryAfter(u64),
    Fail(Seq<char>),
}

impl View for RetryStep {
    type V = RetryStepView;

    open spec fn view(&self) -> RetryStepView {
        match *self {
            RetryStep::RetryAfter(seconds) => RetryStepView::RetryAfter(seconds),
            RetryStep::Fail(e) => RetryStepView::Fail(e@),
        }
    }
}

/// The configurations to try, and the one whose turn it is.
#[derive(Debug)]
pub struct ConnectPlan {
    urls: Vec<String>,
    attempt: usize,
}

/// [`ConnectPlan`] by its characters.
#[verifier::ext_equal]
pub struct ConnectPlanView {
    pub urls: Seq<Seq<char>>,
    pub attempt: nat,
}

impl View for ConnectPlan {
    type V = ConnectPlanView;

    closed spec fn view(&self) -> ConnectPlanView {
        ConnectPlanView { urls: texts(self.urls@), attempt: self.attempt as nat }
    }
}

/// What follows when the configuration whose turn it is fails.
pub open spec fn connect_step(plan: ConnectPlanView, error: Seq<char>) -> (
    ConnectPlanView,
    RetryStepView,
) {
    if plan.attempt + 1 < plan.urls.len() {
        (
            ConnectPlanView { attempt: plan.attempt + 1, ..plan },
            RetryStepView::RetryAfter(3),
        )
    } else {
        (plan, RetryStepView::Fail(error))
    }
}

impl ConnectPlan {
    /// One of the configurations has its turn.
    pub closed spec fn wf(&self) -> bool {
        self.attempt < self.urls@.len()
    }

    /// The configuration whose turn it is.
    pub fn current(&self) -> (url: &String)
        requires
            self.wf(),
        ensures
            self@.attempt < self@.urls.len(),
            url@ == self@.urls[self@.attempt as int],
    {
        &self.urls[self.attempt]
    }

    /// Takes the failure of the configuration whose turn it is.
    pub fn failed(&mut self, error: String) -> (step: RetryStep)
        requires
            old(self).wf(),
        ensures
            final(self).wf(),
            (final(self)@, step@) == connect_step(old(self)@, error@),
    {
        if self.attempt < self.urls.len() - 1 {
            self.attempt = self.attempt + 1;
            RetryStep::RetryAfter(3)
        } else {
            RetryStep::Fail(error)
        }
    }
}

/// How often a new connection is tested at most.
pub const MAX_TESTS: u64 = 5;

/// The seconds to wait after the failure of test number `attempt`: twice as long each time,
/// starting from one, and ten at most.
pub open spec fn test_delay(attempt: nat) -> nat
    decreases attempt,
{
    if attempt <= 1 {
        1
    } else {
        let doubled = 2 * test_delay((attempt - 1) as nat);
        if doubled < 10 {
            doubled
        } else {
            10
        }
    }
}

/// What follows when test number `attempt` of a connection fails.
pub open spec fn test_step(attempt: nat, error: Seq<char>) -> (nat, RetryStepView) {
    if attempt < MAX_TESTS {
        (attempt + 1, RetryStepView::RetryAfter(test_delay(attempt) as u64))
    } else {
        (attempt, RetryStepView::Fail("Connection test failed after 5 attempts: "@ + error))
    }
}

/// The tests of a new connection.
#[derive(Debug)]
pub struct ConnectionTest {
    attempt: u64,
    retry_delay: u64,
}

impl ConnectionTest {
    /// The number of the test that is running, starting from one.
    pub closed spec fn attempt(&self) -> nat {
        self.attempt as nat
    }

    /// The test that is running is one of those that are made.
    pub closed spec fn wf(&self) -> bool {
        &&& 1 <= self.attempt <= MAX_TESTS
        &&& self.retry_delay == test_delay(self.attempt as nat)
        &&& 1 <= self.retry_delay <= 10
    }

    /// The first test.
    pub fn start() -> (test: Self)
        ensures
            test.wf(),
            test.attempt() == 1,
    {
        ConnectionTest { attempt: 1, retry_delay: 1 }
    }

    /// Takes the failure of the test that is running.
    pub fn failed(&mut self, error: String) -> (step: RetryStep)
        requires
            old(self).wf(),
        ensures
            final(self).wf(),
            (final(self).attempt(), step@) == test_step(old(self).attempt(), error@),
    {
        if self.attempt < MAX_TESTS {
            let delay = self.retry_delay;
            let doubled = delay * 2;
            self.retry_delay = if doubled < 10 {
                doubled
            } else {
                10
            };
            self.attempt = self.attempt + 1;
            RetryStep::RetryAfter(delay)
        } else {
            RetryStep::Fail(prefixed("Connection test failed after 5 attempts: ", &error))
        }
    }
}

/// How often an operation is tried at most.
pub const MAX_ATTEMPTS: u32 = 3;

/// The error says that the other side does not take the connection.
pub open spec fn is_refused(error: Seq<char>) -> bool {
    has_text(error, "Connection refused"@)
}

/// The error says that the account has no code that is known.
pub open spec fn is_unknown_code(error: Seq<char>) -> bool {
    has_text(error, "Unknown code hash"@)
}

/// What follows when attempt number `attempt` at an operation fails.
pub open spec fn operation_step(attempt: nat, error: Seq<char>) -> (nat, RetryStepView) {
    if attempt < MAX_ATTEMPTS {
        (
            attempt + 1,
            RetryStepView::RetryAfter(
                if is_refused(error) {
                    2
                } else {
                    1
                },
            ),
        )
    } else {
        (attempt, RetryStepView::Fail(error))
    }
}

/// The attempts at an operation.
#[derive(Debug)]
pub struct ConnectionRetry {
    attempt: u32,
}

impl ConnectionRetry {
    /// The number of the attempt that is running, starting from one.
    pub closed spec fn attempt(&self) -> nat {
        self.attempt as nat
    }

    /// The attempt that is running is one of those that are made.
    pub closed spec fn wf(&self) -> bool {
        1 <= self.attempt <= MAX_ATTEMPTS
    }

    /// The first attempt.
    pub fn start() -> (retry: Self)
        ensures
            retry.wf(),
            retry.attempt() == 1,
    {
        ConnectionRetry { attempt: 1 }
    }

    /// Takes the failure of the attempt that is running.
    pub fn failed(&mut self, error: String) -> (step: RetryStep)
        requires
            old(self).wf(),
        ensures
            final(self).wf(),
            (final(self).attempt(), step@) == operation_step(old(self).attempt(), error@),
    {
        if self.attempt < MAX_ATTEMPTS {
            let refused = contains(&error, "Connection refused");
            self.attempt = self.attempt + 1;
            RetryStep::RetryAfter(
                if refused {
                    2
                } else {
                    1
                },
            )
        } else {
            RetryStep::Fail(error)
        }
    }
}

/// How far the download of a configuration came.
#[derive(Debug)]
pub enum ConfigFetch {
    /// The request could not be made.
    NotBuilt(String),
    /// The request could not be sent, or was not answered.
    NotAnswered(String),
    /// The answer could not be read.
    NotRead { status: u16, status_text: String, error: String },
    /// The answer was read.
    Read { status: u16, status_text: String, text: String },
}

/// What the download of a configuration comes to.
pub open spec fn loaded_config(fetch: ConfigFetch) -> Result<Seq<char>, Seq<char>> {
    match fetch {
        ConfigFetch::NotBuilt(e) => Err("Failed to build request: "@ + e@),
        ConfigFetch::NotAnswered(e) => Err("Failed to execute request: "@ + e@),
        ConfigFetch::NotRead { status, status_text, error } => if !success_status(status) {
            Err("Failed to load config, HTTP status: "@ + status_text@)
        } else {
            Err("Failed to read response text: "@ + error@)
        },
        ConfigFetch::Read { status, status_text, text } => if !success_status(status) {
            Err("Failed to load config, HTTP status: "@ + status_text@)
        } else {
            Ok(text@)
        },
    }
}

/// How many lite servers of a configuration are used at most.
pub const MAX_LITESERVERS: usize = 10;

/// The configuration, with no more lite servers than are used.
pub open spec fn limited_config(config: JsonView) -> JsonView {
    with_list_cut(config, "liteservers"@, MAX_LITESERVERS as nat)
}

/// What a configuration text comes to: its document, read, cut down and written again.
pub open spec fn optimized_config(text: Seq<char>) -> Result<Seq<char>, Seq<char>> {
    match json_of_text(text) {
        Ok(config) => match text_of_json(limited_config(config)) {
            Ok(written) => Ok(written),
            Err(e) => Err("Failed to serialize config: "@ + e),
        },
        Err(e) => Err("Failed to parse config JSON: "@ + e),
    }
}

/// The service that talks to the network.
#[derive(Debug)]
pub struct TonService {
    config: TonClientConfig,
    successful_config: Option<String>,
}

/// [`TonService`] by its characters.
#[verifier::ext_equal]
pub struct TonServiceView {
    pub config: TonClientConfigView,
    pub successful_config: Option<Seq<char>>,
}

impl View for TonService {
    type V = TonServiceView;

    closed spec fn view(&self) -> TonServiceView {
        TonServiceView {
            config: self.config@,
            successful_config: opt_text(self.successful_config),
        }
    }
}

/// A list of texts as a document.
pub open spec fn texts_json(list: Seq<Seq<char>>) -> JsonView {
    JsonView::Array(Seq::new(list.len(), |i: int| JsonView::Text(list[i])))
}

/// What is told of the connection.
pub open spec fn connection_info(service: TonServiceView) -> JsonView {
    JsonView::Object(
        seq![
            ("testnet"@, JsonView::Bool(service.config.testnet)),
            ("successful_config"@, opt_json(service.successful_config)),
            ("fallback_configs"@, texts_json(service.config.fallback_configs)),
            (
                "connection_timeout"@,
                match service.config.connection_timeout {
                    Some(seconds) => int_json(seconds as int),
                    None => JsonView::Null,
                },
            ),
        ],
    )
}

/// What a failed look at an account means when its transactions are wanted: nothing to report
/// for an account without known code, else an error.
pub open spec fn transactions_failure_of(error: Seq<char>) -> Result<(), Seq<char>> {
    if is_unknown_code(error) {
        Ok(())
    } else if is_refused(error) {
        Err("ADNL connection lost: "@ + error)
    } else {
        Err("Failed to get account state: "@ + error)
    }
}

/// What a failed look at an account means when its state is wanted: no state for an account
/// without known code, else an error.
pub open spec fn account_failure_of(error: Seq<char>) -> Result<(), Seq<char>> {
    if is_unknown_code(error) {
        Ok(())
    } else {
        Err("Failed to get account state: "@ + error)
    }
}

impl TonService {
    /// The service, connected by the configuration `successful_config`.
    pub fn new(config: TonClientConfig, successful_config: String) -> (service: Self)
        ensures
            service@ == (TonServiceView {
                config: config@,
                successful_config: Some(successful_config@),
            }),
    {
        TonService { config, successful_config: Some(successful_config) }
    }

    /// The configurations to try, with the first one having its turn.
    pub fn try_connect_with_fallback(config: &TonClientConfig) -> (plan: ConnectPlan)
        ensures
            plan.wf(),
            plan@ == (ConnectPlanView { urls: configs_to_try(config@), attempt: 0 }),
    {
        let first = match &config.config_url {
            Some(url) => url.clone(),
            None => if config.testnet {
                "https://ton.org/testnet-global.config.json".to_owned()
            } else {
                "https://ton.org/global.config.json".to_owned()
            },
        };
        let mut urls: Vec<String> = Vec::new();
        urls.push(first);
        let mut fallbacks = copy_texts(&config.fallback_configs);
        let ghost listed = texts(fallbacks@);
        urls.append(&mut fallbacks);
        assert(texts(urls@) =~= seq![first@] + listed);
        ConnectPlan { urls, attempt: 0 }
    }

    /// The seconds to wait for a configuration.
    pub fn config_timeout(timeout_secs: Option<u64>) -> (seconds: u64)
        ensures
            seconds == match timeout_secs {
                Some(chosen) => chosen,
                None => 30,
            },
    {
        timeout_secs.unwrap_or(30)
    }

    /// The text of a configuration, once its download has ended.
    pub fn load_network_config(fetch: ConfigFetch) -> (result: Result<String, String>)
        ensures
            text_result(result) == loaded_config(fetch),
    {
        match fetch {
            ConfigFetch::NotBuilt(e) => Err(prefixed("Failed to build request: ", &e)),
            ConfigFetch::NotAnswered(e) => Err(prefixed("Failed to execute request: ", &e)),
            ConfigFetch::NotRead { status, status_text, error } => {
                if !is_success(status) {
                    return Err(prefixed("Failed to load config, HTTP status: ", &status_text));
                }
                Err(prefixed("Failed to read response text: ", &error))
            },
            ConfigFetch::Read { status, status_text, text } => {
                if !is_success(status) {
                    return Err(prefixed("Failed to load config, HTTP status: ", &status_text));
                }
                Ok(text)
            },
        }
    }

    /// Cuts the lite servers of a configuration down to those that are used.
    pub fn optimize_config_for_connection(config_data: String) -> (result: Result<String, String>)
        ensures
            text_result(result) == optimized_config(config_data@),
    {
        let config = match Json::parse(&config_data) {
            Ok(config) => config,
            Err(e) => {
                return Err(prefixed("Failed to parse config JSON: ", &e));
            },
        };
        match Self::limit_liteservers(config).to_text() {
            Ok(text) => Ok(text),
            Err(e) => Err(prefixed("Failed to serialize config: ", &e)),
        }
    }

    /// Cuts the lite servers of a configuration document down to those that are used.
    pub fn limit_liteservers(config: Json) -> (limited: Json)
        ensures
            limited@ == limited_config(config@),
    {
        config.cut_list("liteservers", MAX_LITESERVERS)
    }

    /// The configuration to build a client from, once its download has ended.
    pub fn prepare_config(fetch: ConfigFetch) -> (result: Result<String, String>)
        ensures
            text_result(result) == match loaded_config(fetch) {
                Ok(text) => optimized_config(text),
                Err(e) => Err(e),
            },
    {
        match Self::load_network_config(fetch) {
            Ok(text) => Self::optimize_config_for_connection(text),
            Err(e) => Err(e),
        }
    }

    /// The error for a client that could not be built.
    pub fn build_failure(error: &str) -> (text: String)
        ensures
            text@ == "Failed to build TON client: "@ + error@,
    {
        prefixed("Failed to build TON client: ", error)
    }

    /// The error for a last block that could not be found out.
    pub fn last_block_failure(error: &str) -> (text: String)
        ensures
            text@ == "Failed to get masterchain info: "@ + error@,
    {
        prefixed("Failed to get masterchain info: ", error)
    }

    /// What a failed look at an account means when its transactions are wanted: `Ok` where
    /// there are none to report.
    pub fn transactions_failure(error: &str) -> (result: Result<(), String>)
        ensures
            unit_result(result) == transactions_failure_of(error@),
    {
        if contains(error, "Unknown code hash") {
            Ok(())
        } else if contains(error, "Connection refused") {
            Err(prefixed("ADNL connection lost: ", error))
        } else {
            Err(prefixed("Failed to get account state: ", error))
        }
    }

    /// What a failed look at an account means when its state is wanted: `Ok` where it has none.
    pub fn account_state_failure(error: &str) -> (result: Result<(), String>)
        ensures
            unit_result(result) == account_failure_of(error@),
    {
        if contains(error, "Unknown code hash") {
            Ok(())
        } else {
            Err(prefixed("Failed to get account state: ", error))
        }
    }

    /// Reads an address, or says why the text is none.
    pub fn validate_address(&self, address: &str) -> (result: Result<AccountAddress, String>)
        ensures
            address_result(result) == checked_address(address@),
    {
        parse_address(address)
    }

    /// Whether an account is there, by what is known of its state.
    pub fn is_address_active<S>(state: Result<Option<S>, String>) -> (result: Result<bool, String>)
        ensures
            result == match state {
                Ok(Some(_)) => Ok::<bool, String>(true),
                Ok(None) => Ok(false),
                Err(e) => Err(e),
            },
    {
        match state {
            Ok(Some(_)) => Ok(true),
            Ok(None) => Ok(false),
            Err(e) => Err(e),
        }
    }

    /// Whether the network answers, by what came of asking for the last block.
    pub fn check_adnl_connection<B>(last_block: &Result<B, String>) -> (connected: bool)
        ensures
            connected == (*last_block is Ok),
    {
        match last_block {
            Ok(_) => true,
            Err(_) => false,
        }
    }

    /// What is told of the connection.
    pub fn get_connection_info(&self) -> (info: Json)
        ensures
            info@ == connection_info(self@),
    {
        let mut fallbacks: Vec<Json> = Vec::new();
        for i in 0..self.config.fallback_configs.len()
            invariant
                fallbacks@.len() == i,
                forall|j: int|
                    0 <= j < i ==> (#[trigger] fallbacks@[j])@ == JsonView::Text(
                        self.config.fallback_configs@[j]@,
                    ),
        {
            fallbacks.push(Json::Text(self.config.fallback_configs[i].clone()));
        }
        let fallback_configs = Json::Array(fallbacks);
        assert(fallback_configs@->Array_0 =~= texts_json(self@.config.fallback_configs)->Array_0);
        let connection_timeout = match self.config.connection_timeout {
            Some(seconds) => Json::Number(JsonNumber::Unsigned(seconds)),
            None => Json::Null,
        };
        let mut fields: Vec<(String, Json)> = Vec::new();
        push_field(&mut fields, "testnet", Json::Bool(self.config.testnet));
        push_field(
            &mut fields,
            "successful_config",
            Json::from_optional(self.successful_config.clone()),
        );
        push_field(&mut fields, "fallback_configs", fallback_configs);
        push_field(&mut fields, "connection_timeout", connection_timeout);
        assert(json_fields(fields@) =~= connection_info(self@)->Object_0);
        Json::from_fields(fields)
    }
}

/// The plan after the given failures.
pub open spec fn plan_after(plan: ConnectPlanView, errors: Seq<Seq<char>>) -> ConnectPlanView
    decreases errors.len(),
{
    if errors.len() == 0 {
        plan
    } else {
        connect_step(plan_after(plan, errors.drop_last()), errors.last()).0
    }
}

/// The chosen configuration, or else that of the chosen network, is tried first, and then each
/// fallback once, in order: as long as some are left, a failure leads to the next after three
/// seconds, and the failure of the last one is the failure of the whole.
pub proof fn law_each_config_has_its_turn(
    config: TonClientConfigView,
    errors: Seq<Seq<char>>,
    error: Seq<char>,
)
    requires
        errors.len() <= config.fallback_configs.len(),
    ensures
        configs_to_try(config).len() == 1 + config.fallback_configs.len(),
        configs_to_try(config)[0] == first_config(config),
        forall|i: int|
            0 <= i < config.fallback_configs.len() ==> configs_to_try(config)[i + 1]
                == #[trigger] config.fallback_configs[i],
        ({
            let start = ConnectPlanView { urls: configs_to_try(config), attempt: 0 };
            let plan = plan_after(start, errors);
            &&& plan == (ConnectPlanView { attempt: errors.len(), ..start })
            &&& connect_step(plan, error).1 == if errors.len() < config.fallback_configs.len() {
                RetryStepView::RetryAfter(3)
            } else {
                RetryStepView::Fail(error)
            }
        }),
    decreases errors.len(),
{
    if errors.len() > 0 {
        law_each_config_has_its_turn(config, errors.drop_last(), errors.last());
    }
}

/// The number of the running test after the given failures.
pub open spec fn test_after(errors: Seq<Seq<char>>) -> nat
    decreases errors.len(),
{
    if errors.len() == 0 {
        1
    } else {
        test_step(test_after(errors.drop_last()), errors.last()).0
    }
}

/// A connection is tested five times, with one, two, four and eight seconds in between, and
/// given up with the error of the fifth test.
pub proof fn law_connection_is_tested_five_times(errors: Seq<Seq<char>>, error: Seq<char>)
    requires
        errors.len() < 5,
    ensures
        test_after(errors) == errors.len() + 1,
        test_step(test_after(errors), error).1 == if errors.len() == 0 {
            RetryStepView::RetryAfter(1)
        } else if errors.len() == 1 {
            RetryStepView::RetryAfter(2)
        } else if errors.len() == 2 {
            RetryStepView::RetryAfter(4)
        } else if errors.len() == 3 {
            RetryStepView::RetryAfter(8)
        } else {
            RetryStepView::Fail("Connection test failed after 5 attempts: "@ + error)
        },
    decreases errors.len(),
{
    if errors.len() > 0 {
        law_connection_is_tested_five_times(errors.drop_last(), errors.last());
    }
    reveal_with_fuel(test_delay, 5);
}

/// The wait after a failed test is never less than one second nor more than ten, and never
/// shorter than the one before.
pub proof fn law_test_delay_is_bounded(attempt: nat)
    ensures
        1 <= test_delay(attempt) <= 10,
        test_delay(attempt) <= test_delay(attempt + 1),
    decreases attempt,
{
    if attempt > 1 {
        law_test_delay_is_bounded((attempt - 1) as nat);
    }
}

/// The number of the running attempt after the given failures.
pub open spec fn attempt_after(errors: Seq<Seq<char>>) -> nat
    decreases errors.len(),
{
    if errors.len() == 0 {
        1
    } else {
        operation_step(attempt_after(errors.drop_last()), errors.last()).0
    }
}

/// An operation is tried three times, with two seconds in between where the connection was
/// refused and one second otherwise, and given up with the error of the third attempt.
pub proof fn law_operation_is_tried_three_times(errors: Seq<Seq<char>>, error: Seq<char>)
    requires
        errors.len() < 3,
    ensures
        attempt_after(errors) == errors.len() + 1,
        operation_step(attempt_after(errors), error).1 == if errors.len() == 2 {
            RetryStepView::Fail(error)
        } else if is_refused(error) {
            RetryStepView::RetryAfter(2)
        } else {
            RetryStepView::RetryAfter(1)
        },
    decreases errors.len(),
{
    if errors.len() > 0 {
        law_operation_is_tried_three_times(errors.drop_last(), errors.last());
    }
}

/// A refused connection is still seen as one in the error that is made of it, and an account
/// without known code never counts as an error.
pub proof fn law_refused_connection_stays_recognizable(error: Seq<char>)
    ensures
        is_refused(error) ==> is_unknown_code(error) || is_refused(
            transactions_failure_of(error)->Err_0,
        ) && is_refused(account_failure_of(error)->Err_0),
        transactions_failure_of(error) is Ok <==> is_unknown_code(error),
        account_failure_of(error) is Ok <==> is_unknown_code(error),
{
    if is_refused(error) {
        lemma_prefix_keeps_text("ADNL connection lost: "@, error, "Connection refused"@);
        lemma_prefix_keeps_text("Failed to get account state: "@, error, "Connection refused"@);
    }
}

/// No more than ten lite servers are left, the first ones, and everything else of a
/// configuration stays. Cutting it down again changes nothing.
pub proof fn law_only_liteservers_are_cut(config: JsonView, key: Seq<char>)
    ensures
        key != "liteservers"@ ==> at(limited_config(config), key) == at(config, key),
        match at(config, "liteservers"@) {
            JsonView::Array(servers) => at(limited_config(config), "liteservers"@)
                == JsonView::Array(
                if servers.len() > 10 {
                    servers.take(10)
                } else {
                    servers
                },
            ),
            other => limited_config(config) == config,
        },
        limited_config(limited_config(config)) == limited_config(config),
{
    let name = "liteservers"@;
    if let JsonView::Object(fields) = config {
        if let Some(JsonView::Array(servers)) = find_field(fields, name) {
            if servers.len() > 10 {
                let cut = JsonView::Array(servers.take(10));
                lemma_find_after(fields, name, cut, key);
                lemma_find_after(fields, name, cut, name);
            }
        }
    }
}

/// The configuration that was chosen is tried first, and where none was, that of the network.
pub proof fn law_chosen_config_comes_first(config: TonClientConfigView)
    ensures
        match config.config_url {
            Some(url) => configs_to_try(config)[0] == url,
            None => if config.testnet {
                configs_to_try(config)[0] == "https://ton.org/testnet-global.config.json"@
            } else {
                configs_to_try(config)[0] == "https://ton.org/global.config.json"@
            },
        },
        configs_to_try(config).skip(1) == config.fallback_configs,
{
    assert(configs_to_try(config).skip(1) =~= config.fallback_configs);
}

/// A configuration is had exactly where an answer with a status of the two hundreds was read, as
/// it was read; every failure says at which step it came.
pub proof fn law_download_comes_to_its_text(
    status: u16,
    status_text: String,
    text: String,
    error: String,
)
    ensures
        loaded_config(ConfigFetch::NotBuilt(error)) == Err::<Seq<char>, Seq<char>>(
            "Failed to build request: "@ + error@,
        ),
        loaded_config(ConfigFetch::NotAnswered(error)) == Err::<Seq<char>, Seq<char>>(
            "Failed to execute request: "@ + error@,
        ),
        200 <= status <= 299 ==> {
            &&& loaded_config(ConfigFetch::Read { status, status_text, text }) == Ok::<
                Seq<char>,
                Seq<char>,
            >(text@)
            &&& loaded_config(ConfigFetch::NotRead { status, status_text, error }) == Err::<
                Seq<char>,
                Seq<char>,
            >("Failed to read response text: "@ + error@)
        },
        status < 200 || status > 299 ==> {
            &&& loaded_config(ConfigFetch::Read { status, status_text, text }) == Err::<
                Seq<char>,
                Seq<char>,
            >("Failed to load config, HTTP status: "@ + status_text@)
            &&& loaded_config(ConfigFetch::NotRead { status, status_text, error }) == Err::<
                Seq<char>,
                Seq<char>,
            >("Failed to load config, HTTP status: "@ + status_text@)
        },
{
}

/// A configuration is written again with nothing changed but the number of lite servers, and a
/// failure says whether reading or writing failed.
pub proof fn law_config_is_written_as_it_was_read(text: Seq<char>, config: JsonView)
    ensures
        match json_of_text(text) {
            Err(e) => optimized_config(text) == Err::<Seq<char>, Seq<char>>(
                "Failed to parse config JSON: "@ + e,
            ),
            Ok(read) => match text_of_json(limited_config(read)) {
                Ok(written) => optimized_config(text) == Ok::<Seq<char>, Seq<char>>(written),
                Err(e) => optimized_config(text) == Err::<Seq<char>, Seq<char>>(
                    "Failed to serialize config: "@ + e,
                ),
            },
        },
        json_of_text(text) == Ok::<JsonView, Seq<char>>(config) && (at(config, "liteservers"@)
            is Array ==> at(config, "liteservers"@)->Array_0.len() <= 10) && text_of_json(config)
            is Ok ==> optimized_config(text) == text_of_json(config),
{
}

/// A failed look at an account is no failure where its code is not known. Else it says what
/// failed, and where transactions are wanted also that the connection was lost.
pub proof fn law_account_failures_say_what_failed(error: Seq<char>)
    ensures
        has_text(error, "Unknown code hash"@) ==> transactions_failure_of(error) == Ok::<
            (),
            Seq<char>,
        >(()) && account_failure_of(error) == Ok::<(), Seq<char>>(()),
        !has_text(error, "Unknown code hash"@) ==> {
            &&& account_failure_of(error) == Err::<(), Seq<char>>(
                "Failed to get account state: "@ + error,
            )
            &&& has_text(error, "Connection refused"@) ==> transactions_failure_of(error) == Err::<
                (),
                Seq<char>,
            >("ADNL connection lost: "@ + error)
            &&& !has_text(error, "Connection refused"@) ==> transactions_failure_of(error)
                == Err::<(), Seq<char>>("Failed to get account state: "@ + error)
        },
{
}

/// The wait before an operation is tried again is two seconds exactly where its error tells of a
/// refused connection.
pub proof fn law_refused_operation_waits_longer(attempt: nat, error: Seq<char>)
    requires
        attempt < 3,
    ensures
        operation_step(attempt, error).0 == attempt + 1,
        has_text(error, "Connection refused"@) ==> operation_step(attempt, error).1
            == RetryStepView::RetryAfter(2),
        !has_text(error, "Connection refused"@) ==> operation_step(attempt, error).1
            == RetryStepView::RetryAfter(1),
{
}

/// What is told of the connection is what it was set up with.
pub proof fn law_connection_info_shows_the_settings(service: TonServiceView)
    ensures
        ({
            let info = connection_info(service);
            &&& at(info, "testnet"@) == JsonView::Bool(service.config.testnet)
            &&& match service.successful_config {
                Some(url) => at(info, "successful_config"@) == JsonView::Text(url),
                None => at(info, "successful_config"@) == JsonView::Null,
            }
            &&& at(info, "fallback_configs"@) is Array
            &&& at(info, "fallback_configs"@)->Array_0.len()
                == service.config.fallback_configs.len()
            &&& forall|i: int|
                0 <= i < service.config.fallback_configs.len() ==> at(
                    info,
                    "fallback_configs"@,
                )->Array_0[i] == JsonView::Text(#[trigger] service.config.fallback_configs[i])
            &&& match service.config.connection_timeout {
                Some(seconds) => at(info, "connection_timeout"@) == JsonView::Number(
                    JsonNumberView::Unsigned(seconds),
                ),
                None => at(info, "connection_timeout"@) == JsonView::Null,
            }
        }),
{
    reveal_strlit("testnet");
    reveal_strlit("successful_config");
    reveal_strlit("fallback_configs");
    reveal_strlit("connection_timeout");
    let fields = connection_info(service)->Object_0;
    assert(fields.len() == 4);
    assert(fields[0].0 == "testnet"@);
    assert(fields[1].0 == "successful_config"@);
    assert(fields[2].0 == "fallback_configs"@);
    assert(fields[3].0 == "connection_timeout"@);
    law_later_field_counts(fields, "testnet"@, 0);
    law_later_field_counts(fields, "successful_config"@, 1);
    law_later_field_counts(fields, "fallback_configs"@, 2);
    law_later_field_counts(fields, "connection_timeout"@, 3);
}

/// Settings and steps are spoken of by all their fields.
pub proof fn law_settings_are_shown_whole(config: TonClientConfig, seconds: u64, error: String)
    ensures
        config@.testnet == config.testnet,
        config@.api_key == opt_text(config.api_key),
        config@.config_url == opt_text(config.config_url),
        config@.fallback_configs == texts(config.fallback_configs@),
        config@.connection_timeout == config.connection_timeout,
        RetryStep::RetryAfter(seconds)@ == RetryStepView::RetryAfter(seconds),
        RetryStep::Fail(error)@ == RetryStepView::Fail(error@),
{
}

/// Where nothing is chosen, the main network is reached, with two configurations to fall back on
/// and half a minute for each.
pub proof fn law_default_config_falls_back()
    ensures
        !default_config().testnet,
        default_config().api_key is None,
        default_config().config_url is None,
        configs_to_try(default_config()) == seq![
            "https://ton.org/global.config.json"@,
            "https://ton-blockchain.github.io/global.config.json"@,
            "https://ton.org/global.config.json"@,
        ],
        default_config().connection_timeout == Some(30u64),
{
    assert(configs_to_try(default_config()) =~= seq![
        "https://ton.org/global.config.json"@,
        "https://ton-blockchain.github.io/global.config.json"@,
        "https://ton.org/global.config.json"@,
    ]);
}

} // verus!
