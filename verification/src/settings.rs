//! The settings that the service is started with, from the values that its environment gives.
use vstd::prelude::*;

use crate::ton::client::{TonClientConfig, TonClientConfigView};
use crate::utils::text::opt_text;

verus! {

/// The port that is used where none is chosen.
pub const DEFAULT_PORT: u16 = 3000;

/// The number that decimal digits stand for, where there is at least one and nothing else.
pub open spec fn number_of(digits: Seq<char>) -> Option<nat>
    decreases digits.len(),
{
    if digits.len() == 0 || !('0' <= digits.last() <= '9') {
        None
    } else if digits.len() == 1 {
        Some((digits[0] as int - '0' as int) as nat)
    } else {
        match number_of(digits.drop_last()) {
            Some(n) => Some((10 * n + (digits.last() as int - '0' as int)) as nat),
            None => None,
        }
    }
}

/// The port that a text names: decimal digits, perhaps after a plus sign, of a number of
/// sixteen bits.
pub open spec fn port_of(text: Seq<char>) -> Option<u16> {
    let digits = if text.len() > 0 && text[0] == '+' {
        text.skip(1)
    } else {
        text
    };
    match number_of(digits) {
        Some(n) => if n <= u16::MAX {
            Some(n as u16)
        } else {
            None
        },
        None => None,
    }
}

/// Reads a port.
///
/// Trusted: `str::parse` of the standard library, to a `u16`, accepts an optional plus sign
/// followed by decimal digits only, at least one of them, and fails on a number that does not
/// fit.
#[verifier::external_body]
fn parse_port(text: &str) -> (port: Option<u16>)
    ensures
        port == port_of(text@),
{
    text.parse::<u16>().ok()
}

/// The port to listen on: the chosen one, or the usual one where none is chosen or the choice
/// is no port.
pub fn server_port(chosen: Option<String>) -> (port: u16)
    ensures
        port == match opt_text(chosen) {
            Some(text) => match port_of(text) {
                Some(n) => n,
                None => DEFAULT_PORT,
            },
            None => DEFAULT_PORT,
        },
        chosen is None ==> port == 3000,
        chosen matches Some(text) ==> port_of(text@) is None ==> port == 3000,
{
    match chosen {
        Some(text) => match parse_port(&text) {
            Some(port) => port,
            None => DEFAULT_PORT,
        },
        None => DEFAULT_PORT,
    }
}

/// Whether the test network is chosen.
pub fn use_testnet(chosen: Option<String>) -> (testnet: bool)
    ensures
        testnet == (opt_text(chosen) == Some("true"@)),
{
    match chosen {
        Some(text) => {
            let yes: String = "true".to_owned();
            text == yes
        },
        None => false,
    }
}

/// Where traces are asked for: the chosen service, or the one of the network.
pub open spec fn trace_endpoint(chosen: Option<Seq<char>>, testnet: bool) -> Seq<char> {
    match chosen {
        Some(endpoint) => endpoint,
        None => if testnet {
            "https://testnet.tonapi.io"@
        } else {
            "https://tonapi.io"@
        },
    }
}

/// Where traces are asked for: the chosen service, or the one of the network.
pub fn tonapi_endpoint(chosen: Option<String>, testnet: bool) -> (endpoint: String)
    ensures
        endpoint@ == trace_endpoint(opt_text(chosen), testnet),
{
    match chosen {
        Some(endpoint) => endpoint,
        None => if testnet {
            "https://testnet.tonapi.io".to_owned()
        } else {
            "https://tonapi.io".to_owned()
        },
    }
}

/// How the network is reached: by the chosen configuration alone, with the usual time to wait
/// for it.
pub fn client_config(
    testnet: bool,
    api_key: Option<String>,
    config_url: Option<String>,
) -> (config: TonClientConfig)
    ensures
        config@ == (TonClientConfigView {
            testnet,
            api_key: opt_text(api_key),
            config_url: opt_text(config_url),
            fallback_configs: Seq::empty(),
            connection_timeout: None,
        }),
{
    let config = TonClientConfig {
        testnet,
        api_key,
        config_url,
        fallback_configs: Vec::new(),
        connection_timeout: None,
    };
    assert(config@.fallback_configs =~= Seq::empty());
    config
}

/// Traces are asked for where it was chosen, and where nothing was, at the service of the
/// network.
pub proof fn law_chosen_endpoint_is_asked(chosen: Seq<char>, testnet: bool)
    ensures
        trace_endpoint(Some(chosen), testnet) == chosen,
        trace_endpoint(None, true) == "https://testnet.tonapi.io"@,
        trace_endpoint(None, false) == "https://tonapi.io"@,
{
}

/// A digit more makes a number ten times as large, and that digit larger.
pub proof fn law_numbers_grow_by_digits(digits: Seq<char>, digit: char, n: nat)
    requires
        number_of(digits) == Some(n),
        '0' <= digit <= '9',
    ensures
        number_of(digits.push(digit)) == Some((10 * n + (digit as int - '0' as int)) as nat),
        number_of(seq![digit]) == Some((digit as int - '0' as int) as nat),
{
    assert(digits.push(digit).drop_last() =~= digits);
}

} // verus!
