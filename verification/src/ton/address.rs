//! TON account addresses.
use vstd::prelude::*;
use vstd::string::StringSliceAdditionalSpecFns;

use crate::utils::text::prefixed;

verus! {

/// An account: the chain that it lives on, and its hash.
#[derive(Debug)]
pub struct AccountAddress {
    pub workchain: i32,
    pub hash_part: Vec<u8>,
}

/// [`AccountAddress`] by its bytes.
#[verifier::ext_equal]
pub struct AccountAddressView {
    pub workchain: i32,
    pub hash_part: Seq<u8>,
}

impl View for AccountAddress {
    type V = AccountAddressView;

    open spec fn view(&self) -> AccountAddressView {
        AccountAddressView { workchain: self.workchain, hash_part: self.hash_part@ }
    }
}

/// A parse result by its views.
pub open spec fn address_result(result: Result<AccountAddress, String>) -> Result<
    AccountAddressView,
    Seq<char>,
> {
    match result {
        Ok(address) => Ok(address@),
        Err(e) => Err(e@),
    }
}

/// What `tonlib_core::TonAddress::from_base64_url` reads from a text: the account, or the text
/// of its error.
pub uninterp spec fn address_of_text(text: Seq<char>) -> Result<AccountAddressView, Seq<char>>;

/// Reads an address from its url-safe base64 form.
///
/// Trusted: `tonlib_core::TonAddress::from_base64_url` depends on the text alone. It refuses a
/// text that is not of forty-eight bytes, and an address that it accepts has a chain number of
/// one signed byte and a hash of thirty-two bytes.
#[verifier::external_body]
fn from_base64_url(text: &str) -> (result: Result<AccountAddress, String>)
    ensures
        address_result(result) == address_of_text(text@),
        text.spec_bytes().len() != 48 ==> result is Err,
        result matches Ok(address) ==> -128 <= address.workchain <= 127,
        result matches Ok(address) ==> address.hash_part@.len() == 32,
{
    match tonlib_core::TonAddress::from_base64_url(text) {
        Ok(a) => Ok(AccountAddress { workchain: a.workchain, hash_part: a.hash_part.to_vec() }),
        Err(e) => Err(e.to_string()),
    }
}

/// The text is an address.
pub open spec fn is_address(text: Seq<char>) -> bool {
    address_of_text(text) is Ok
}

/// What a text comes to when an address is expected.
pub open spec fn checked_address(text: Seq<char>) -> Result<AccountAddressView, Seq<char>> {
    match address_of_text(text) {
        Ok(address) => Ok(address),
        Err(e) => Err("Invalid TON address: "@ + e),
    }
}

/// Reads an address, or says why the text is none.
pub fn parse_address(text: &str) -> (result: Result<AccountAddress, String>)
    ensures
        address_result(result) == checked_address(text@),
        text.spec_bytes().len() != 48 ==> result is Err,
        result matches Ok(address) ==> -128 <= address.workchain <= 127
            && address.hash_part@.len() == 32,
{
    match from_base64_url(text) {
        Ok(address) => Ok(address),
        Err(e) => Err(prefixed("Invalid TON address: ", &e)),
    }
}

/// A text is taken for an address exactly where it is one, and then for the account that it
/// names; else the refusal gives the reason.
pub proof fn law_addresses_are_taken_as_they_are(text: Seq<char>)
    ensures
        is_address(text) <==> checked_address(text) is Ok,
        match address_of_text(text) {
            Ok(account) => checked_address(text) == Ok::<AccountAddressView, Seq<char>>(account),
            Err(e) => checked_address(text) == Err::<AccountAddressView, Seq<char>>(
                "Invalid TON address: "@ + e,
            ),
        },
{
}

/// An account is spoken of by its chain and all bytes of its hash.
pub proof fn law_account_is_shown_whole(address: AccountAddress, error: String)
    ensures
        address@.workchain == address.workchain,
        address@.hash_part == address.hash_part@,
        address_result(Ok(address)) == Ok::<AccountAddressView, Seq<char>>(address@),
        address_result(Err(error)) == Err::<AccountAddressView, Seq<char>>(error@),
{
}

} // verus!
