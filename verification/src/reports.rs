//! What the service answers over plain HTTP.
use vstd::prelude::*;

use crate::subscription::laws::{consistent, law_counts_add_up, total_count};
use crate::subscription::manager::{
    count_list, ManagerView, SubscriptionManager, SubscriptionStats,
};
use crate::subscription::store::lists_all;
use crate::ton::address::{checked_address, parse_address};
use crate::utils::json::{
    as_text, at, int_json, json_fields, law_later_field_counts, law_missing_field_is_null,
    push_field, Json, JsonNumberView, JsonView,
};
use crate::utils::text::prefixed;

verus! {

/// The state of the service: healthy while the network answers with its last block.
pub open spec fn health_report(
    last_block: Result<i32, String>,
    subscriptions: nat,
    monitored_addresses: nat,
    timestamp: i64,
) -> JsonView {
    JsonView::Object(
        seq![
            (
                "status"@,
                JsonView::Text(
                    if last_block is Ok {
                        "healthy"@
                    } else {
                        "degraded"@
                    },
                ),
            ),
            ("ton_connected"@, JsonView::Bool(last_block is Ok)),
            (
                "last_block_seqno"@,
                match last_block {
                    Ok(seqno) => int_json(seqno as int),
                    Err(_) => JsonView::Null,
                },
            ),
            (
                "error"@,
                match last_block {
                    Ok(_) => JsonView::Null,
                    Err(e) => JsonView::Text(e@),
                },
            ),
            ("subscriptions"@, int_json(subscriptions as int)),
            ("monitored_addresses"@, int_json(monitored_addresses as int)),
            ("timestamp"@, int_json(timestamp as int)),
        ],
    )
}

/// Tells how the service is. `last_block` is the number of the last block, or why it could not
/// be found out.
pub fn health_check(
    last_block: Result<i32, String>,
    manager: &SubscriptionManager,
    timestamp: i64,
) -> (report: Json)
    ensures
        report@ == health_report(
            last_block,
            manager@.subscriptions.len(),
            manager@.addresses.len(),
            timestamp,
        ),
{
    let ghost asked = last_block;
    let (status, connected, seqno, error) = match last_block {
        Ok(seqno) => ("healthy", true, Json::from_integer(seqno as i64), Json::Null),
        Err(e) => ("degraded", false, Json::Null, Json::Text(e)),
    };
    let mut fields: Vec<(String, Json)> = Vec::new();
    push_field(&mut fields, "status", Json::Text(status.to_owned()));
    push_field(&mut fields, "ton_connected", Json::Bool(connected));
    push_field(&mut fields, "last_block_seqno", seqno);
    push_field(&mut fields, "error", error);
    push_field(&mut fields, "subscriptions", Json::from_count(manager.get_subscription_count()));
    push_field(
        &mut fields,
        "monitored_addresses",
        Json::from_count(manager.get_monitored_addresses_count()),
    );
    push_field(&mut fields, "timestamp", Json::from_integer(timestamp));
    assert(json_fields(fields@) =~= health_report(
        asked,
        manager@.subscriptions.len(),
        manager@.addresses.len(),
        timestamp,
    )->Object_0);
    Json::from_fields(fields)
}

/// The count of an address.
pub open spec fn address_report(count: (Seq<char>, nat)) -> JsonView {
    JsonView::Object(
        seq![
            ("address"@, JsonView::Text(count.0)),
            ("subscription_count"@, int_json(count.1 as int)),
        ],
    )
}

/// The counts of the addresses, in their order.
pub open spec fn addresses_report(counts: Seq<(Seq<char>, nat)>) -> JsonView {
    JsonView::Array(Seq::new(counts.len(), |i: int| address_report(counts[i])))
}

/// The counts of the subscriptions.
pub open spec fn stats_report(
    total: nat,
    monitored_addresses: nat,
    counts: Seq<(Seq<char>, nat)>,
    timestamp: i64,
) -> JsonView {
    JsonView::Object(
        seq![
            (
                "subscriptions"@,
                JsonView::Object(
                    seq![
                        ("total"@, int_json(total as int)),
                        ("monitored_addresses"@, int_json(monitored_addresses as int)),
                        ("addresses"@, addresses_report(counts)),
                    ],
                ),
            ),
            ("service_status"@, JsonView::Text("running"@)),
            ("timestamp"@, int_json(timestamp as int)),
        ],
    )
}

/// Tells how many subscriptions there are, in all and by address. The addresses come in no
/// particular order.
pub fn get_stats(manager: &SubscriptionManager, timestamp: i64) -> (report: Json)
    ensures
        exists|counts: Seq<(Seq<char>, nat)>|
            #![trigger addresses_report(counts)]
            lists_all(
                counts,
                manager@.addresses.map_values(|ids: Seq<Seq<char>>| ids.len()),
            ) && report@ == stats_report(
                manager@.subscriptions.len(),
                manager@.addresses.len(),
                counts,
                timestamp,
            ),
        at(at(report@, "subscriptions"@), "addresses"@) is Array,
        shows_addresses(
            at(at(report@, "subscriptions"@), "addresses"@)->Array_0,
            manager@.addresses,
        ),
{
    let stats = manager.get_stats();
    let report = report_stats(&stats, timestamp);
    proof {
        let counts = count_list(stats.addresses@);
        lemma_stats_report(
            stats.total_subscriptions as nat,
            stats.monitored_addresses as nat,
            counts,
            timestamp,
        );
        lemma_shows_addresses(manager@.addresses, counts);
        assert(addresses_report(counts) == addresses_report(counts));
    }
    report
}

/// Tells the given counts of subscriptions.
pub fn report_stats(stats: &SubscriptionStats, timestamp: i64) -> (report: Json)
    ensures
        report@ == stats_report(
            stats.total_subscriptions as nat,
            stats.monitored_addresses as nat,
            count_list(stats.addresses@),
            timestamp,
        ),
{
    let ghost counts = count_list(stats.addresses@);
    let mut addresses: Vec<Json> = Vec::new();
    for i in 0..stats.addresses.len()
        invariant
            counts == count_list(stats.addresses@),
            addresses@.len() == i,
            forall|j: int|
                0 <= j < i ==> (#[trigger] addresses@[j])@ == address_report(counts[j]),
    {
        let address = &stats.addresses[i];
        let mut fields: Vec<(String, Json)> = Vec::new();
        push_field(&mut fields, "address", Json::Text(address.address.clone()));
        push_field(
            &mut fields,
            "subscription_count",
            Json::from_count(address.subscription_count),
        );
        assert(json_fields(fields@) =~= address_report(counts[i as int])->Object_0);
        addresses.push(Json::from_fields(fields));
    }
    let addresses = Json::Array(addresses);
    assert(addresses@->Array_0 =~= addresses_report(counts)->Array_0);
    let mut counted: Vec<(String, Json)> = Vec::new();
    push_field(&mut counted, "total", Json::from_count(stats.total_subscriptions));
    push_field(
        &mut counted,
        "monitored_addresses",
        Json::from_count(stats.monitored_addresses),
    );
    push_field(&mut counted, "addresses", addresses);
    let ghost expected = stats_report(
        stats.total_subscriptions as nat,
        stats.monitored_addresses as nat,
        counts,
        timestamp,
    );
    assert(json_fields(counted@) =~= expected->Object_0[0].1->Object_0);
    let mut fields: Vec<(String, Json)> = Vec::new();
    push_field(&mut fields, "subscriptions", Json::from_fields(counted));
    push_field(&mut fields, "service_status", Json::Text("running".to_owned()));
    push_field(&mut fields, "timestamp", Json::from_integer(timestamp));
    assert(json_fields(fields@) =~= expected->Object_0);
    Json::from_fields(fields)
}

/// What follows from a request to validate an address.
#[derive(Debug)]
pub enum ValidationStep {
    /// This is the answer.
    Done(Json),
    /// The text is an address: whether its account is there has to be found out first.
    CheckActive(String),
}

/// The answer to a request that holds no address, for the given reason.
pub open spec fn invalid_report(error: Seq<char>) -> JsonView {
    JsonView::Object(
        seq![("valid"@, JsonView::Bool(false)), ("error"@, JsonView::Text(error))],
    )
}

/// The answer for an address, by whether its account is there.
pub open spec fn valid_report(address: Seq<char>, active: Result<bool, String>) -> JsonView {
    JsonView::Object(
        seq![
            ("valid"@, JsonView::Bool(true)),
            ("address"@, JsonView::Text(address)),
            ("active"@, JsonView::Bool(active == Ok::<bool, String>(true))),
            match active {
                Ok(true) => ("note"@, JsonView::Null),
                Ok(false) => (
                    "note"@,
                    JsonView::Text(
                        "Address format is valid but account may not exist or have unknown contract type"@,
                    ),
                ),
                Err(e) => (
                    "error"@,
                    JsonView::Text("Could not check account status: "@ + e@),
                ),
            },
        ],
    )
}

/// Tells that a request holds no address.
fn report_invalid(error: String) -> (report: Json)
    ensures
        report@ == invalid_report(error@),
{
    let mut fields: Vec<(String, Json)> = Vec::new();
    push_field(&mut fields, "valid", Json::Bool(false));
    push_field(&mut fields, "error", Json::Text(error));
    assert(json_fields(fields@) =~= invalid_report(error@)->Object_0);
    Json::from_fields(fields)
}

/// Takes a request to validate an address.
pub fn validate_address(payload: &Json) -> (step: ValidationStep)
    ensures
        match as_text(at(payload@, "address"@)) {
            None => step matches ValidationStep::Done(report) && report@ == invalid_report(
                "Missing address field"@,
            ),
            Some(text) => match checked_address(text) {
                Ok(_) => step matches ValidationStep::CheckActive(address) && address@ == text,
                Err(e) => step matches ValidationStep::Done(report) && report@ == invalid_report(e),
            },
        },
{
    let address = match payload.text_at("address") {
        Some(address) => address,
        None => {
            return ValidationStep::Done(report_invalid("Missing address field".to_owned()));
        },
    };
    match parse_address(&address) {
        Ok(_) => ValidationStep::CheckActive(address),
        Err(e) => ValidationStep::Done(report_invalid(e)),
    }
}

/// Answers a request to validate an address, once it is known whether its account is there, or
/// why that could not be found out.
pub fn finish_validation(address: String, active: Result<bool, String>) -> (report: Json)
    ensures
        report@ == valid_report(address@, active),
{
    let ghost asked = active;
    let ghost text = address@;
    let (is_active, name, value) = match active {
        Ok(true) => (true, "note", Json::Null),
        Ok(false) => (
            false,
            "note",
            Json::Text(
                "Address format is valid but account may not exist or have unknown contract type".to_owned(),
            ),
        ),
        Err(e) => (
            false,
            "error",
            Json::Text(prefixed("Could not check account status: ", &e)),
        ),
    };
    let mut fields: Vec<(String, Json)> = Vec::new();
    push_field(&mut fields, "valid", Json::Bool(true));
    push_field(&mut fields, "address", Json::Text(address));
    push_field(&mut fields, "active", Json::Bool(is_active));
    push_field(&mut fields, name, value);
    assert(json_fields(fields@) =~= valid_report(text, asked)->Object_0);
    Json::from_fields(fields)
}

/// The document is this number.
pub open spec fn is_number(json: JsonView, n: int) -> bool {
    match json {
        JsonView::Number(JsonNumberView::Unsigned(m)) => n == m,
        JsonView::Number(JsonNumberView::Negative(m)) => n == m,
        _ => false,
    }
}

/// The number that a document is, or zero.
pub open spec fn number_in(json: JsonView) -> int {
    match json {
        JsonView::Number(JsonNumberView::Unsigned(m)) => m as int,
        JsonView::Number(JsonNumberView::Negative(m)) => m as int,
        _ => 0,
    }
}

/// The health report says that the service is healthy exactly where the network answered with a
/// block, and shows the number of that block or else the error, the counts and the time.
pub proof fn law_health_shows_what_is_known(
    last_block: Result<i32, String>,
    subscriptions: u64,
    monitored_addresses: u64,
    timestamp: i64,
)
    ensures
        ({
            let report = health_report(
                last_block,
                subscriptions as nat,
                monitored_addresses as nat,
                timestamp,
            );
            &&& match last_block {
                Ok(seqno) => {
                    &&& at(report, "status"@) == JsonView::Text("healthy"@)
                    &&& at(report, "ton_connected"@) == JsonView::Bool(true)
                    &&& is_number(at(report, "last_block_seqno"@), seqno as int)
                    &&& at(report, "error"@) == JsonView::Null
                },
                Err(e) => {
                    &&& at(report, "status"@) == JsonView::Text("degraded"@)
                    &&& at(report, "ton_connected"@) == JsonView::Bool(false)
                    &&& at(report, "last_block_seqno"@) == JsonView::Null
                    &&& at(report, "error"@) == JsonView::Text(e@)
                },
            }
            &&& is_number(at(report, "subscriptions"@), subscriptions as int)
            &&& is_number(at(report, "monitored_addresses"@), monitored_addresses as int)
            &&& is_number(at(report, "timestamp"@), timestamp as int)
        }),
{
    reveal_strlit("status");
    reveal_strlit("ton_connected");
    reveal_strlit("last_block_seqno");
    reveal_strlit("error");
    reveal_strlit("subscriptions");
    reveal_strlit("monitored_addresses");
    reveal_strlit("timestamp");
    let fields = health_report(
        last_block,
        subscriptions as nat,
        monitored_addresses as nat,
        timestamp,
    )->Object_0;
    assert("ton_connected"@[0] != "subscriptions"@[0]);
    assert(fields.len() == 7);
    assert(fields[0].0 == "status"@);
    assert(fields[1].0 == "ton_connected"@);
    assert(fields[2].0 == "last_block_seqno"@);
    assert(fields[3].0 == "error"@);
    assert(fields[4].0 == "subscriptions"@);
    assert(fields[5].0 == "monitored_addresses"@);
    assert(fields[6].0 == "timestamp"@);
    law_later_field_counts(fields, "status"@, 0);
    law_later_field_counts(fields, "ton_connected"@, 1);
    law_later_field_counts(fields, "last_block_seqno"@, 2);
    law_later_field_counts(fields, "error"@, 3);
    law_later_field_counts(fields, "subscriptions"@, 4);
    law_later_field_counts(fields, "monitored_addresses"@, 5);
    law_later_field_counts(fields, "timestamp"@, 6);
}

/// What stands where in the report of the counts.
proof fn lemma_stats_report(
    total: nat,
    monitored_addresses: nat,
    counts: Seq<(Seq<char>, nat)>,
    timestamp: i64,
)
    ensures
        ({
            let report = stats_report(total, monitored_addresses, counts, timestamp);
            let counted = at(report, "subscriptions"@);
            &&& at(counted, "total"@) == int_json(total as int)
            &&& at(counted, "monitored_addresses"@) == int_json(monitored_addresses as int)
            &&& at(counted, "addresses"@) == addresses_report(counts)
            &&& at(report, "service_status"@) == JsonView::Text("running"@)
            &&& at(report, "timestamp"@) == int_json(timestamp as int)
        }),
        forall|count: (Seq<char>, nat)|
            {
                &&& at(#[trigger] address_report(count), "address"@) == JsonView::Text(count.0)
                &&& at(address_report(count), "subscription_count"@) == int_json(count.1 as int)
            },
{
    reveal_strlit("subscriptions");
    reveal_strlit("service_status");
    reveal_strlit("timestamp");
    reveal_strlit("total");
    reveal_strlit("monitored_addresses");
    reveal_strlit("addresses");
    reveal_strlit("address");
    reveal_strlit("subscription_count");
    let fields = stats_report(total, monitored_addresses, counts, timestamp)->Object_0;
    assert(fields.len() == 3);
    assert(fields[0].0 == "subscriptions"@);
    assert(fields[1].0 == "service_status"@);
    assert(fields[2].0 == "timestamp"@);
    law_later_field_counts(fields, "subscriptions"@, 0);
    law_later_field_counts(fields, "service_status"@, 1);
    law_later_field_counts(fields, "timestamp"@, 2);
    let inner = fields[0].1->Object_0;
    assert(inner.len() == 3);
    assert(inner[0].0 == "total"@);
    assert(inner[1].0 == "monitored_addresses"@);
    assert(inner[2].0 == "addresses"@);
    law_later_field_counts(inner, "total"@, 0);
    law_later_field_counts(inner, "monitored_addresses"@, 1);
    law_later_field_counts(inner, "addresses"@, 2);
    assert forall|count: (Seq<char>, nat)| {
        &&& at(#[trigger] address_report(count), "address"@) == JsonView::Text(count.0)
        &&& at(address_report(count), "subscription_count"@) == int_json(count.1 as int)
    } by {
        let entry = address_report(count)->Object_0;
        assert(entry.len() == 2);
        assert(entry[0].0 == "address"@);
        assert(entry[1].0 == "subscription_count"@);
        law_later_field_counts(entry, "address"@, 0);
        law_later_field_counts(entry, "subscription_count"@, 1);
    }
}

/// The entry shows the address, and how many are subscribed to it.
pub open spec fn shows_address(
    entry: JsonView,
    addresses: Map<Seq<char>, Seq<Seq<char>>>,
    address: Seq<char>,
) -> bool {
    &&& at(entry, "address"@) == JsonView::Text(address)
    &&& is_number(at(entry, "subscription_count"@), addresses[address].len() as int)
}

/// The entry shows one of the addresses.
pub open spec fn shows_one_of(entry: JsonView, addresses: Map<Seq<char>, Seq<Seq<char>>>) -> bool {
    exists|address: Seq<char>| #[trigger]
        addresses.contains_key(address) && shows_address(entry, addresses, address)
}

/// The entries show each of the addresses once, and nothing else.
pub open spec fn shows_addresses(
    entries: Seq<JsonView>,
    addresses: Map<Seq<char>, Seq<Seq<char>>>,
) -> bool {
    &&& entries.len() == addresses.len()
    &&& forall|address: Seq<char>| #[trigger]
        addresses.contains_key(address) ==> exists|k: int|
            0 <= k < entries.len() && shows_address(#[trigger] entries[k], addresses, address)
    &&& forall|k: int|
        0 <= k < entries.len() ==> shows_one_of(#[trigger] entries[k], addresses)
    &&& forall|i: int, j: int|
        0 <= i < j < entries.len() ==> at(#[trigger] entries[i], "address"@) != at(
            #[trigger] entries[j],
            "address"@,
        )
}

/// The sum of the counts of the entries.
pub open spec fn counted_in(entries: Seq<JsonView>) -> int
    decreases entries.len(),
{
    if entries.len() == 0 {
        0
    } else {
        counted_in(entries.drop_last()) + number_in(
            at(entries.last(), "subscription_count"@),
        )
    }
}

/// Counts that list all addresses are shown as entries that show all addresses.
proof fn lemma_shows_addresses(
    addresses: Map<Seq<char>, Seq<Seq<char>>>,
    counts: Seq<(Seq<char>, nat)>,
)
    requires
        lists_all(counts, addresses.map_values(|ids: Seq<Seq<char>>| ids.len())),
        forall|k: int| 0 <= k < counts.len() ==> (#[trigger] counts[k]).1 <= u64::MAX,
    ensures
        addresses_report(counts) is Array,
        shows_addresses(addresses_report(counts)->Array_0, addresses),
{
    let by_address = addresses.map_values(|ids: Seq<Seq<char>>| ids.len());
    let entries = addresses_report(counts)->Array_0;
    lemma_stats_report(0, 0, counts, 0);
    let names = Seq::new(counts.len(), |i: int| counts[i].0);
    assert(names.no_duplicates()) by {
        assert forall|i: int, j: int|
            0 <= i < names.len() && 0 <= j < names.len() && i != j implies names[i]
            != names[j] by {
            if i < j {
                assert(counts[i].0 != counts[j].0);
            } else {
                assert(counts[j].0 != counts[i].0);
            }
        }
    }
    assert forall|a: Seq<char>| #[trigger] names.to_set().contains(a) <==> addresses.dom().contains(
        a,
    ) by {
        if names.to_set().contains(a) {
            let i = choose|i: int| 0 <= i < names.len() && names[i] == a;
            assert(by_address.contains_key(counts[i].0));
        }
        if addresses.dom().contains(a) {
            assert(by_address.contains_key(a));
            let i = choose|i: int| 0 <= i < counts.len() && (#[trigger] counts[i]).0 == a;
            assert(names[i] == a);
        }
    }
    assert(names.to_set() =~= addresses.dom());
    names.unique_seq_to_set();
    assert forall|k: int| 0 <= k < entries.len() implies {
        &&& addresses.contains_key(counts[k].0)
        &&& shows_address(#[trigger] entries[k], addresses, counts[k].0)
    } by {
        assert(by_address.contains_key(counts[k].0));
        assert(entries[k] == address_report(counts[k]));
        assert(counts[k].1 == addresses[counts[k].0].len());
    }
    assert forall|address: Seq<char>| #[trigger] addresses.contains_key(address) implies exists|
        k: int,
    |
        0 <= k < entries.len() && shows_address(#[trigger] entries[k], addresses, address) by {
        assert(by_address.contains_key(address));
        let k = choose|k: int| 0 <= k < counts.len() && (#[trigger] counts[k]).0 == address;
        assert(shows_address(entries[k], addresses, address));
    }
    assert forall|k: int| 0 <= k < entries.len() implies shows_one_of(
        #[trigger] entries[k],
        addresses,
    ) by {
        assert(addresses.contains_key(counts[k].0));
        assert(shows_address(entries[k], addresses, counts[k].0));
    }
    assert forall|i: int, j: int| 0 <= i < j < entries.len() implies at(
        #[trigger] entries[i],
        "address"@,
    ) != at(#[trigger] entries[j], "address"@) by {
        assert(counts[i].0 != counts[j].0);
        assert(entries[i] == address_report(counts[i]));
        assert(entries[j] == address_report(counts[j]));
    }
}

/// No count is more than the sum.
proof fn lemma_count_in_total(counts: Seq<(Seq<char>, nat)>, k: int)
    requires
        0 <= k < counts.len(),
    ensures
        counts[k].1 <= total_count(counts),
    decreases counts.len(),
{
    if k < counts.len() - 1 {
        lemma_count_in_total(counts.drop_last(), k);
    }
}

/// The entries add up to the sum of the counts.
proof fn lemma_counted_in(counts: Seq<(Seq<char>, nat)>)
    requires
        forall|k: int| 0 <= k < counts.len() ==> (#[trigger] counts[k]).1 <= u64::MAX,
    ensures
        counted_in(addresses_report(counts)->Array_0) == total_count(counts),
    decreases counts.len(),
{
    if counts.len() > 0 {
        let earlier = counts.drop_last();
        assert forall|k: int| 0 <= k < earlier.len() implies (#[trigger] earlier[k]).1
            <= u64::MAX by {
            assert(counts[k].1 <= u64::MAX);
        }
        lemma_counted_in(earlier);
        lemma_stats_report(0, 0, counts, 0);
        let entries = addresses_report(counts)->Array_0;
        assert(entries.drop_last() =~= addresses_report(earlier)->Array_0);
        assert(entries.last() == address_report(counts.last()));
        assert(counts[counts.len() - 1].1 <= u64::MAX);
    }
}

/// The report of the counts shows each address that has subscriptions once, with as many as it
/// has, and nothing else. The counts that it shows add up to the total that it shows, which is
/// that of all subscriptions.
pub proof fn law_stats_show_every_address(
    state: ManagerView,
    counts: Seq<(Seq<char>, nat)>,
    timestamp: i64,
)
    requires
        consistent(state),
        state.subscriptions.len() <= u64::MAX,
        state.addresses.len() <= u64::MAX,
        lists_all(counts, state.addresses.map_values(|ids: Seq<Seq<char>>| ids.len())),
    ensures
        ({
            let report = stats_report(
                state.subscriptions.len(),
                state.addresses.len(),
                counts,
                timestamp,
            );
            let counted = at(report, "subscriptions"@);
            &&& is_number(at(counted, "total"@), state.subscriptions.len() as int)
            &&& is_number(at(counted, "monitored_addresses"@), state.addresses.len() as int)
            &&& at(counted, "addresses"@) is Array
            &&& shows_addresses(at(counted, "addresses"@)->Array_0, state.addresses)
            &&& counted_in(at(counted, "addresses"@)->Array_0) == state.subscriptions.len()
            &&& at(report, "service_status"@) == JsonView::Text("running"@)
            &&& is_number(at(report, "timestamp"@), timestamp as int)
        }),
{
    law_counts_add_up(state, counts);
    assert forall|k: int| 0 <= k < counts.len() implies (#[trigger] counts[k]).1 <= u64::MAX by {
        lemma_count_in_total(counts, k);
    }
    lemma_stats_report(state.subscriptions.len(), state.addresses.len(), counts, timestamp);
    lemma_shows_addresses(state.addresses, counts);
    lemma_counted_in(counts);
}

/// The answer to a request that holds no address says so, and why.
pub proof fn law_invalid_answer_says_why(error: Seq<char>)
    ensures
        at(invalid_report(error), "valid"@) == JsonView::Bool(false),
        at(invalid_report(error), "error"@) == JsonView::Text(error),
        at(invalid_report(error), "address"@) == JsonView::Null,
        at(invalid_report(error), "active"@) == JsonView::Null,
{
    reveal_strlit("valid");
    reveal_strlit("error");
    reveal_strlit("address");
    reveal_strlit("active");
    let fields = invalid_report(error)->Object_0;
    assert(fields.len() == 2);
    assert(fields[0].0 == "valid"@);
    assert(fields[1].0 == "error"@);
    assert("valid"@[0] != "error"@[0]);
    law_later_field_counts(fields, "valid"@, 0);
    law_later_field_counts(fields, "error"@, 1);
    law_missing_field_is_null(invalid_report(error), "address"@);
    law_missing_field_is_null(invalid_report(error), "active"@);
}

/// The answer for an address says that it is valid and repeats it, says that it is active exactly
/// where its account is known to be there, and tells why it may not be, or why that could not be
/// found out.
pub proof fn law_valid_answer_says_what_is_known(address: Seq<char>, active: Result<bool, String>)
    ensures
        ({
            let report = valid_report(address, active);
            &&& at(report, "valid"@) == JsonView::Bool(true)
            &&& at(report, "address"@) == JsonView::Text(address)
            &&& match active {
                Ok(there) => {
                    &&& at(report, "active"@) == JsonView::Bool(there)
                    &&& at(report, "error"@) == JsonView::Null
                    &&& there ==> at(report, "note"@) == JsonView::Null
                    &&& !there ==> at(report, "note"@) == JsonView::Text(
                        "Address format is valid but account may not exist or have unknown contract type"@,
                    )
                },
                Err(e) => {
                    &&& at(report, "active"@) == JsonView::Bool(false)
                    &&& at(report, "note"@) == JsonView::Null
                    &&& at(report, "error"@) == JsonView::Text(
                        "Could not check account status: "@ + e@,
                    )
                },
            }
        }),
{
    reveal_strlit("valid");
    reveal_strlit("error");
    reveal_strlit("address");
    reveal_strlit("active");
    reveal_strlit("note");
    let report = valid_report(address, active);
    let fields = report->Object_0;
    assert("valid"@[0] != "error"@[0]);
    assert(fields.len() == 4);
    assert(fields[0].0 == "valid"@);
    assert(fields[1].0 == "address"@);
    assert(fields[2].0 == "active"@);
    assert(fields[3].0 == "note"@ || fields[3].0 == "error"@);
    law_later_field_counts(fields, "valid"@, 0);
    law_later_field_counts(fields, "address"@, 1);
    law_later_field_counts(fields, "active"@, 2);
    match active {
        Ok(there) => {
            law_later_field_counts(fields, "note"@, 3);
            law_missing_field_is_null(report, "error"@);
        },
        Err(e) => {
            law_later_field_counts(fields, "error"@, 3);
            law_missing_field_is_null(report, "note"@);
        },
    }
}

} // verus!
