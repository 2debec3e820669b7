//! Watching addresses for new transactions.
use vstd::prelude::*;

use crate::ton::address::{checked_address, is_address, parse_address};
use crate::utils::ids::is_hex_digit;
use crate::utils::text::{texts, unit_result};

verus! {

/// A new transaction of a watched address.
#[derive(Debug, Clone)]
pub struct TransactionEvent {
    pub address: String,
    pub transaction_hash: String,
    pub logical_time: u64,
    pub timestamp: u32,
}

/// [`TransactionEvent`] by its characters.
#[verifier::ext_equal]
pub struct TransactionEventView {
    pub address: Seq<char>,
    pub transaction_hash: Seq<char>,
    pub logical_time: u64,
    pub timestamp: u32,
}

impl View for TransactionEvent {
    type V = TransactionEventView;

    open spec fn view(&self) -> TransactionEventView {
        TransactionEventView {
            address: self.address@,
            transaction_hash: self.transaction_hash@,
            logical_time: self.logical_time,
            timestamp: self.timestamp,
        }
    }
}

/// A list of events by their views.
pub open spec fn transaction_event_list(events: Seq<TransactionEvent>) -> Seq<
    TransactionEventView,
> {
    Seq::new(events.len(), |i: int| events[i]@)
}

/// What is read of a transaction of an account.
#[derive(Debug)]
pub struct RawTransaction {
    /// Logical time.
    pub lt: i64,
    pub hash: Vec<u8>,
    /// Unix time in seconds.
    pub utime: i64,
}

/// [`RawTransaction`] by its bytes.
#[verifier::ext_equal]
pub struct RawTransactionView {
    pub lt: i64,
    pub hash: Seq<u8>,
    pub utime: i64,
}

impl View for RawTransaction {
    type V = RawTransactionView;

    open spec fn view(&self) -> RawTransactionView {
        RawTransactionView { lt: self.lt, hash: self.hash@, utime: self.utime }
    }
}

/// A list of transactions by their views.
pub open spec fn transaction_list(transactions: Seq<RawTransaction>) -> Seq<RawTransactionView> {
    Seq::new(transactions.len(), |i: int| transactions[i]@)
}

/// A question for transactions of an address.
#[derive(Debug)]
pub struct TransactionQuery {
    pub address: String,
    /// The logical time that the address was seen up to.
    pub last_lt: i64,
    /// Where to start, if anywhere in particular.
    pub from_lt: Option<u64>,
    pub limit: u32,
}

/// [`TransactionQuery`] by its characters.
#[verifier::ext_equal]
pub struct TransactionQueryView {
    pub address: Seq<char>,
    pub last_lt: i64,
    pub from_lt: Option<u64>,
    pub limit: u32,
}

impl View for TransactionQuery {
    type V = TransactionQueryView;

    open spec fn view(&self) -> TransactionQueryView {
        TransactionQueryView {
            address: self.address@,
            last_lt: self.last_lt,
            from_lt: self.from_lt,
            limit: self.limit,
        }
    }
}

/// A watched address.
#[derive(Debug)]
struct AddressMonitor {
    address: String,
    last_lt: i64,
    last_check: u64,
    subscription_count: u32,
}

/// How an address is watched: the logical time that it was seen up to, the clock at the last
/// new transaction or at the start, and how many asked for it.
#[verifier::ext_equal]
pub struct WatchView {
    pub last_lt: i64,
    pub last_check: u64,
    pub subscription_count: u32,
}

impl AddressMonitor {
    spec fn watch(self) -> WatchView {
        WatchView {
            last_lt: self.last_lt,
            last_check: self.last_check,
            subscription_count: self.subscription_count,
        }
    }
}

/// The watched addresses, and the seconds between two checks.
#[verifier::ext_equal]
pub struct MonitorView {
    pub addresses: Map<Seq<char>, WatchView>,
    pub polling_interval: u64,
}

/// A lower-case hexadecimal digit for a number below sixteen.
pub open spec fn hex_digit(n: u8) -> char {
    if n < 10 {
        ('0' as u8 + n) as char
    } else {
        ('a' as u8 + (n - 10)) as char
    }
}

/// Two hexadecimal digits for each byte.
pub open spec fn hex_text(bytes: Seq<u8>) -> Seq<char> {
    Seq::new(
        2 * bytes.len(),
        |i: int|
            if i % 2 == 0 {
                hex_digit(bytes[i / 2] / 16)
            } else {
                hex_digit(bytes[i / 2] % 16)
            },
    )
}

/// Writes bytes as lower-case hexadecimal digits.
///
/// Trusted: `hex::encode` writes two lower-case digits for each byte, in order.
#[verifier::external_body]
fn hex_encode(bytes: &Vec<u8>) -> (text: String)
    ensures
        text@ == hex_text(bytes@),
{
    hex::encode(bytes)
}

/// A signed number of sixty-four bits, read as an unsigned one.
pub open spec fn bits_of(n: i64) -> u64 {
    if n >= 0 {
        n as u64
    } else {
        (n + 0x1_0000_0000_0000_0000) as u64
    }
}

/// The low thirty-two bits of a signed number.
pub open spec fn low_bits_of(n: i64) -> u32 {
    (n % 0x1_0000_0000) as u32
}

/// A signed number of sixty-four bits, read as an unsigned one.
fn reread_u64(n: i64) -> (bits: u64)
    ensures
        bits == bits_of(n),
{
    assert(n < 0 ==> n as u64 == (n + 0x1_0000_0000_0000_0000) as u64) by (bit_vector);
    #[verifier::truncate]
    (n as u64)
}

/// The low thirty-two bits of a signed number.
fn truncate_time(n: i64) -> (bits: u32)
    ensures
        bits == low_bits_of(n),
{
    assert(n as u32 == (n % 0x1_0000_0000) as u32) by (bit_vector);
    #[verifier::truncate]
    (n as u32)
}

/// The transactions after a logical time, in their order.
pub open spec fn newer(transactions: Seq<RawTransactionView>, last_lt: i64) -> Seq<
    RawTransactionView,
> {
    transactions.filter(|tx: RawTransactionView| tx.lt > last_lt)
}

/// The latest logical time of the transactions, or `last_lt` if none is later.
pub open spec fn latest(transactions: Seq<RawTransactionView>, last_lt: i64) -> i64
    decreases transactions.len(),
{
    if transactions.len() == 0 {
        last_lt
    } else {
        let before = latest(transactions.drop_last(), last_lt);
        if transactions.last().lt > before {
            transactions.last().lt
        } else {
            before
        }
    }
}

/// The event for a transaction of an address.
pub open spec fn event_of(address: Seq<char>, tx: RawTransactionView) -> TransactionEventView {
    TransactionEventView {
        address,
        transaction_hash: hex_text(tx.hash),
        logical_time: bits_of(tx.lt),
        timestamp: low_bits_of(tx.utime),
    }
}

/// The events for transactions of an address, in their order.
pub open spec fn events_of(address: Seq<char>, transactions: Seq<RawTransactionView>) -> Seq<
    TransactionEventView,
> {
    Seq::new(transactions.len(), |i: int| event_of(address, transactions[i]))
}

/// The state once transactions of an address, seen up to `last_lt`, have been looked at.
pub open spec fn checked(
    state: MonitorView,
    address: Seq<char>,
    last_lt: i64,
    transactions: Seq<RawTransactionView>,
    now: u64,
) -> MonitorView {
    if newer(transactions, last_lt).len() > 0 && state.addresses.contains_key(address) {
        MonitorView {
            addresses: state.addresses.insert(
                address,
                WatchView {
                    last_lt: latest(transactions, last_lt),
                    last_check: now,
                    ..state.addresses[address]
                },
            ),
            ..state
        }
    } else {
        state
    }
}

/// The logical time of the first transaction, or zero where there is none.
pub open spec fn first_lt(transactions: Result<Vec<RawTransaction>, String>) -> i64 {
    match transactions {
        Ok(list) => if list@.len() > 0 {
            list@[0].lt
        } else {
            0
        },
        Err(_) => 0,
    }
}

/// One more can still ask for the address.
pub open spec fn has_room(state: MonitorView, address: Seq<char>) -> bool {
    state.addresses.contains_key(address) ==> state.addresses[address].subscription_count
        < u32::MAX
}

/// The state once an address is asked for: one more for an address that is watched, else a new
/// one that counts as seen up to `last_lt`.
pub open spec fn watched(
    state: MonitorView,
    address: Seq<char>,
    last_lt: i64,
    now: u64,
) -> MonitorView {
    let watch = if state.addresses.contains_key(address) {
        let before = state.addresses[address];
        WatchView { subscription_count: (before.subscription_count + 1) as u32, ..before }
    } else {
        WatchView { last_lt, last_check: now, subscription_count: 1 }
    };
    MonitorView { addresses: state.addresses.insert(address, watch), ..state }
}

/// The state once one who asked for an address gives it up: the address goes with the last of
/// them.
pub open spec fn unwatched(state: MonitorView, address: Seq<char>) -> MonitorView {
    if !state.addresses.contains_key(address) {
        state
    } else if state.addresses[address].subscription_count <= 1 {
        MonitorView { addresses: state.addresses.remove(address), ..state }
    } else {
        let before = state.addresses[address];
        let watch = WatchView {
            subscription_count: (before.subscription_count - 1) as u32,
            ..before
        };
        MonitorView { addresses: state.addresses.insert(address, watch), ..state }
    }
}

/// The question for what is new at a watched address.
pub open spec fn poll_query(address: Seq<char>, watch: WatchView) -> TransactionQueryView {
    TransactionQueryView {
        address,
        last_lt: watch.last_lt,
        from_lt: if watch.last_lt > 0 {
            Some(watch.last_lt as u64)
        } else {
            None
        },
        limit: 15,
    }
}

/// The addresses that questions are about, in their order.
pub open spec fn asked_addresses(queries: Seq<TransactionQuery>) -> Seq<Seq<char>> {
    Seq::new(queries.len(), |i: int| queries[i].address@)
}

/// `list` holds each of `keys` once, in some order.
pub open spec fn lists_keys(list: Seq<Seq<char>>, keys: Set<Seq<char>>) -> bool {
    &&& list.no_duplicates()
    &&& list.to_set() == keys
}

/// Watches addresses on behalf of the subscriptions.
pub struct TransactionMonitor {
    monitored_addresses: Vec<AddressMonitor>,
    polling_interval: u64,
}

impl View for TransactionMonitor {
    type V = MonitorView;

    closed spec fn view(&self) -> MonitorView {
        MonitorView {
            addresses: watches(self.monitored_addresses@),
            polling_interval: self.polling_interval,
        }
    }
}

/// The watch at an address of a list.
spec fn position(monitors: Seq<AddressMonitor>, address: Seq<char>) -> int {
    choose|i: int| 0 <= i < monitors.len() && (#[trigger] monitors[i]).address@ == address
}

/// A list of watched addresses as a map.
spec fn watches(monitors: Seq<AddressMonitor>) -> Map<Seq<char>, WatchView> {
    Map::new(
        |address: Seq<char>|
            exists|i: int|
                0 <= i < monitors.len() && (#[trigger] monitors[i]).address@ == address,
        |address: Seq<char>| monitors[position(monitors, address)].watch(),
    )
}

/// No address is in the list twice.
spec fn distinct_addresses(monitors: Seq<AddressMonitor>) -> bool {
    forall|i: int, j: int|
        0 <= i < j < monitors.len() ==> (#[trigger] monitors[i]).address@ != (
        #[trigger] monitors[j]).address@
}

/// What the map says of an entry of the list.
proof fn lemma_watch_at(monitors: Seq<AddressMonitor>, i: int)
    requires
        distinct_addresses(monitors),
        0 <= i < monitors.len(),
    ensures
        watches(monitors).contains_key(monitors[i].address@),
        watches(monitors)[monitors[i].address@] == monitors[i].watch(),
        position(monitors, monitors[i].address@) == i,
{
    let p = position(monitors, monitors[i].address@);
    assert(monitors[i].address@ == monitors[i].address@);
    if p < i {
        assert(monitors[p].address@ != monitors[i].address@);
    } else if i < p {
        assert(monitors[i].address@ != monitors[p].address@);
    }
}

/// What the map says once an entry is replaced by one for the same address.
proof fn lemma_watch_update(monitors: Seq<AddressMonitor>, i: int, monitor: AddressMonitor)
    requires
        distinct_addresses(monitors),
        0 <= i < monitors.len(),
        monitor.address@ == monitors[i].address@,
    ensures
        distinct_addresses(monitors.update(i, monitor)),
        watches(monitors.update(i, monitor)) == watches(monitors).insert(
            monitor.address@,
            monitor.watch(),
        ),
{
    let after = monitors.update(i, monitor);
    assert(distinct_addresses(after)) by {
        assert forall|k: int, l: int| 0 <= k < l < after.len() implies (
        #[trigger] after[k]).address@ != (#[trigger] after[l]).address@ by {
            assert(monitors[k].address@ != monitors[l].address@);
        }
    }
    let expected = watches(monitors).insert(monitor.address@, monitor.watch());
    assert forall|address: Seq<char>| #[trigger]
        watches(after).contains_key(address) <==> expected.contains_key(address) by {
        if watches(after).contains_key(address) {
            let k = choose|k: int| 0 <= k < after.len() && (#[trigger] after[k]).address@ == address;
            lemma_watch_at(monitors, k);
        }
        if expected.contains_key(address) {
            if address == monitor.address@ {
                lemma_watch_at(after, i);
            } else {
                let k = choose|k: int|
                    0 <= k < monitors.len() && (#[trigger] monitors[k]).address@ == address;
                lemma_watch_at(after, k);
            }
        }
    }
    assert forall|address: Seq<char>| #[trigger] watches(after).contains_key(address) implies watches(
        after,
    )[address] == expected[address] by {
        let k = choose|k: int| 0 <= k < after.len() && (#[trigger] after[k]).address@ == address;
        lemma_watch_at(after, k);
        lemma_watch_at(monitors, k);
        if k != i {
            lemma_watch_at(monitors, i);
            if k < i {
                assert(monitors[k].address@ != monitors[i].address@);
            } else {
                assert(monitors[i].address@ != monitors[k].address@);
            }
        }
    }
    assert(watches(after) =~= expected);
}

/// What the map says once an address is added.
proof fn lemma_watch_push(monitors: Seq<AddressMonitor>, monitor: AddressMonitor)
    requires
        distinct_addresses(monitors),
        !watches(monitors).contains_key(monitor.address@),
    ensures
        distinct_addresses(monitors.push(monitor)),
        watches(monitors.push(monitor)) == watches(monitors).insert(
            monitor.address@,
            monitor.watch(),
        ),
{
    let after = monitors.push(monitor);
    assert(distinct_addresses(after)) by {
        assert forall|k: int, l: int| 0 <= k < l < after.len() implies (
        #[trigger] after[k]).address@ != (#[trigger] after[l]).address@ by {
            lemma_watch_at(monitors, k);
            if l < monitors.len() {
                assert(monitors[k].address@ != monitors[l].address@);
            }
        }
    }
    let expected = watches(monitors).insert(monitor.address@, monitor.watch());
    assert forall|address: Seq<char>| #[trigger]
        watches(after).contains_key(address) <==> expected.contains_key(address) by {
        if watches(after).contains_key(address) {
            let k = choose|k: int| 0 <= k < after.len() && (#[trigger] after[k]).address@ == address;
            if k < monitors.len() {
                lemma_watch_at(monitors, k);
            }
        }
        if expected.contains_key(address) {
            if address == monitor.address@ {
                lemma_watch_at(after, monitors.len() as int);
            } else {
                let k = choose|k: int|
                    0 <= k < monitors.len() && (#[trigger] monitors[k]).address@ == address;
                lemma_watch_at(after, k);
            }
        }
    }
    assert forall|address: Seq<char>| #[trigger] watches(after).contains_key(address) implies watches(
        after,
    )[address] == expected[address] by {
        let k = choose|k: int| 0 <= k < after.len() && (#[trigger] after[k]).address@ == address;
        lemma_watch_at(after, k);
        if k < monitors.len() {
            lemma_watch_at(monitors, k);
        }
    }
    assert(watches(after) =~= expected);
}

/// What the map says once an entry is taken out.
proof fn lemma_watch_remove(monitors: Seq<AddressMonitor>, i: int)
    requires
        distinct_addresses(monitors),
        0 <= i < monitors.len(),
    ensures
        distinct_addresses(monitors.remove(i)),
        watches(monitors.remove(i)) == watches(monitors).remove(monitors[i].address@),
{
    let after = monitors.remove(i);
    let gone = monitors[i].address@;
    assert(distinct_addresses(after)) by {
        assert forall|k: int, l: int| 0 <= k < l < after.len() implies (
        #[trigger] after[k]).address@ != (#[trigger] after[l]).address@ by {
            let m = if k < i { k } else { k + 1 };
            let n = if l < i { l } else { l + 1 };
            assert(monitors[m].address@ != monitors[n].address@);
        }
    }
    let expected = watches(monitors).remove(gone);
    assert forall|address: Seq<char>| #[trigger]
        watches(after).contains_key(address) <==> expected.contains_key(address) by {
        if watches(after).contains_key(address) {
            let k = choose|k: int| 0 <= k < after.len() && (#[trigger] after[k]).address@ == address;
            let m = if k < i { k } else { k + 1 };
            lemma_watch_at(monitors, m);
            if m < i {
                assert(monitors[m].address@ != monitors[i].address@);
            } else {
                assert(monitors[i].address@ != monitors[m].address@);
            }
        }
        if expected.contains_key(address) {
            let m = choose|m: int|
                0 <= m < monitors.len() && (#[trigger] monitors[m]).address@ == address;
            let k = if m < i { m } else { m - 1 };
            lemma_watch_at(after, k);
        }
    }
    assert forall|address: Seq<char>| #[trigger] watches(after).contains_key(address) implies watches(
        after,
    )[address] == expected[address] by {
        let k = choose|k: int| 0 <= k < after.len() && (#[trigger] after[k]).address@ == address;
        let m = if k < i { k } else { k + 1 };
        lemma_watch_at(after, k);
        lemma_watch_at(monitors, m);
    }
    assert(watches(after) =~= expected);
}

/// The addresses of a list.
spec fn address_list(monitors: Seq<AddressMonitor>) -> Seq<Seq<char>> {
    Seq::new(monitors.len(), |i: int| monitors[i].address@)
}

/// The addresses of the list are the keys of the map.
proof fn lemma_address_list(monitors: Seq<AddressMonitor>)
    requires
        distinct_addresses(monitors),
    ensures
        lists_keys(address_list(monitors), watches(monitors).dom()),
        watches(monitors).dom().finite(),
        watches(monitors).len() == monitors.len(),
{
    let list = address_list(monitors);
    assert(list.no_duplicates()) by {
        assert forall|i: int, j: int|
            0 <= i < list.len() && 0 <= j < list.len() && i != j implies list[i] != list[j] by {
            if i < j {
                assert(monitors[i].address@ != monitors[j].address@);
            } else {
                assert(monitors[j].address@ != monitors[i].address@);
            }
        }
    }
    assert forall|address: Seq<char>| #[trigger]
        list.to_set().contains(address) <==> watches(monitors).dom().contains(address) by {
        if list.to_set().contains(address) {
            let i = choose|i: int| 0 <= i < list.len() && list[i] == address;
            lemma_watch_at(monitors, i);
        }
        if watches(monitors).dom().contains(address) {
            let i = choose|i: int|
                0 <= i < monitors.len() && (#[trigger] monitors[i]).address@ == address;
            assert(list[i] == address);
        }
    }
    assert(list.to_set() =~= watches(monitors).dom());
    list.unique_seq_to_set();
    vstd::seq_lib::seq_to_set_is_finite(list);
}

impl TransactionMonitor {
    /// Each address is watched once, on behalf of somebody.
    pub closed spec fn wf(&self) -> bool {
        &&& distinct_addresses(self.monitored_addresses@)
        &&& forall|i: int|
            0 <= i < self.monitored_addresses@.len() ==> (
            #[trigger] self.monitored_addresses@[i]).subscription_count > 0
    }

    /// A monitor that watches nothing yet, and checks every five seconds.
    pub fn new() -> (monitor: Self)
        ensures
            monitor.wf(),
            monitor@ == (MonitorView { addresses: Map::empty(), polling_interval: 5 }),
    {
        let monitor = TransactionMonitor {
            monitored_addresses: Vec::new(),
            polling_interval: 5,
        };
        assert(monitor@.addresses =~= Map::empty());
        monitor
    }

    /// The seconds between two checks.
    pub fn polling_interval(&self) -> (seconds: u64)
        ensures
            seconds == self@.polling_interval,
    {
        self.polling_interval
    }

    /// Where an address stands in the list.
    fn find(&self, address: &str) -> (found: Option<usize>)
        requires
            self.wf(),
        ensures
            match found {
                Some(i) => i < self.monitored_addresses@.len()
                    && self.monitored_addresses@[i as int].address@ == address@,
                None => !self@.addresses.contains_key(address@),
            },
    {
        let wanted: String = address.to_owned();
        for i in 0..self.monitored_addresses.len()
            invariant
                wanted@ == address@,
                forall|j: int|
                    0 <= j < i ==> (#[trigger] self.monitored_addresses@[j]).address@ != address@,
        {
            if self.monitored_addresses[i].address == wanted {
                return Some(i);
            }
        }
        None
    }

    /// Whether the transactions of an address have to be asked for before it can be added: not
    /// where it is watched already. Fails where the text is no address.
    pub fn needs_latest(&self, address: &str) -> (result: Result<bool, String>)
        requires
            self.wf(),
        ensures
            match checked_address(address@) {
                Ok(_) => result == Ok::<bool, String>(!self@.addresses.contains_key(address@)),
                Err(e) => result is Err && result->Err_0@ == e,
            },
    {
        match parse_address(address) {
            Ok(_) => {},
            Err(e) => {
                return Err(e);
            },
        }
        match self.find(address) {
            Some(i) => {
                proof {
                    lemma_watch_at(self.monitored_addresses@, i as int);
                }
                Ok(false)
            },
            None => Ok(true),
        }
    }

    /// Whether one more can still ask for the address.
    pub fn can_add(&self, address: &str) -> (room: bool)
        requires
            self.wf(),
        ensures
            room == has_room(self@, address@),
    {
        match self.find(address) {
            Some(i) => {
                proof {
                    lemma_watch_at(self.monitored_addresses@, i as int);
                }
                self.monitored_addresses[i].subscription_count < u32::MAX
            },
            None => true,
        }
    }

    /// The question for the latest transaction of an address.
    pub fn latest_query(address: &str) -> (query: TransactionQuery)
        ensures
            query@ == (TransactionQueryView {
                address: address@,
                last_lt: 0,
                from_lt: None,
                limit: 1,
            }),
    {
        TransactionQuery { address: address.to_owned(), last_lt: 0, from_lt: None, limit: 1 }
    }

    /// The logical time of the first of the transactions that were found, or zero.
    pub fn get_last_lt_for_address(transactions: &Result<Vec<RawTransaction>, String>) -> (lt: i64)
        ensures
            lt == first_lt(*transactions),
    {
        match transactions {
            Ok(list) => if list.len() > 0 {
                list[0].lt
            } else {
                0
            },
            Err(_) => 0,
        }
    }

    /// Watches an address on behalf of one more. A new address counts as seen up to the first of
    /// `transactions`, the answer to [`TransactionMonitor::latest_query`].
    pub fn add_address(
        &mut self,
        address: String,
        transactions: &Result<Vec<RawTransaction>, String>,
        now: u64,
    ) -> (result: Result<(), String>)
        requires
            old(self).wf(),
            has_room(old(self)@, address@),
        ensures
            final(self).wf(),
            match checked_address(address@) {
                Ok(_) => {
                    &&& unit_result(result) == Ok::<(), Seq<char>>(())
                    &&& final(self)@ == watched(old(self)@, address@, first_lt(*transactions), now)
                },
                Err(e) => {
                    &&& unit_result(result) == Err::<(), Seq<char>>(e)
                    &&& final(self)@ == old(self)@
                },
            },
    {
        match parse_address(&address) {
            Ok(_) => {},
            Err(e) => {
                return Err(e);
            },
        }
        let ghost before = self.monitored_addresses@;
        match self.find(&address) {
            Some(i) => {
                proof {
                    lemma_watch_at(before, i as int);
                }
                let monitor = &self.monitored_addresses[i];
                let monitor = AddressMonitor {
                    address,
                    last_lt: monitor.last_lt,
                    last_check: monitor.last_check,
                    subscription_count: monitor.subscription_count + 1,
                };
                proof {
                    lemma_watch_update(before, i as int, monitor);
                }
                self.monitored_addresses.set(i, monitor);
            },
            None => {
                let last_lt = Self::get_last_lt_for_address(transactions);
                let monitor = AddressMonitor {
                    address,
                    last_lt,
                    last_check: now,
                    subscription_count: 1,
                };
                proof {
                    lemma_watch_push(before, monitor);
                }
                self.monitored_addresses.push(monitor);
            },
        }
        Ok(())
    }

    /// Gives an address up on behalf of one who asked for it, and says whether it is no longer
    /// watched by that.
    pub fn remove_address(&mut self, address: &str) -> (removed: bool)
        requires
            old(self).wf(),
        ensures
            final(self).wf(),
            final(self)@ == unwatched(old(self)@, address@),
            removed <==> old(self)@.addresses.contains_key(address@)
                && !final(self)@.addresses.contains_key(address@),
    {
        let ghost before = self.monitored_addresses@;
        match self.find(address) {
            Some(i) => {
                proof {
                    lemma_watch_at(before, i as int);
                }
                let monitor = &self.monitored_addresses[i];
                let subscription_count = monitor.subscription_count.saturating_sub(1);
                if subscription_count == 0 {
                    proof {
                        lemma_watch_remove(before, i as int);
                    }
                    self.monitored_addresses.remove(i);
                    true
                } else {
                    let monitor = AddressMonitor {
                        address: monitor.address.clone(),
                        last_lt: monitor.last_lt,
                        last_check: monitor.last_check,
                        subscription_count,
                    };
                    proof {
                        lemma_watch_update(before, i as int, monitor);
                    }
                    self.monitored_addresses.set(i, monitor);
                    false
                }
            },
            None => false,
        }
    }

    /// The watched addresses.
    pub fn get_monitored_addresses(&self) -> (addresses: Vec<String>)
        requires
            self.wf(),
        ensures
            lists_keys(texts(addresses@), self@.addresses.dom()),
    {
        let mut addresses: Vec<String> = Vec::new();
        for i in 0..self.monitored_addresses.len()
            invariant
                addresses@.len() == i,
                forall|j: int|
                    0 <= j < i ==> (#[trigger] addresses@[j])@
                        == self.monitored_addresses@[j].address@,
        {
            addresses.push(self.monitored_addresses[i].address.clone());
        }
        proof {
            lemma_address_list(self.monitored_addresses@);
            assert(texts(addresses@) =~= address_list(self.monitored_addresses@));
        }
        addresses
    }

    /// How many addresses are watched.
    pub fn get_monitor_count(&self) -> (count: usize)
        requires
            self.wf(),
        ensures
            count == self@.addresses.len(),
    {
        proof {
            lemma_address_list(self.monitored_addresses@);
        }
        self.monitored_addresses.len()
    }

    /// The questions for what is new: one for each watched address.
    pub fn check_transactions(&self) -> (queries: Vec<TransactionQuery>)
        requires
            self.wf(),
        ensures
            lists_keys(asked_addresses(queries@), self@.addresses.dom()),
            forall|i: int|
                0 <= i < queries@.len() ==> (#[trigger] queries@[i])@ == poll_query(
                    queries@[i].address@,
                    self@.addresses[queries@[i].address@],
                ),
    {
        let mut queries: Vec<TransactionQuery> = Vec::new();
        for i in 0..self.monitored_addresses.len()
            invariant
                self.wf(),
                queries@.len() == i,
                forall|j: int|
                    0 <= j < i ==> (#[trigger] queries@[j])@ == poll_query(
                        self.monitored_addresses@[j].address@,
                        self.monitored_addresses@[j].watch(),
                    ),
        {
            let monitor = &self.monitored_addresses[i];
            let from_lt = if monitor.last_lt > 0 {
                Some(monitor.last_lt as u64)
            } else {
                None
            };
            queries.push(
                TransactionQuery {
                    address: monitor.address.clone(),
                    last_lt: monitor.last_lt,
                    from_lt,
                    limit: 15,
                },
            );
        }
        proof {
            lemma_address_list(self.monitored_addresses@);
            assert(asked_addresses(queries@) =~= address_list(self.monitored_addresses@));
            assert forall|i: int| 0 <= i < queries@.len() implies (#[trigger] queries@[i])@
                == poll_query(
                queries@[i].address@,
                self@.addresses[queries@[i].address@],
            ) by {
                assert(queries@[i]@.address == self.monitored_addresses@[i].address@);
                lemma_watch_at(self.monitored_addresses@, i);
            }
        }
        queries
    }

    /// Takes the transactions of an address that was seen up to `last_lt`: those that are newer
    /// are announced, and the address counts as seen up to the latest of them.
    pub fn check_address_transactions(
        &mut self,
        address: &str,
        last_lt: i64,
        transactions: &Vec<RawTransaction>,
        now: u64,
    ) -> (events: Vec<TransactionEvent>)
        requires
            old(self).wf(),
        ensures
            final(self).wf(),
            final(self)@ == checked(
                old(self)@,
                address@,
                last_lt,
                transaction_list(transactions@),
                now,
            ),
            transaction_event_list(events@) == events_of(
                address@,
                newer(transaction_list(transactions@), last_lt),
            ),
    {
        let ghost all = transaction_list(transactions@);
        let ghost is_newer = |tx: RawTransactionView| tx.lt > last_lt;
        let mut events: Vec<TransactionEvent> = Vec::new();
        let mut max_lt: i64 = last_lt;
        proof {
            reveal(Seq::filter);
            assert(all.take(0).filter(is_newer) =~= Seq::empty());
        }
        for i in 0..transactions.len()
            invariant
                all == transaction_list(transactions@),
                is_newer == (|tx: RawTransactionView| tx.lt > last_lt),
                max_lt == latest(all.take(i as int), last_lt),
                max_lt >= last_lt,
                transaction_event_list(events@) =~= events_of(
                    address@,
                    all.take(i as int).filter(is_newer),
                ),
        {
            proof {
                reveal(Seq::filter);
                assert(all.take(i + 1).drop_last() =~= all.take(i as int));
                assert(all.take(i + 1).last() == transactions@[i as int]@);
            }
            let tx = &transactions[i];
            let ghost seen = all.take(i as int).filter(is_newer);
            let ghost announced = transaction_event_list(events@);
            if tx.lt > last_lt {
                let event = TransactionEvent {
                    address: address.to_owned(),
                    transaction_hash: hex_encode(&tx.hash),
                    logical_time: reread_u64(tx.lt),
                    timestamp: truncate_time(tx.utime),
                };
                events.push(event);
                assert(transaction_event_list(events@) =~= announced.push(event@));
                assert(events_of(address@, seen.push(tx@)) =~= events_of(address@, seen).push(
                    event_of(address@, tx@),
                ));
                if tx.lt > max_lt {
                    max_lt = tx.lt;
                }
            }
        }
        assert(all.take(transactions.len() as int) =~= all);
        assert(transaction_event_list(events@).len() == newer(all, last_lt).len());
        if events.len() > 0 {
            let ghost before = self.monitored_addresses@;
            match self.find(address) {
                Some(i) => {
                    proof {
                        lemma_watch_at(before, i as int);
                    }
                    let monitor = &self.monitored_addresses[i];
                    let monitor = AddressMonitor {
                        address: monitor.address.clone(),
                        last_lt: max_lt,
                        last_check: now,
                        subscription_count: monitor.subscription_count,
                    };
                    proof {
                        lemma_watch_update(before, i as int, monitor);
                    }
                    self.monitored_addresses.set(i, monitor);
                },
                None => {},
            }
        }
        events
    }
}

/// Every watched address is watched on behalf of somebody.
pub open spec fn all_wanted(state: MonitorView) -> bool {
    forall|address: Seq<char>| #[trigger]
        state.addresses.contains_key(address) ==> state.addresses[address].subscription_count > 0
}

/// Every watched address is an address.
pub open spec fn all_valid(state: MonitorView) -> bool {
    forall|address: Seq<char>| #[trigger]
        state.addresses.contains_key(address) ==> is_address(address)
}

/// A monitor never watches an address that nobody asked for.
pub proof fn law_watched_addresses_are_wanted(monitor: TransactionMonitor)
    requires
        monitor.wf(),
    ensures
        all_wanted(monitor@),
{
    let monitors = monitor.monitored_addresses@;
    assert forall|address: Seq<char>| #[trigger]
        monitor@.addresses.contains_key(address) implies monitor@.addresses[address].subscription_count
        > 0 by {
        let i = choose|i: int|
            0 <= i < monitors.len() && (#[trigger] monitors[i]).address@ == address;
        lemma_watch_at(monitors, i);
    }
}

/// Whatever is asked of a monitor that watches addresses only, it watches addresses only.
pub proof fn law_watched_addresses_are_valid(
    state: MonitorView,
    address: Seq<char>,
    last_lt: i64,
    transactions: Seq<RawTransactionView>,
    now: u64,
)
    requires
        all_valid(state),
    ensures
        is_address(address) ==> all_valid(watched(state, address, last_lt, now)),
        all_valid(unwatched(state, address)),
        all_valid(checked(state, address, last_lt, transactions, now)),
{
}

/// Giving up an address undoes asking for it.
pub proof fn law_unwatching_undoes_watching(
    state: MonitorView,
    address: Seq<char>,
    last_lt: i64,
    now: u64,
)
    requires
        all_wanted(state),
        has_room(state, address),
    ensures
        unwatched(watched(state, address, last_lt, now), address) == state,
{
    let back = unwatched(watched(state, address, last_lt, now), address);
    assert(back.addresses =~= state.addresses);
}

/// What is asked of a monitor over time: an address is asked for, or given up, or transactions
/// of it that was seen up to `last_lt` are looked at.
#[allow(inconsistent_fields)]
pub enum MonitorStep {
    Ask { address: Seq<char>, last_lt: i64, now: u64 },
    GiveUp { address: Seq<char> },
    Look { address: Seq<char>, last_lt: i64, transactions: Seq<RawTransactionView>, now: u64 },
}

/// The state after a step.
pub open spec fn after_step(state: MonitorView, step: MonitorStep) -> MonitorView {
    match step {
        MonitorStep::Ask { address, last_lt, now } => watched(state, address, last_lt, now),
        MonitorStep::GiveUp { address } => unwatched(state, address),
        MonitorStep::Look { address, last_lt, transactions, now } => checked(
            state,
            address,
            last_lt,
            transactions,
            now,
        ),
    }
}

/// The state after steps in turn.
pub open spec fn after_steps(state: MonitorView, steps: Seq<MonitorStep>) -> MonitorView
    decreases steps.len(),
{
    if steps.len() == 0 {
        state
    } else {
        after_step(after_steps(state, steps.drop_last()), steps.last())
    }
}

/// How many more asked for an address than gave it up, where `start` asked before the steps and
/// giving up what nobody asked for does not count.
pub open spec fn wanted(start: nat, steps: Seq<MonitorStep>, address: Seq<char>) -> nat
    decreases steps.len(),
{
    if steps.len() == 0 {
        start
    } else {
        let before = wanted(start, steps.drop_last(), address);
        match steps.last() {
            MonitorStep::Ask { address: asked, .. } => if asked == address {
                before + 1
            } else {
                before
            },
            MonitorStep::GiveUp { address: given_up } => if given_up == address && before > 0 {
                (before - 1) as nat
            } else {
                before
            },
            MonitorStep::Look { .. } => before,
        }
    }
}

/// How many a watched address is watched for, and zero for one that is not watched.
pub open spec fn watch_count(state: MonitorView, address: Seq<char>) -> nat {
    if state.addresses.contains_key(address) {
        state.addresses[address].subscription_count as nat
    } else {
        0
    }
}

/// Each time the address is asked for, one more can still ask for it.
pub open spec fn asks_have_room(
    state: MonitorView,
    steps: Seq<MonitorStep>,
    address: Seq<char>,
) -> bool
    decreases steps.len(),
{
    steps.len() > 0 ==> {
        &&& asks_have_room(state, steps.drop_last(), address)
        &&& match steps.last() {
            MonitorStep::Ask { address: asked, .. } => asked == address ==> has_room(
                after_steps(state, steps.drop_last()),
                address,
            ),
            _ => true,
        }
    }
}

/// Whatever is asked of a monitor, in whatever order, an address is watched exactly while more
/// have asked for it than have given it up, and the difference is its count.
pub proof fn law_address_is_watched_while_wanted(
    state: MonitorView,
    steps: Seq<MonitorStep>,
    address: Seq<char>,
)
    requires
        all_wanted(state),
        asks_have_room(state, steps, address),
    ensures
        after_steps(state, steps).addresses.contains_key(address) <==> wanted(
            watch_count(state, address),
            steps,
            address,
        ) > 0,
        watch_count(after_steps(state, steps), address) == wanted(
            watch_count(state, address),
            steps,
            address,
        ),
    decreases steps.len(),
{
    if steps.len() > 0 {
        law_address_is_watched_while_wanted(state, steps.drop_last(), address);
    }
}

/// The latest logical time is no earlier than what was seen before and than any transaction,
/// and it is one of these.
pub proof fn law_last_seen_never_goes_back(transactions: Seq<RawTransactionView>, last_lt: i64)
    ensures
        latest(transactions, last_lt) >= last_lt,
        forall|i: int|
            0 <= i < transactions.len() ==> (#[trigger] transactions[i]).lt <= latest(
                transactions,
                last_lt,
            ),
        latest(transactions, last_lt) == last_lt || exists|i: int|
            0 <= i < transactions.len() && (#[trigger] transactions[i]).lt == latest(
                transactions,
                last_lt,
            ),
    decreases transactions.len(),
{
    if transactions.len() > 0 {
        let before = transactions.drop_last();
        law_last_seen_never_goes_back(before, last_lt);
        assert forall|i: int| 0 <= i < transactions.len() implies (#[trigger] transactions[i]).lt
            <= latest(transactions, last_lt) by {
            if i < before.len() {
                assert(before[i].lt <= latest(before, last_lt));
            }
        }
        if latest(transactions, last_lt) != last_lt {
            if transactions.last().lt > latest(before, last_lt) {
                assert(transactions[transactions.len() - 1].lt == latest(transactions, last_lt));
            } else {
                let i = choose|i: int|
                    0 <= i < before.len() && (#[trigger] before[i]).lt == latest(before, last_lt);
                assert(transactions[i].lt == latest(transactions, last_lt));
            }
        }
    }
}

/// Exactly the transactions after the last seen one are announced.
pub proof fn law_exactly_the_newer_are_announced(
    transactions: Seq<RawTransactionView>,
    last_lt: i64,
    tx: RawTransactionView,
)
    ensures
        newer(transactions, last_lt).contains(tx) <==> transactions.contains(tx) && tx.lt > last_lt,
    decreases transactions.len(),
{
    reveal(Seq::filter);
    let all = newer(transactions, last_lt);
    if transactions.len() > 0 {
        let before = transactions.drop_last();
        law_exactly_the_newer_are_announced(before, last_lt, tx);
        let all_before = newer(before, last_lt);
        if all.contains(tx) {
            let k = choose|k: int| 0 <= k < all.len() && all[k] == tx;
            if k < all_before.len() {
                assert(all_before[k] == tx);
                let i = choose|i: int| 0 <= i < before.len() && before[i] == tx;
                assert(transactions[i] == tx);
            } else {
                assert(transactions[transactions.len() - 1] == tx);
            }
        }
        if transactions.contains(tx) && tx.lt > last_lt {
            let i = choose|i: int| 0 <= i < transactions.len() && transactions[i] == tx;
            if i < before.len() {
                assert(before[i] == tx);
                let k = choose|k: int| 0 <= k < all_before.len() && all_before[k] == tx;
                assert(all[k] == tx);
            } else {
                assert(all[all.len() - 1] == tx);
            }
        }
    }
}

/// All events that steps in turn lead to: those for the newer transactions of each look.
pub open spec fn announced(steps: Seq<MonitorStep>) -> Seq<TransactionEventView>
    decreases steps.len(),
{
    if steps.len() == 0 {
        Seq::empty()
    } else {
        let before = announced(steps.drop_last());
        match steps.last() {
            MonitorStep::Look { address, last_lt, transactions, .. } => before + events_of(
                address,
                newer(transactions, last_lt),
            ),
            _ => before,
        }
    }
}

/// The address is watched at the start and after every step.
pub open spec fn stays_watched(
    state: MonitorView,
    steps: Seq<MonitorStep>,
    address: Seq<char>,
) -> bool
    decreases steps.len(),
{
    &&& after_steps(state, steps).addresses.contains_key(address)
    &&& steps.len() > 0 ==> stays_watched(state, steps.drop_last(), address)
}

/// Each look at the address goes by what was seen of it by then.
pub open spec fn looks_are_current(
    state: MonitorView,
    steps: Seq<MonitorStep>,
    address: Seq<char>,
) -> bool
    decreases steps.len(),
{
    steps.len() > 0 ==> {
        &&& looks_are_current(state, steps.drop_last(), address)
        &&& match steps.last() {
            MonitorStep::Look { address: looked_at, last_lt, .. } => looked_at == address
                ==> last_lt == after_steps(state, steps.drop_last()).addresses[address].last_lt,
            _ => true,
        }
    }
}

/// No two transactions of the list have the same logical time.
pub open spec fn distinct_times(transactions: Seq<RawTransactionView>) -> bool {
    forall|i: int, j: int|
        0 <= i < j < transactions.len() ==> (#[trigger] transactions[i]).lt != (
        #[trigger] transactions[j]).lt
}

/// A signed number, read back from its bits.
spec fn time_of(bits: u64) -> int {
    if bits <= i64::MAX {
        bits as int
    } else {
        bits - 0x1_0000_0000_0000_0000
    }
}

/// What is new in a list of distinct times is later than what was seen, no later than the latest
/// of all, and of distinct times.
proof fn lemma_newer(transactions: Seq<RawTransactionView>, last_lt: i64)
    ensures
        forall|k: int|
            0 <= k < newer(transactions, last_lt).len() ==> last_lt < (#[trigger] newer(
                transactions,
                last_lt,
            )[k]).lt <= latest(transactions, last_lt),
        distinct_times(transactions) ==> distinct_times(newer(transactions, last_lt)),
    decreases transactions.len(),
{
    reveal(Seq::filter);
    let all = newer(transactions, last_lt);
    law_last_seen_never_goes_back(transactions, last_lt);
    assert forall|k: int| 0 <= k < all.len() implies last_lt < (#[trigger] all[k]).lt <= latest(
        transactions,
        last_lt,
    ) by {
        law_exactly_the_newer_are_announced(transactions, last_lt, all[k]);
        assert(all.contains(all[k]));
        let i = choose|i: int| 0 <= i < transactions.len() && transactions[i] == all[k];
        assert(transactions[i].lt <= latest(transactions, last_lt));
    }
    if transactions.len() > 0 && distinct_times(transactions) {
        let before = transactions.drop_last();
        let last = transactions.last();
        assert(distinct_times(before)) by {
            assert forall|i: int, j: int| 0 <= i < j < before.len() implies (#[trigger] before[i]).lt
                != (#[trigger] before[j]).lt by {
                assert(transactions[i].lt != transactions[j].lt);
            }
        }
        lemma_newer(before, last_lt);
        let some = newer(before, last_lt);
        assert forall|i: int, j: int| 0 <= i < j < all.len() implies (#[trigger] all[i]).lt != (
        #[trigger] all[j]).lt by {
            assert(all[i] == some[i]);
            if j < some.len() {
                assert(some[i].lt != some[j].lt);
            } else {
                law_exactly_the_newer_are_announced(before, last_lt, some[i]);
                assert(some.contains(some[i]));
                let m = choose|m: int| 0 <= m < before.len() && before[m] == some[i];
                assert(transactions[m].lt != transactions[transactions.len() - 1].lt);
            }
        }
    }
}

/// Every event of an address that stays watched is later than what was seen of it at the start,
/// and no later than what was seen of it in the end.
proof fn lemma_announced(state: MonitorView, steps: Seq<MonitorStep>, address: Seq<char>)
    requires
        stays_watched(state, steps, address),
        looks_are_current(state, steps, address),
    ensures
        state.addresses.contains_key(address),
        after_steps(state, steps).addresses.contains_key(address),
        state.addresses[address].last_lt <= after_steps(state, steps).addresses[address].last_lt,
        forall|k: int|
            0 <= k < announced(steps).len() && (#[trigger] announced(steps)[k]).address == address
                ==> state.addresses[address].last_lt < time_of(announced(steps)[k].logical_time)
                <= after_steps(state, steps).addresses[address].last_lt,
    decreases steps.len(),
{
    if steps.len() > 0 {
        let earlier = steps.drop_last();
        let before = after_steps(state, earlier);
        let events = announced(earlier);
        let all = announced(steps);
        lemma_announced(state, earlier, address);
        match steps.last() {
            MonitorStep::Look { address: looked_at, last_lt, transactions, now } => {
                let found = newer(transactions, last_lt);
                lemma_newer(transactions, last_lt);
                law_last_seen_never_goes_back(transactions, last_lt);
                assert forall|k: int|
                    0 <= k < all.len() && (#[trigger] all[k]).address
                        == address implies state.addresses[address].last_lt < time_of(
                    all[k].logical_time,
                ) <= after_steps(state, steps).addresses[address].last_lt by {
                    if k < events.len() {
                        assert(all[k] == events[k]);
                    } else {
                        assert(all[k] == event_of(looked_at, found[k - events.len()]));
                    }
                }
            },
            _ => {
                assert forall|k: int|
                    0 <= k < all.len() && (#[trigger] all[k]).address
                        == address implies state.addresses[address].last_lt < time_of(
                    all[k].logical_time,
                ) <= after_steps(state, steps).addresses[address].last_lt by {
                    assert(all[k] == events[k]);
                }
            },
        }
    }
}

/// Whatever is asked of a monitor meanwhile, every event of an address that stays watched is
/// later than what was seen of it at the start.
pub proof fn law_only_what_is_later_is_announced(
    state: MonitorView,
    steps: Seq<MonitorStep>,
    address: Seq<char>,
)
    requires
        stays_watched(state, steps, address),
        looks_are_current(state, steps, address),
    ensures
        forall|k: int|
            0 <= k < announced(steps).len() && (#[trigger] announced(steps)[k]).address == address
                ==> announced(steps)[k].logical_time > state.addresses[address].last_lt,
{
    lemma_announced(state, steps, address);
}

/// Whatever is asked of a monitor meanwhile, no logical time of an address that stays watched is
/// announced by two looks: what one more step leads to is of other times than all events before
/// it.
pub proof fn law_no_look_repeats_an_earlier_one(
    state: MonitorView,
    steps: Seq<MonitorStep>,
    step: MonitorStep,
    address: Seq<char>,
)
    requires
        stays_watched(state, steps.push(step), address),
        looks_are_current(state, steps.push(step), address),
    ensures
        forall|i: int, j: int|
            0 <= i < announced(steps).len() && announced(steps).len() <= j < announced(
                steps.push(step),
            ).len() && (#[trigger] announced(steps)[i]).address == address && (
            #[trigger] announced(steps.push(step))[j]).address == address
                ==> announced(steps)[i].logical_time != announced(
                steps.push(step),
            )[j].logical_time,
{
    let all = steps.push(step);
    let events = announced(steps);
    assert(all.drop_last() =~= steps);
    assert(all.last() == step);
    lemma_announced(state, steps, address);
    if let MonitorStep::Look { address: looked_at, last_lt, transactions, now } = step {
        let found = newer(transactions, last_lt);
        lemma_newer(transactions, last_lt);
        assert forall|i: int, j: int|
            0 <= i < events.len() && events.len() <= j < announced(all).len() && (
            #[trigger] events[i]).address == address && (#[trigger] announced(all)[j]).address
                == address implies events[i].logical_time != announced(all)[j].logical_time by {
            assert(announced(all)[j] == event_of(looked_at, found[j - events.len()]));
            assert(time_of(bits_of(found[j - events.len()].lt)) == found[j - events.len()].lt);
        }
    }
}

/// Where the step looks at the address, the answer holds no logical time twice.
pub open spec fn answer_is_distinct(step: MonitorStep, address: Seq<char>) -> bool {
    match step {
        MonitorStep::Look { address: looked_at, transactions, .. } => looked_at == address
            ==> distinct_times(transactions),
        _ => true,
    }
}

/// Whatever is asked of a monitor meanwhile, no logical time of an address that stays watched is
/// announced twice, as long as no single answer holds one twice.
pub proof fn law_nothing_is_announced_twice(
    state: MonitorView,
    steps: Seq<MonitorStep>,
    address: Seq<char>,
)
    requires
        stays_watched(state, steps, address),
        looks_are_current(state, steps, address),
        forall|k: int| 0 <= k < steps.len() ==> answer_is_distinct(#[trigger] steps[k], address),
    ensures
        forall|i: int, j: int|
            0 <= i < j < announced(steps).len() && (#[trigger] announced(steps)[i]).address
                == address && (#[trigger] announced(steps)[j]).address == address
                ==> announced(steps)[i].logical_time != announced(steps)[j].logical_time,
    decreases steps.len(),
{
    if steps.len() > 0 {
        let earlier = steps.drop_last();
        let step = steps.last();
        let events = announced(earlier);
        let all = announced(steps);
        assert(earlier.push(step) =~= steps);
        assert forall|k: int| 0 <= k < earlier.len() implies answer_is_distinct(
            #[trigger] earlier[k],
            address,
        ) by {
            assert(earlier[k] == steps[k]);
        }
        law_nothing_is_announced_twice(state, earlier, address);
        law_no_look_repeats_an_earlier_one(state, earlier, step, address);
        assert(steps[steps.len() - 1] == step);
        assert forall|i: int, j: int|
            0 <= i < j < all.len() && (#[trigger] all[i]).address == address && (
            #[trigger] all[j]).address == address implies all[i].logical_time
            != all[j].logical_time by {
            if j < events.len() {
                assert(all[i] == events[i] && all[j] == events[j]);
            } else if i < events.len() {
                assert(all[i] == events[i]);
            } else if let MonitorStep::Look { address: looked_at, last_lt, transactions, now } =
                step {
                let found = newer(transactions, last_lt);
                let m = i - events.len();
                let n = j - events.len();
                lemma_newer(transactions, last_lt);
                assert(all[i] == event_of(looked_at, found[m]));
                assert(all[j] == event_of(looked_at, found[n]));
                assert(found[m].lt != found[n].lt);
                assert(time_of(bits_of(found[m].lt)) == found[m].lt);
                assert(time_of(bits_of(found[n].lt)) == found[n].lt);
            }
        }
    }
}

/// The number that a hexadecimal digit stands for.
pub open spec fn digit_value(digit: char) -> int {
    if '0' <= digit <= '9' {
        digit as int - '0' as int
    } else {
        digit as int - 'a' as int + 10
    }
}

/// A text of hexadecimal digits, in lower case, two for each of the bytes, in order.
pub open spec fn spells(text: Seq<char>, bytes: Seq<u8>) -> bool {
    &&& text.len() == 2 * bytes.len()
    &&& forall|i: int| 0 <= i < text.len() ==> is_hex_digit(#[trigger] text[i])
    &&& forall|i: int|
        0 <= i < bytes.len() ==> #[trigger] bytes[i] == 16 * digit_value(text[2 * i])
            + digit_value(text[2 * i + 1])
}

/// Half a byte as a digit.
proof fn lemma_digit(n: u8)
    requires
        n < 16,
    ensures
        is_hex_digit(hex_digit(n)),
        digit_value(hex_digit(n)) == n,
{
}

/// An event shows its transaction: the address that was looked at, every byte of the hash, the
/// logical time and the time, the last two by as many bits as there are.
pub proof fn law_event_shows_its_transaction(address: Seq<char>, tx: RawTransactionView)
    ensures
        event_of(address, tx).address == address,
        spells(event_of(address, tx).transaction_hash, tx.hash),
        (event_of(address, tx).logical_time - tx.lt) % 0x1_0000_0000_0000_0000 == 0,
        (event_of(address, tx).timestamp - tx.utime) % 0x1_0000_0000 == 0,
        tx.lt >= 0 ==> event_of(address, tx).logical_time == tx.lt,
        0 <= tx.utime <= u32::MAX ==> event_of(address, tx).timestamp == tx.utime,
{
    let text = hex_text(tx.hash);
    assert forall|i: int| 0 <= i < text.len() implies is_hex_digit(#[trigger] text[i]) by {
        let byte = tx.hash[i / 2];
        lemma_digit(byte / 16);
        lemma_digit(byte % 16);
    }
    assert forall|i: int| 0 <= i < tx.hash.len() implies #[trigger] tx.hash[i] == 16 * digit_value(
        text[2 * i],
    ) + digit_value(text[2 * i + 1]) by {
        let byte = tx.hash[i];
        lemma_digit(byte / 16);
        lemma_digit(byte % 16);
        assert((2 * i) / 2 == i && (2 * i + 1) / 2 == i);
        assert((2 * i) % 2 == 0 && (2 * i + 1) % 2 == 1);
        assert(text[2 * i] == hex_digit(byte / 16));
        assert(text[2 * i + 1] == hex_digit(byte % 16));
    }
}

/// Transactions of different hashes are announced with different texts, and those of different
/// logical times with different times.
pub proof fn law_transactions_are_told_apart(
    address: Seq<char>,
    first: RawTransactionView,
    second: RawTransactionView,
)
    ensures
        first.hash != second.hash ==> event_of(address, first).transaction_hash != event_of(
            address,
            second,
        ).transaction_hash,
        first.lt != second.lt ==> event_of(address, first).logical_time != event_of(
            address,
            second,
        ).logical_time,
{
    law_event_shows_its_transaction(address, first);
    law_event_shows_its_transaction(address, second);
    let a = event_of(address, first).transaction_hash;
    let b = event_of(address, second).transaction_hash;
    if a == b {
        assert(first.hash.len() == second.hash.len());
        assert forall|i: int| 0 <= i < first.hash.len() implies first.hash[i] == second.hash[i] by {
            assert(first.hash[i] == 16 * digit_value(a[2 * i]) + digit_value(a[2 * i + 1]));
            assert(second.hash[i] == 16 * digit_value(b[2 * i]) + digit_value(b[2 * i + 1]));
        }
        assert(first.hash =~= second.hash);
    }
    if first.lt != second.lt {
        assert(time_of(bits_of(first.lt)) == first.lt);
        assert(time_of(bits_of(second.lt)) == second.lt);
    }
}

/// What is newer in two lists together is what is newer in the one and then in the other, and of
/// a single transaction it is the transaction exactly where it is later.
pub proof fn law_newer_goes_one_by_one(
    first: Seq<RawTransactionView>,
    second: Seq<RawTransactionView>,
    tx: RawTransactionView,
    last_lt: i64,
)
    ensures
        newer(first + second, last_lt) == newer(first, last_lt) + newer(second, last_lt),
        newer(seq![tx], last_lt) == if tx.lt > last_lt {
            seq![tx]
        } else {
            Seq::empty()
        },
        newer(Seq::empty(), last_lt) == Seq::<RawTransactionView>::empty(),
    decreases second.len(),
{
    reveal(Seq::filter);
    assert(seq![tx].drop_last() =~= Seq::empty());
    assert(newer(Seq::empty(), last_lt) =~= Seq::<RawTransactionView>::empty());
    assert(newer(seq![tx].drop_last(), last_lt) =~= Seq::<RawTransactionView>::empty());
    assert(newer(seq![tx], last_lt) =~= if tx.lt > last_lt {
        seq![tx]
    } else {
        Seq::empty()
    });
    if second.len() > 0 {
        law_newer_goes_one_by_one(first, second.drop_last(), tx, last_lt);
        assert((first + second).drop_last() =~= first + second.drop_last());
        assert(newer(first + second, last_lt) =~= newer(first, last_lt) + newer(second, last_lt));
    } else {
        assert(first + second =~= first);
        assert(newer(first + second, last_lt) =~= newer(first, last_lt) + newer(second, last_lt));
    }
}

/// There is one event for each transaction, in order.
pub proof fn law_events_go_one_by_one(
    address: Seq<char>,
    transactions: Seq<RawTransactionView>,
    k: int,
)
    requires
        0 <= k < transactions.len(),
    ensures
        events_of(address, transactions).len() == transactions.len(),
        events_of(address, transactions)[k].address == address,
        spells(events_of(address, transactions)[k].transaction_hash, transactions[k].hash),
        (events_of(address, transactions)[k].logical_time - transactions[k].lt)
            % 0x1_0000_0000_0000_0000 == 0,
        (events_of(address, transactions)[k].timestamp - transactions[k].utime) % 0x1_0000_0000
            == 0,
{
    law_event_shows_its_transaction(address, transactions[k]);
}

/// A look at an address changes what was seen of that address alone, and only where something
/// was newer: then it was seen up to the latest of all, at the given clock. Nobody's wish to have
/// it watched is touched.
pub proof fn law_look_changes_only_what_was_seen(
    state: MonitorView,
    address: Seq<char>,
    other: Seq<char>,
    last_lt: i64,
    transactions: Seq<RawTransactionView>,
    now: u64,
)
    ensures
        ({
            let after = checked(state, address, last_lt, transactions, now);
            let later = exists|i: int|
                0 <= i < transactions.len() && (#[trigger] transactions[i]).lt > last_lt;
            &&& after.polling_interval == state.polling_interval
            &&& after.addresses.contains_key(other) <==> state.addresses.contains_key(other)
            &&& state.addresses.contains_key(other) && (other != address || !later)
                ==> after.addresses[other] == state.addresses[other]
            &&& state.addresses.contains_key(address) ==> after.addresses[address].subscription_count
                == state.addresses[address].subscription_count
            &&& state.addresses.contains_key(address) && later ==> {
                &&& after.addresses[address].last_check == now
                &&& after.addresses[address].last_lt > last_lt
                &&& forall|i: int|
                    0 <= i < transactions.len() ==> (#[trigger] transactions[i]).lt
                        <= after.addresses[address].last_lt
                &&& exists|i: int|
                    0 <= i < transactions.len() && (#[trigger] transactions[i]).lt
                        == after.addresses[address].last_lt
            }
        }),
{
    let found = newer(transactions, last_lt);
    law_last_seen_never_goes_back(transactions, last_lt);
    if exists|i: int| 0 <= i < transactions.len() && (#[trigger] transactions[i]).lt > last_lt {
        let i = choose|i: int|
            0 <= i < transactions.len() && (#[trigger] transactions[i]).lt > last_lt;
        law_exactly_the_newer_are_announced(transactions, last_lt, transactions[i]);
        assert(transactions.contains(transactions[i]));
        assert(found.len() > 0);
    } else if found.len() > 0 {
        law_exactly_the_newer_are_announced(transactions, last_lt, found[0]);
        assert(found.contains(found[0]));
        let i = choose|i: int| 0 <= i < transactions.len() && transactions[i] == found[0];
        assert(transactions[i].lt > last_lt);
    }
}

/// Asking for an address, or giving one up, touches no other address. A new address starts from
/// the given logical time and clock, for one; an address that is watched keeps both.
pub proof fn law_asking_touches_only_its_address(
    state: MonitorView,
    address: Seq<char>,
    other: Seq<char>,
    last_lt: i64,
    now: u64,
)
    requires
        all_wanted(state),
        has_room(state, address),
    ensures
        ({
            let asked = watched(state, address, last_lt, now);
            let given_up = unwatched(state, address);
            &&& asked.polling_interval == state.polling_interval
            &&& given_up.polling_interval == state.polling_interval
            &&& asked.addresses.contains_key(address)
            &&& !state.addresses.contains_key(address) ==> asked.addresses[address] == (WatchView {
                last_lt,
                last_check: now,
                subscription_count: 1,
            })
            &&& state.addresses.contains_key(address) ==> {
                &&& asked.addresses[address].last_lt == state.addresses[address].last_lt
                &&& asked.addresses[address].last_check == state.addresses[address].last_check
                &&& asked.addresses[address].subscription_count
                    == state.addresses[address].subscription_count + 1
                &&& given_up.addresses.contains_key(address)
                    <==> state.addresses[address].subscription_count > 1
            }
            &&& given_up.addresses.contains_key(address) ==> {
                &&& state.addresses.contains_key(address)
                &&& given_up.addresses[address].last_lt == state.addresses[address].last_lt
                &&& given_up.addresses[address].last_check == state.addresses[address].last_check
                &&& given_up.addresses[address].subscription_count
                    == state.addresses[address].subscription_count - 1
            }
            &&& other != address ==> {
                &&& asked.addresses.contains_key(other) <==> state.addresses.contains_key(other)
                &&& given_up.addresses.contains_key(other) <==> state.addresses.contains_key(other)
                &&& state.addresses.contains_key(other) ==> asked.addresses[other]
                    == state.addresses[other] && given_up.addresses[other]
                    == state.addresses[other]
            }
        }),
{
}

/// The question for what is new at an address is about that address, from what was seen of it on
/// where something was, and for fifteen transactions at most.
pub proof fn law_question_goes_by_what_was_seen(address: Seq<char>, watch: WatchView)
    ensures
        poll_query(address, watch).address == address,
        poll_query(address, watch).last_lt == watch.last_lt,
        watch.last_lt > 0 ==> poll_query(address, watch).from_lt is Some && poll_query(
            address,
            watch,
        ).from_lt->0 == watch.last_lt,
        watch.last_lt <= 0 ==> poll_query(address, watch).from_lt is None,
        poll_query(address, watch).limit == 15,
{
}

/// A new address counts as seen up to the first transaction of the answer, and up to nothing
/// where there is none.
pub proof fn law_new_address_starts_at_the_first_found(
    answer: Result<Vec<RawTransaction>, String>,
)
    ensures
        match answer {
            Ok(found) => if found@.len() > 0 {
                first_lt(answer) == found@[0].lt
            } else {
                first_lt(answer) == 0
            },
            Err(_) => first_lt(answer) == 0,
        },
{
}

/// Events, transactions and questions are spoken of by all their fields, and lists of them by
/// all their items.
pub proof fn law_events_are_shown_whole(
    events: Seq<TransactionEvent>,
    transactions: Seq<RawTransaction>,
    query: TransactionQuery,
    i: int,
)
    ensures
        transaction_event_list(events).len() == events.len(),
        0 <= i < events.len() ==> {
            let event = transaction_event_list(events)[i];
            &&& event.address == events[i].address@
            &&& event.transaction_hash == events[i].transaction_hash@
            &&& event.logical_time == events[i].logical_time
            &&& event.timestamp == events[i].timestamp
            &&& event == events[i]@
        },
        transaction_list(transactions).len() == transactions.len(),
        0 <= i < transactions.len() ==> {
            let tx = transaction_list(transactions)[i];
            &&& tx.lt == transactions[i].lt
            &&& tx.hash == transactions[i].hash@
            &&& tx.utime == transactions[i].utime
        },
        query@.address == query.address@,
        query@.last_lt == query.last_lt,
        query@.from_lt == query.from_lt,
        query@.limit == query.limit,
{
}

} // verus!
