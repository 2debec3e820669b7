//! How the watched addresses follow the subscriptions.
use vstd::prelude::*;

use crate::subscription::laws::{
    consistent, law_only_the_dropped_are_gone, law_unsubscribing_all_keeps_consistency,
    law_unsubscribing_undoes_subscribing, lemma_ids_without,
};
use crate::subscription::manager::{
    ids_at, ids_without, subscribed, unsubscribe_event, unsubscribe_events, unsubscribed,
    unsubscribed_all, ManagerView, MonitorEvent, MonitorEventView,
};
use crate::ton::address::{checked_address, is_address};
use crate::ton::monitor::{
    all_wanted, checked, first_lt, has_room, unwatched, watch_count, watched, MonitorView, RawTransaction,
    RawTransactionView, TransactionMonitor,
};
use crate::utils::text::unit_result;

verus! {

/// The watched addresses once a change has been followed: a text that is no address is never
/// watched.
pub open spec fn followed(
    monitor: MonitorView,
    event: MonitorEventView,
    last_lt: i64,
    now: u64,
) -> MonitorView {
    match event {
        MonitorEventView::AddAddress(address) => if is_address(address) {
            watched(monitor, address, last_lt, now)
        } else {
            monitor
        },
        MonitorEventView::RemoveAddress(address) => unwatched(monitor, address),
    }
}

/// The watched addresses once the change, if there is one, has been followed.
pub open spec fn followed_if_any(
    monitor: MonitorView,
    event: Option<MonitorEventView>,
    last_lt: i64,
    now: u64,
) -> MonitorView {
    match event {
        Some(e) => followed(monitor, e, last_lt, now),
        None => monitor,
    }
}

/// Follows a change to the addresses that are to be watched. `transactions` is the answer to
/// [`TransactionMonitor::latest_query`] for an address that is new.
pub fn follow(
    monitor: &mut TransactionMonitor,
    event: MonitorEvent,
    transactions: &Result<Vec<RawTransaction>, String>,
    now: u64,
) -> (result: Result<(), String>)
    requires
        old(monitor).wf(),
        event@ matches MonitorEventView::AddAddress(address) ==> has_room(old(monitor)@, address),
    ensures
        final(monitor).wf(),
        final(monitor)@ == followed(old(monitor)@, event@, first_lt(*transactions), now),
        match event@ {
            MonitorEventView::AddAddress(address) => match checked_address(address) {
                Ok(_) => result is Ok,
                Err(e) => unit_result(result) == Err::<(), Seq<char>>(e),
            },
            MonitorEventView::RemoveAddress(_) => result is Ok,
        },
{
    match event {
        MonitorEvent::AddAddress(address) => monitor.add_address(address, transactions, now),
        MonitorEvent::RemoveAddress(address) => {
            monitor.remove_address(&address);
            Ok(())
        },
    }
}

/// Every address that somebody is subscribed to is watched, on behalf of at least as many as
/// are subscribed.
pub open spec fn covers(monitor: MonitorView, manager: ManagerView) -> bool {
    forall|address: Seq<char>| #[trigger]
        manager.addresses.contains_key(address) && is_address(address) ==> {
            &&& monitor.addresses.contains_key(address)
            &&& monitor.addresses[address].subscription_count >= manager.addresses[address].len()
        }
}

/// A new subscription is watched once the change that it brings is followed, and so are the
/// others still.
pub proof fn law_new_subscription_is_watched(
    monitor: MonitorView,
    manager: ManagerView,
    id: Seq<char>,
    address: Seq<char>,
    sender: u64,
    last_lt: i64,
    now: u64,
)
    requires
        covers(monitor, manager),
        has_room(monitor, address),
    ensures
        covers(
            followed(monitor, MonitorEventView::AddAddress(address), last_lt, now),
            subscribed(manager, id, address, sender),
        ),
        is_address(address) ==> followed(
            monitor,
            MonitorEventView::AddAddress(address),
            last_lt,
            now,
        ).addresses.contains_key(address),
{
    let after = subscribed(manager, id, address, sender);
    let watching = followed(monitor, MonitorEventView::AddAddress(address), last_lt, now);
    assert forall|a: Seq<char>| #[trigger] after.addresses.contains_key(a) && is_address(a) implies {
        &&& watching.addresses.contains_key(a)
        &&& watching.addresses[a].subscription_count >= after.addresses[a].len()
    } by {
        assert(manager.addresses.contains_key(a) || a == address);
        assert(after.addresses[address] == ids_at(manager, address).push(id));
    }
}

/// When a subscription is dropped and the change that it brings, if any, is followed, every
/// address that somebody is still subscribed to is still watched.
pub proof fn law_others_stay_watched(
    monitor: MonitorView,
    manager: ManagerView,
    id: Seq<char>,
    last_lt: i64,
    now: u64,
)
    requires
        covers(monitor, manager),
        consistent(manager),
    ensures
        covers(
            followed_if_any(monitor, unsubscribe_event(manager, id), last_lt, now),
            unsubscribed(manager, id),
        ),
{
    if manager.subscriptions.contains_key(id) {
        let address = manager.subscriptions[id].address;
        let after = unsubscribed(manager, id);
        lemma_ids_without(ids_at(manager, address), id);
        assert(ids_at(manager, address).contains(id));
        assert(manager.addresses.contains_key(address));
        let watching = followed_if_any(monitor, unsubscribe_event(manager, id), last_lt, now);
        assert forall|a: Seq<char>| #[trigger]
            after.addresses.contains_key(a) && is_address(a) implies {
            &&& watching.addresses.contains_key(a)
            &&& watching.addresses[a].subscription_count >= after.addresses[a].len()
        } by {
            assert(manager.addresses.contains_key(a));
        }
    }
}

/// The watched addresses once changes have been followed in turn.
pub open spec fn followed_all(
    monitor: MonitorView,
    events: Seq<MonitorEventView>,
    last_lt: i64,
    now: u64,
) -> MonitorView
    decreases events.len(),
{
    if events.len() == 0 {
        monitor
    } else {
        followed(followed_all(monitor, events.drop_last(), last_lt, now), events.last(), last_lt, now)
    }
}

/// When a connection is over, its subscriptions are dropped and the changes that this brings
/// are followed, every address that somebody is still subscribed to is still watched.
pub proof fn law_others_stay_watched_when_one_leaves(
    monitor: MonitorView,
    manager: ManagerView,
    ids: Seq<Seq<char>>,
    last_lt: i64,
    now: u64,
)
    requires
        covers(monitor, manager),
        consistent(manager),
    ensures
        covers(
            followed_all(monitor, unsubscribe_events(manager, ids), last_lt, now),
            unsubscribed_all(manager, ids),
        ),
    decreases ids.len(),
{
    if ids.len() > 0 {
        let before = ids.drop_last();
        let events = unsubscribe_events(manager, before);
        let between = unsubscribed_all(manager, before);
        law_others_stay_watched_when_one_leaves(monitor, manager, before, last_lt, now);
        law_unsubscribing_all_keeps_consistency(manager, before);
        let watching = followed_all(monitor, events, last_lt, now);
        law_others_stay_watched(watching, between, ids.last(), last_lt, now);
        match unsubscribe_event(between, ids.last()) {
            Some(event) => {
                assert(events.push(event).drop_last() =~= events);
            },
            None => {},
        }
    }
}

/// Looking at the transactions of an address changes nothing about what is watched.
pub proof fn law_looking_keeps_the_watch(
    monitor: MonitorView,
    manager: ManagerView,
    address: Seq<char>,
    last_lt: i64,
    transactions: Seq<RawTransactionView>,
    now: u64,
)
    requires
        covers(monitor, manager),
    ensures
        covers(checked(monitor, address, last_lt, transactions, now), manager),
        checked(monitor, address, last_lt, transactions, now).addresses.dom()
            == monitor.addresses.dom(),
{
    assert(checked(monitor, address, last_lt, transactions, now).addresses.dom()
        =~= monitor.addresses.dom());
}

/// An address that one client alone subscribes to, and gives up again, is watched meanwhile and
/// no longer: what was watched before is watched after.
pub proof fn law_lone_subscription_leaves_no_watch(
    monitor: MonitorView,
    manager: ManagerView,
    id: Seq<char>,
    address: Seq<char>,
    sender: u64,
    last_lt: i64,
    now: u64,
    later: u64,
)
    requires
        consistent(manager),
        !manager.subscriptions.contains_key(id),
        !manager.addresses.contains_key(address),
        !monitor.addresses.contains_key(address),
    ensures
        ({
            let watching = followed(monitor, MonitorEventView::AddAddress(address), last_lt, now);
            let event = unsubscribe_event(subscribed(manager, id, address, sender), id);
            &&& event == Some(MonitorEventView::RemoveAddress(address))
            &&& followed_if_any(watching, event, 0, later) == monitor
            &&& unsubscribed(subscribed(manager, id, address, sender), id) == manager
        }),
{
    law_unsubscribing_undoes_subscribing(manager, id, address, sender);
    reveal(Seq::filter);
    let none = Seq::<Seq<char>>::empty();
    assert(none.push(id).drop_last() =~= none);
    assert(ids_without(none.push(id), id) =~= none);
    let watching = followed(monitor, MonitorEventView::AddAddress(address), last_lt, now);
    assert(unwatched(watching, address).addresses =~= monitor.addresses);
}

/// Dropping a subscription takes one off the watch of its address where it was the last one, and
/// nothing where it was not. So the address stays watched where more than one had asked for it.
pub proof fn law_only_the_last_takes_one_off(
    monitor: MonitorView,
    manager: ManagerView,
    id: Seq<char>,
    last_lt: i64,
    now: u64,
)
    requires
        manager.subscriptions.contains_key(id),
        watch_count(monitor, manager.subscriptions[id].address) > 0,
    ensures
        ({
            let address = manager.subscriptions[id].address;
            let event = unsubscribe_event(manager, id);
            let after = followed_if_any(monitor, event, last_lt, now);
            &&& event is None ==> after == monitor
            &&& event is Some ==> watch_count(after, address) == watch_count(monitor, address) - 1
            &&& event is Some ==> (after.addresses.contains_key(address) <==> watch_count(
                monitor,
                address,
            ) > 1)
        }),
{
}

/// The state once each of `ids` is subscribed to `address` in turn.
pub open spec fn subscribed_all(
    manager: ManagerView,
    ids: Seq<Seq<char>>,
    address: Seq<char>,
    sender: u64,
) -> ManagerView
    decreases ids.len(),
{
    if ids.len() == 0 {
        manager
    } else {
        subscribed(
            subscribed_all(manager, ids.drop_last(), address, sender),
            ids.last(),
            address,
            sender,
        )
    }
}

/// The changes that so many subscriptions to `address` bring.
pub open spec fn subscribe_events(address: Seq<char>, n: nat) -> Seq<MonitorEventView> {
    Seq::new(n, |i: int| MonitorEventView::AddAddress(address))
}

/// What is there once each of `ids` is subscribed to a new address.
proof fn lemma_subscribed_all(
    manager: ManagerView,
    ids: Seq<Seq<char>>,
    address: Seq<char>,
    sender: u64,
)
    requires
        !manager.addresses.contains_key(address),
    ensures
        ids_at(subscribed_all(manager, ids, address, sender), address) == ids,
        ids.len() > 0 ==> subscribed_all(manager, ids, address, sender).addresses.contains_key(
            address,
        ),
        forall|k: int|
            0 <= k < ids.len() ==> {
                let after = subscribed_all(manager, ids, address, sender);
                &&& after.subscriptions.contains_key(#[trigger] ids[k])
                &&& after.subscriptions[ids[k]].address == address
            },
    decreases ids.len(),
{
    if ids.len() > 0 {
        let before = ids.drop_last();
        lemma_subscribed_all(manager, before, address, sender);
        assert(before.push(ids.last()) =~= ids);
        assert forall|k: int| 0 <= k < ids.len() implies {
            let after = subscribed_all(manager, ids, address, sender);
            &&& after.subscriptions.contains_key(#[trigger] ids[k])
            &&& after.subscriptions[ids[k]].address == address
        } by {
            if k < before.len() {
                assert(before[k] == ids[k]);
            }
        }
    } else {
        assert(ids_at(manager, address) =~= ids);
    }
}

/// A list without its first identifier, where that occurs once.
proof fn lemma_without_first(ids: Seq<Seq<char>>)
    requires
        ids.len() > 0,
        ids.no_duplicates(),
    ensures
        ids_without(ids, ids[0]) =~= ids.skip(1),
    decreases ids.len(),
{
    reveal(Seq::filter);
    let before = ids.drop_last();
    if ids.len() > 1 {
        assert(before.no_duplicates()) by {
            assert forall|i: int, j: int|
                0 <= i < before.len() && 0 <= j < before.len() && i != j implies before[i]
                != before[j] by {
                assert(ids[i] != ids[j]);
            }
        }
        lemma_without_first(before);
        assert(ids[ids.len() - 1] != ids[0]);
        assert(before.skip(1).push(ids.last()) =~= ids.skip(1));
    } else {
        assert(before =~= Seq::empty());
        assert(ids_without(before, ids[0]) =~= Seq::empty());
    }
}

/// What is left, and what was announced, once the first `m` of the only subscriptions to an
/// address are dropped.
proof fn lemma_dropped_in_turn(full: ManagerView, ids: Seq<Seq<char>>, address: Seq<char>, m: nat)
    requires
        ids.no_duplicates(),
        0 < ids.len(),
        m <= ids.len(),
        full.addresses.contains_key(address),
        full.addresses[address] == ids,
        forall|k: int|
            0 <= k < ids.len() ==> full.subscriptions.contains_key(#[trigger] ids[k])
                && full.subscriptions[ids[k]].address == address,
    ensures
        m < ids.len() ==> {
            let left = unsubscribed_all(full, ids.take(m as int));
            &&& left.addresses.contains_key(address)
            &&& left.addresses[address] == ids.skip(m as int)
            &&& unsubscribe_events(full, ids.take(m as int)) == Seq::<MonitorEventView>::empty()
        },
        m == ids.len() ==> {
            &&& !unsubscribed_all(full, ids.take(m as int)).addresses.contains_key(address)
            &&& unsubscribe_events(full, ids.take(m as int)) == seq![
                MonitorEventView::RemoveAddress(address),
            ]
        },
    decreases m,
{
    if m == 0 {
        assert(ids.take(0) =~= Seq::empty());
        assert(ids.skip(0) =~= ids);
    } else {
        let n = (m - 1) as nat;
        lemma_dropped_in_turn(full, ids, address, n);
        let earlier = ids.take(n as int);
        let left = unsubscribed_all(full, earlier);
        let rest = ids.skip(n as int);
        let id = ids[n as int];
        assert(ids.take(m as int).drop_last() =~= earlier);
        assert(ids.take(m as int).last() == id);
        law_only_the_dropped_are_gone(full, earlier, id);
        assert(!earlier.contains(id)) by {
            if earlier.contains(id) {
                let k = choose|k: int| 0 <= k < earlier.len() && earlier[k] == id;
                assert(ids[k] != ids[n as int]);
            }
        }
        assert(rest[0] == id);
        assert(rest.no_duplicates()) by {
            assert forall|i: int, j: int|
                0 <= i < rest.len() && 0 <= j < rest.len() && i != j implies rest[i]
                != rest[j] by {
                assert(ids[n + i] != ids[n + j]);
            }
        }
        lemma_without_first(rest);
        assert(rest.skip(1) =~= ids.skip(m as int));
    }
}

/// The watch of a new address that so many changes ask for.
proof fn lemma_followed_all(
    monitor: MonitorView,
    address: Seq<char>,
    n: nat,
    last_lt: i64,
    now: u64,
)
    requires
        !monitor.addresses.contains_key(address),
        is_address(address),
        n <= u32::MAX,
    ensures
        watch_count(followed_all(monitor, subscribe_events(address, n), last_lt, now), address)
            == n,
    decreases n,
{
    if n > 0 {
        lemma_followed_all(monitor, address, (n - 1) as nat, last_lt, now);
        assert(subscribe_events(address, n).drop_last() =~= subscribe_events(
            address,
            (n - 1) as nat,
        ));
    }
}

/// A new address that several subscribe to, and that all of them drop again, is not given up as
/// often as it was asked for: nobody is subscribed to it any more, and it is still watched, on
/// behalf of one less than subscribed to it. With one subscription alone it is not.
pub proof fn law_repeated_subscriptions_leave_a_watch(
    monitor: MonitorView,
    manager: ManagerView,
    ids: Seq<Seq<char>>,
    address: Seq<char>,
    sender: u64,
    last_lt: i64,
    now: u64,
    later: u64,
)
    requires
        !manager.addresses.contains_key(address),
        !monitor.addresses.contains_key(address),
        is_address(address),
        ids.no_duplicates(),
        0 < ids.len() <= u32::MAX,
    ensures
        ({
            let full = subscribed_all(manager, ids, address, sender);
            let watching = followed_all(
                monitor,
                subscribe_events(address, ids.len()),
                last_lt,
                now,
            );
            let after = followed_all(watching, unsubscribe_events(full, ids), last_lt, later);
            &&& watch_count(watching, address) == ids.len()
            &&& !unsubscribed_all(full, ids).addresses.contains_key(address)
            &&& watch_count(after, address) == ids.len() - 1
            &&& after.addresses.contains_key(address) <==> ids.len() > 1
        }),
{
    let full = subscribed_all(manager, ids, address, sender);
    let watching = followed_all(monitor, subscribe_events(address, ids.len()), last_lt, now);
    lemma_subscribed_all(manager, ids, address, sender);
    lemma_dropped_in_turn(full, ids, address, ids.len());
    lemma_followed_all(monitor, address, ids.len(), last_lt, now);
    assert(ids.take(ids.len() as int) =~= ids);
    let events = unsubscribe_events(full, ids);
    let none = Seq::<MonitorEventView>::empty();
    assert(events.drop_last() =~= none);
    assert(events.last() == MonitorEventView::RemoveAddress(address));
    assert(followed_all(watching, none, last_lt, later) == watching);
}

/// Following a change touches the watch of its address alone, and asking for what is no address
/// touches none. An address that is asked for is watched then, for one more; one that is given up
/// is watched for one less, if it was.
pub proof fn law_change_touches_only_its_address(
    monitor: MonitorView,
    address: Seq<char>,
    other: Seq<char>,
    last_lt: i64,
    now: u64,
)
    requires
        all_wanted(monitor),
        has_room(monitor, address),
    ensures
        ({
            let asked = followed(monitor, MonitorEventView::AddAddress(address), last_lt, now);
            let given_up = followed(
                monitor,
                MonitorEventView::RemoveAddress(address),
                last_lt,
                now,
            );
            &&& !is_address(address) ==> asked == monitor
            &&& is_address(address) ==> watch_count(asked, address) == watch_count(
                monitor,
                address,
            ) + 1
            &&& is_address(address) && !monitor.addresses.contains_key(address)
                ==> asked.addresses[address].last_lt == last_lt
            &&& watch_count(monitor, address) == 0 ==> watch_count(given_up, address) == 0
            &&& watch_count(monitor, address) > 0 ==> watch_count(given_up, address) == watch_count(
                monitor,
                address,
            ) - 1
            &&& other != address ==> {
                &&& asked.addresses.contains_key(other) <==> monitor.addresses.contains_key(other)
                &&& given_up.addresses.contains_key(other) <==> monitor.addresses.contains_key(
                    other,
                )
                &&& monitor.addresses.contains_key(other) ==> asked.addresses[other]
                    == monitor.addresses[other] && given_up.addresses[other]
                    == monitor.addresses[other]
            }
        }),
{
}

} // verus!
