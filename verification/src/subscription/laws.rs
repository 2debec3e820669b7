//! What holds of the subscriptions whatever is asked of them.
use vstd::prelude::*;

use crate::subscription::manager::{
    ids_at, ids_without, shutdown_notices, subscribed, trace_deliveries, trace_message, unsubscribe_event,
    unsubscribe_events, unsubscribed, unsubscribed_all, DeliveryView, ManagerView,
    MonitorEventView,
};
use crate::subscription::store::{lists_all, SubscriptionView};
use crate::ton::monitor::TransactionEventView;
use crate::ton::trace::{
    accounts_of, fetched_trace, keeps_each_account_once, kept_trace,
    law_fetched_trace_has_each_account_once, without_repeats, TraceResponse,
};
use crate::websocket::message::{ServerMessageView, TraceView};

verus! {

/// The two maps agree: each subscription is listed once, for its own address, and an address
/// is there only while it has subscriptions.
pub open spec fn consistent(state: ManagerView) -> bool {
    &&& state.subscriptions.dom().finite()
    &&& state.addresses.dom().finite()
    &&& forall|id: Seq<char>| #[trigger]
        state.subscriptions.contains_key(id) ==> {
            &&& state.subscriptions[id].id == id
            &&& ids_at(state, state.subscriptions[id].address).contains(id)
        }
    &&& forall|address: Seq<char>| #[trigger]
        state.addresses.contains_key(address) ==> {
            &&& state.addresses[address].len() > 0
            &&& state.addresses[address].no_duplicates()
            &&& forall|k: int|
                0 <= k < state.addresses[address].len() ==> {
                    &&& state.subscriptions.contains_key(#[trigger] state.addresses[address][k])
                    &&& state.subscriptions[state.addresses[address][k]].address == address
                }
        }
}

/// The identifiers that are left when one is dropped.
pub proof fn lemma_ids_without(ids: Seq<Seq<char>>, id: Seq<char>)
    ensures
        forall|other: Seq<char>| #[trigger]
            ids_without(ids, id).contains(other) <==> ids.contains(other) && other != id,
        ids.no_duplicates() ==> ids_without(ids, id).no_duplicates(),
        ids_without(ids, id).len() <= ids.len(),
        !ids.contains(id) ==> ids_without(ids, id) == ids,
    decreases ids.len(),
{
    reveal(Seq::filter);
    let left = ids_without(ids, id);
    if ids.len() > 0 {
        let before = ids.drop_last();
        let last = ids.last();
        lemma_ids_without(before, id);
        let left_before = ids_without(before, id);
        assert(ids =~= before.push(last));
        assert forall|other: Seq<char>| #[trigger] left.contains(other) <==> ids.contains(other)
            && other != id by {
            if left.contains(other) {
                let k = choose|k: int| 0 <= k < left.len() && left[k] == other;
                if k < left_before.len() {
                    assert(left_before[k] == other);
                    assert(left_before.contains(other));
                    let m = choose|m: int| 0 <= m < before.len() && before[m] == other;
                    assert(ids[m] == other);
                } else {
                    assert(ids[ids.len() - 1] == other);
                }
            }
            if ids.contains(other) && other != id {
                let m = choose|m: int| 0 <= m < ids.len() && ids[m] == other;
                if m < before.len() {
                    assert(before[m] == other);
                    assert(left_before.contains(other));
                    let k = choose|k: int| 0 <= k < left_before.len() && left_before[k] == other;
                    assert(left[k] == other);
                } else {
                    assert(left[left.len() - 1] == other);
                }
            }
        }
        if ids.no_duplicates() {
            assert(before.no_duplicates()) by {
                assert forall|i: int, j: int|
                    0 <= i < before.len() && 0 <= j < before.len() && i != j implies before[i]
                    != before[j] by {
                    assert(ids[i] != ids[j]);
                }
            }
            assert(!before.contains(last)) by {
                if before.contains(last) {
                    let m = choose|m: int| 0 <= m < before.len() && before[m] == last;
                    assert(ids[m] != ids[ids.len() - 1]);
                }
            }
            assert(!left_before.contains(last));
            assert forall|i: int, j: int|
                0 <= i < left.len() && 0 <= j < left.len() && i != j implies left[i] != left[j] by {
                if i < left_before.len() && j < left_before.len() {
                    assert(left_before[i] != left_before[j]);
                } else if i < left_before.len() {
                    assert(left_before.contains(left_before[i]));
                } else {
                    assert(left_before.contains(left_before[j]));
                }
            }
        }
        if !ids.contains(id) {
            assert(!before.contains(id)) by {
                if before.contains(id) {
                    let m = choose|m: int| 0 <= m < before.len() && before[m] == id;
                    assert(ids[m] == id);
                }
            }
            assert(ids[ids.len() - 1] == last);
            assert(left =~= ids);
        }
    } else {
        assert(left =~= ids);
    }
}

/// A manager without subscriptions is consistent, whatever its traces are.
pub proof fn law_empty_manager_is_consistent(state: ManagerView)
    requires
        state.subscriptions == Map::<Seq<char>, SubscriptionView>::empty(),
        state.addresses == Map::<Seq<char>, Seq<Seq<char>>>::empty(),
    ensures
        consistent(state),
{
}

/// Subscribing under an identifier that is not in use keeps the maps in agreement.
pub proof fn law_subscribing_keeps_consistency(
    state: ManagerView,
    id: Seq<char>,
    address: Seq<char>,
    sender: u64,
)
    requires
        consistent(state),
        !state.subscriptions.contains_key(id),
    ensures
        consistent(subscribed(state, id, address, sender)),
{
    let after = subscribed(state, id, address, sender);
    let ids = ids_at(state, address);
    let listed = ids.push(id);
    assert(!ids.contains(id)) by {
        if ids.contains(id) {
            let k = choose|k: int| 0 <= k < ids.len() && ids[k] == id;
            assert(state.subscriptions.contains_key(state.addresses[address][k]));
        }
    }
    assert forall|other: Seq<char>| #[trigger] after.subscriptions.contains_key(other) implies {
        &&& after.subscriptions[other].id == other
        &&& ids_at(after, after.subscriptions[other].address).contains(other)
    } by {
        if other == id {
            assert(listed[ids.len() as int] == id);
        } else {
            assert(state.subscriptions.contains_key(other));
            let own = state.subscriptions[other].address;
            let k = choose|k: int| 0 <= k < ids_at(state, own).len() && ids_at(state, own)[k] == other;
            assert(ids_at(after, own)[k] == other);
        }
    }
    assert forall|a: Seq<char>| #[trigger] after.addresses.contains_key(a) implies {
        &&& after.addresses[a].len() > 0
        &&& after.addresses[a].no_duplicates()
        &&& forall|k: int|
            0 <= k < after.addresses[a].len() ==> {
                &&& after.subscriptions.contains_key(#[trigger] after.addresses[a][k])
                &&& after.subscriptions[after.addresses[a][k]].address == a
            }
    } by {
        if a == address {
            assert forall|k: int| 0 <= k < listed.len() implies {
                &&& after.subscriptions.contains_key(#[trigger] listed[k])
                &&& after.subscriptions[listed[k]].address == a
            } by {
                if k < ids.len() {
                    assert(state.subscriptions.contains_key(state.addresses[address][k]));
                    assert(listed[k] == ids[k]);
                    assert(ids.contains(ids[k]));
                }
            }
            assert forall|i: int, j: int|
                0 <= i < listed.len() && 0 <= j < listed.len() && i != j implies listed[i]
                != listed[j] by {
                if i < ids.len() {
                    assert(ids.contains(ids[i]));
                }
                if j < ids.len() {
                    assert(ids.contains(ids[j]));
                }
            }
        } else {
            assert(state.addresses.contains_key(a));
            assert forall|k: int| 0 <= k < after.addresses[a].len() implies {
                &&& after.subscriptions.contains_key(#[trigger] after.addresses[a][k])
                &&& after.subscriptions[after.addresses[a][k]].address == a
            } by {
                assert(state.subscriptions.contains_key(state.addresses[a][k]));
            }
        }
    }
}

/// Dropping a subscription, or what is none, keeps the maps in agreement.
pub proof fn law_unsubscribing_keeps_consistency(state: ManagerView, id: Seq<char>)
    requires
        consistent(state),
    ensures
        consistent(unsubscribed(state, id)),
{
    if state.subscriptions.contains_key(id) {
        let after = unsubscribed(state, id);
        let address = state.subscriptions[id].address;
        let ids = ids_at(state, address);
        let left = ids_without(ids, id);
        lemma_ids_without(ids, id);
        assert forall|other: Seq<char>| #[trigger] after.subscriptions.contains_key(other) implies {
            &&& after.subscriptions[other].id == other
            &&& ids_at(after, after.subscriptions[other].address).contains(other)
        } by {
            assert(state.subscriptions.contains_key(other));
            let own = state.subscriptions[other].address;
            if own == address {
                assert(left.contains(other));
            }
        }
        assert forall|a: Seq<char>| #[trigger] after.addresses.contains_key(a) implies {
            &&& after.addresses[a].len() > 0
            &&& after.addresses[a].no_duplicates()
            &&& forall|k: int|
                0 <= k < after.addresses[a].len() ==> {
                    &&& after.subscriptions.contains_key(#[trigger] after.addresses[a][k])
                    &&& after.subscriptions[after.addresses[a][k]].address == a
                }
        } by {
            assert(state.addresses.contains_key(a));
            assert forall|k: int| 0 <= k < after.addresses[a].len() implies {
                &&& after.subscriptions.contains_key(#[trigger] after.addresses[a][k])
                &&& after.subscriptions[after.addresses[a][k]].address == a
            } by {
                let other = after.addresses[a][k];
                if a == address {
                    assert(left.contains(left[k]));
                    let m = choose|m: int| 0 <= m < ids.len() && ids[m] == other;
                    assert(state.subscriptions.contains_key(state.addresses[a][m]));
                } else {
                    assert(state.subscriptions.contains_key(state.addresses[a][k]));
                }
            }
        }
    }
}

/// Dropping subscriptions in turn keeps the maps in agreement.
pub proof fn law_unsubscribing_all_keeps_consistency(state: ManagerView, ids: Seq<Seq<char>>)
    requires
        consistent(state),
    ensures
        consistent(unsubscribed_all(state, ids)),
    decreases ids.len(),
{
    if ids.len() > 0 {
        law_unsubscribing_all_keeps_consistency(state, ids.drop_last());
        law_unsubscribing_keeps_consistency(
            unsubscribed_all(state, ids.drop_last()),
            ids.last(),
        );
    }
}

/// A subscription that is made and dropped again leaves everything as it was.
pub proof fn law_unsubscribing_undoes_subscribing(
    state: ManagerView,
    id: Seq<char>,
    address: Seq<char>,
    sender: u64,
)
    requires
        consistent(state),
        !state.subscriptions.contains_key(id),
    ensures
        unsubscribed(subscribed(state, id, address, sender), id) == state,
{
    let after = subscribed(state, id, address, sender);
    let ids = ids_at(state, address);
    assert(!ids.contains(id)) by {
        if ids.contains(id) {
            let k = choose|k: int| 0 <= k < ids.len() && ids[k] == id;
            assert(state.subscriptions.contains_key(state.addresses[address][k]));
        }
    }
    lemma_ids_without(ids, id);
    reveal(Seq::filter);
    assert(ids.push(id).drop_last() =~= ids);
    assert(ids_without(ids.push(id), id) == ids);
    let back = unsubscribed(after, id);
    assert(back.subscriptions =~= state.subscriptions);
    assert(back.addresses =~= state.addresses);
}

/// Exactly the dropped subscriptions are gone, and the others are as they were.
pub proof fn law_only_the_dropped_are_gone(state: ManagerView, ids: Seq<Seq<char>>, id: Seq<char>)
    ensures
        unsubscribed_all(state, ids).subscriptions.contains_key(id) <==> state.subscriptions.contains_key(
            id,
        ) && !ids.contains(id),
        unsubscribed_all(state, ids).subscriptions.contains_key(id) ==> unsubscribed_all(
            state,
            ids,
        ).subscriptions[id] == state.subscriptions[id],
        unsubscribed_all(state, ids).traces == state.traces,
    decreases ids.len(),
{
    if ids.len() > 0 {
        let before = ids.drop_last();
        law_only_the_dropped_are_gone(state, before, id);
        if before.contains(id) {
            let k = choose|k: int| 0 <= k < before.len() && before[k] == id;
            assert(ids[k] == id);
        }
        if ids.contains(id) && id != ids.last() {
            let k = choose|k: int| 0 <= k < ids.len() && ids[k] == id;
            assert(before[k] == id);
        }
        if id == ids.last() {
            assert(ids[ids.len() - 1] == id);
        }
    }
}

/// An address is there exactly while somebody is subscribed to it.
pub proof fn law_address_is_there_while_subscribed(state: ManagerView, address: Seq<char>)
    requires
        consistent(state),
    ensures
        state.addresses.contains_key(address) <==> exists|id: Seq<char>| #[trigger]
            state.subscriptions.contains_key(id) && state.subscriptions[id].address == address,
{
    if state.addresses.contains_key(address) {
        let id = state.addresses[address][0];
        assert(state.subscriptions.contains_key(id) && state.subscriptions[id].address == address);
    }
}

/// The change that gives up an address is announced exactly when its last subscription is
/// dropped.
pub proof fn law_address_is_given_up_with_the_last_subscription(state: ManagerView, id: Seq<char>)
    requires
        consistent(state),
        state.subscriptions.contains_key(id),
    ensures
        unsubscribe_event(state, id) == if exists|other: Seq<char>|
            other != id && #[trigger] state.subscriptions.contains_key(other)
                && state.subscriptions[other].address == state.subscriptions[id].address {
            None::<MonitorEventView>
        } else {
            Some(MonitorEventView::RemoveAddress(state.subscriptions[id].address))
        },
        unsubscribe_event(state, id) is Some <==> !unsubscribed(state, id).addresses.contains_key(
            state.subscriptions[id].address,
        ),
{
    let address = state.subscriptions[id].address;
    let ids = ids_at(state, address);
    let left = ids_without(ids, id);
    lemma_ids_without(ids, id);
    if left.len() > 0 {
        let other = left[0];
        assert(left.contains(other));
        let m = choose|m: int| 0 <= m < ids.len() && ids[m] == other;
        assert(state.subscriptions.contains_key(state.addresses[address][m]));
        assert(other != id && state.subscriptions.contains_key(other)
            && state.subscriptions[other].address == address);
    }
    if exists|other: Seq<char>|
        other != id && #[trigger] state.subscriptions.contains_key(other)
            && state.subscriptions[other].address == address {
        let other = choose|other: Seq<char>|
            other != id && #[trigger] state.subscriptions.contains_key(other)
                && state.subscriptions[other].address == address;
        assert(ids.contains(other));
        assert(left.contains(other));
    }
}

/// Where all identifiers are subscriptions, there is one delivery for each, in order.
proof fn lemma_delivery_for_each(
    state: ManagerView,
    ids: Seq<Seq<char>>,
    address: Seq<char>,
    trace: TraceView,
)
    requires
        forall|k: int|
            0 <= k < ids.len() ==> state.subscriptions.contains_key(#[trigger] ids[k]),
    ensures
        trace_deliveries(state, ids, address, trace).len() == ids.len(),
        forall|k: int|
            0 <= k < ids.len() ==> (#[trigger] trace_deliveries(state, ids, address, trace)[k]) == (
            DeliveryView {
                subscription_id: ids[k],
                sender: state.subscriptions[ids[k]].sender,
                message: trace_message(state.subscriptions[ids[k]], address, trace),
            }),
    decreases ids.len(),
{
    if ids.len() > 0 {
        lemma_delivery_for_each(state, ids.drop_last(), address, trace);
        assert(state.subscriptions.contains_key(ids[ids.len() - 1]));
        let all = trace_deliveries(state, ids, address, trace);
        let before = trace_deliveries(state, ids.drop_last(), address, trace);
        assert forall|k: int| 0 <= k < ids.len() implies (#[trigger] all[k]) == (DeliveryView {
            subscription_id: ids[k],
            sender: state.subscriptions[ids[k]].sender,
            message: trace_message(state.subscriptions[ids[k]], address, trace),
        }) by {
            if k < ids.len() - 1 {
                assert(all[k] == before[k]);
            }
        }
    }
}

/// A trace goes once to each subscriber of the address, under the subscriber's identifier and
/// through the subscriber's channel, and to nobody else.
pub proof fn law_trace_goes_once_to_each_subscriber(
    state: ManagerView,
    address: Seq<char>,
    trace: TraceView,
)
    requires
        consistent(state),
        state.addresses.contains_key(address),
    ensures
        forall|k: int|
            0 <= k < trace_deliveries(state, state.addresses[address], address, trace).len() ==> {
                let delivery = #[trigger] trace_deliveries(
                    state,
                    state.addresses[address],
                    address,
                    trace,
                )[k];
                &&& state.subscriptions.contains_key(delivery.subscription_id)
                &&& state.subscriptions[delivery.subscription_id].address == address
                &&& state.subscriptions[delivery.subscription_id].id == delivery.subscription_id
                &&& delivery.sender == state.subscriptions[delivery.subscription_id].sender
                &&& delivery.message == trace_message(
                    state.subscriptions[delivery.subscription_id],
                    address,
                    trace,
                )
            },
        forall|i: int, j: int|
            0 <= i < j < trace_deliveries(state, state.addresses[address], address, trace).len()
                ==> (#[trigger] trace_deliveries(
                state,
                state.addresses[address],
                address,
                trace,
            )[i]).subscription_id != (#[trigger] trace_deliveries(
                state,
                state.addresses[address],
                address,
                trace,
            )[j]).subscription_id,
        forall|id: Seq<char>| #[trigger]
            state.subscriptions.contains_key(id) && state.subscriptions[id].address == address
                ==> exists|k: int|
                0 <= k < trace_deliveries(state, state.addresses[address], address, trace).len() && (
                #[trigger] trace_deliveries(
                    state,
                    state.addresses[address],
                    address,
                    trace,
                )[k]).subscription_id == id,
{
    let ids = state.addresses[address];
    lemma_delivery_for_each(state, ids, address, trace);
    let all = trace_deliveries(state, ids, address, trace);
    assert forall|k: int| 0 <= k < all.len() implies state.subscriptions.contains_key(
        (#[trigger] all[k]).subscription_id,
    ) && state.subscriptions[all[k].subscription_id].address == address by {
        assert(state.subscriptions.contains_key(ids[k]));
    }
    assert forall|i: int, j: int| 0 <= i < j < all.len() implies (#[trigger] all[i]).subscription_id
        != (#[trigger] all[j]).subscription_id by {
        assert(ids[i] != ids[j]);
    }
    assert forall|id: Seq<char>| #[trigger]
        state.subscriptions.contains_key(id) && state.subscriptions[id].address
            == address implies exists|k: int|
        0 <= k < all.len() && (#[trigger] all[k]).subscription_id == id by {
        assert(ids_at(state, address).contains(id));
        let k = choose|k: int| 0 <= k < ids.len() && ids[k] == id;
        assert(all[k].subscription_id == id);
    }
}

/// All messages that a new transaction leads to, where `response` is the answer if its trace
/// has to be asked for and nobody comes or goes meanwhile.
pub open spec fn sent_for(
    state: ManagerView,
    event: TransactionEventView,
    response: Result<TraceResponse, String>,
) -> Seq<DeliveryView> {
    match (kept_trace(state.traces, event.transaction_hash), fetched_trace(response)) {
        (Some(trace), _) => trace_deliveries(
            state,
            ids_at(state, event.address),
            event.address,
            trace,
        ),
        (None, Ok(trace)) => trace_deliveries(
            state,
            ids_at(state, event.address),
            event.address,
            without_repeats(trace),
        ),
        (None, Err(_)) => Seq::empty(),
    }
}

/// A new transaction leads to one message for each subscriber of its address, and to no other,
/// as long as its trace can be had. All carry the same trace, in which each account occurs
/// once.
pub proof fn law_new_transaction_reaches_each_subscriber_once(
    state: ManagerView,
    event: TransactionEventView,
    response: Result<TraceResponse, String>,
) -> (trace: TraceView)
    requires
        consistent(state),
        keeps_each_account_once(state.traces),
        kept_trace(state.traces, event.transaction_hash) is Some || fetched_trace(response) is Ok,
    ensures
        accounts_of(trace).no_duplicates(),
        forall|k: int|
            0 <= k < sent_for(state, event, response).len() ==> {
                let delivery = #[trigger] sent_for(state, event, response)[k];
                &&& state.subscriptions.contains_key(delivery.subscription_id)
                &&& state.subscriptions[delivery.subscription_id].address == event.address
                &&& delivery.sender == state.subscriptions[delivery.subscription_id].sender
                &&& delivery.message == (ServerMessageView::TransactionTrace {
                    subscription_id: delivery.subscription_id,
                    address: event.address,
                    trace,
                })
            },
        forall|i: int, j: int|
            0 <= i < j < sent_for(state, event, response).len() ==> (#[trigger] sent_for(
                state,
                event,
                response,
            )[i]).subscription_id != (#[trigger] sent_for(state, event, response)[j]).subscription_id,
        forall|id: Seq<char>| #[trigger]
            state.subscriptions.contains_key(id) && state.subscriptions[id].address
                == event.address ==> exists|k: int|
                0 <= k < sent_for(state, event, response).len() && (#[trigger] sent_for(
                    state,
                    event,
                    response,
                )[k]).subscription_id == id,
{
    let trace = match kept_trace(state.traces, event.transaction_hash) {
        Some(trace) => trace,
        None => {
            law_fetched_trace_has_each_account_once(response);
            without_repeats(fetched_trace(response)->Ok_0)
        },
    };
    if state.addresses.contains_key(event.address) {
        law_trace_goes_once_to_each_subscriber(state, event.address, trace);
    } else {
        assert(ids_at(state, event.address).len() == 0);
        assert forall|id: Seq<char>| #[trigger] state.subscriptions.contains_key(
            id,
        ) implies state.subscriptions[id].address != event.address by {
            assert(ids_at(state, state.subscriptions[id].address).contains(id));
        }
    }
    trace
}

/// When subscriptions are dropped in turn, exactly the addresses that nobody is subscribed to
/// any more are announced as given up, each once.
pub proof fn law_exactly_the_deserted_are_announced(
    state: ManagerView,
    ids: Seq<Seq<char>>,
    address: Seq<char>,
)
    requires
        consistent(state),
    ensures
        unsubscribe_events(state, ids).contains(MonitorEventView::RemoveAddress(address))
            <==> state.addresses.contains_key(address) && !unsubscribed_all(
            state,
            ids,
        ).addresses.contains_key(address),
        unsubscribed_all(state, ids).addresses.contains_key(address)
            ==> state.addresses.contains_key(address),
        unsubscribe_events(state, ids).no_duplicates(),
    decreases ids.len(),
{
    let announced = MonitorEventView::RemoveAddress(address);
    if ids.len() > 0 {
        let before = ids.drop_last();
        let id = ids.last();
        let between = unsubscribed_all(state, before);
        let events = unsubscribe_events(state, before);
        law_exactly_the_deserted_are_announced(state, before, address);
        law_unsubscribing_all_keeps_consistency(state, before);
        if between.subscriptions.contains_key(id) {
            let own = between.subscriptions[id].address;
            law_exactly_the_deserted_are_announced(state, before, own);
            law_address_is_given_up_with_the_last_subscription(between, id);
            assert(ids_at(between, own).contains(id));
            assert(between.addresses.contains_key(own));
            match unsubscribe_event(between, id) {
                Some(event) => {
                    let all = events.push(event);
                    assert(all[events.len() as int] == event);
                    if events.contains(announced) {
                        let k = choose|k: int| 0 <= k < events.len() && events[k] == announced;
                        assert(all[k] == announced);
                    }
                    if all.contains(announced) && own != address {
                        let k = choose|k: int| 0 <= k < all.len() && all[k] == announced;
                        assert(events[k] == announced);
                    }
                    assert forall|i: int, j: int|
                        0 <= i < all.len() && 0 <= j < all.len() && i != j implies all[i]
                        != all[j] by {
                        if i < events.len() {
                            assert(events.contains(events[i]));
                        }
                        if j < events.len() {
                            assert(events.contains(events[j]));
                        }
                    }
                },
                None => {},
            }
        }
    }
}

/// The sum of the counts of a listing.
pub open spec fn total_count(counts: Seq<(Seq<char>, nat)>) -> nat
    decreases counts.len(),
{
    if counts.len() == 0 {
        0
    } else {
        total_count(counts.drop_last()) + counts.last().1
    }
}

/// The subscriptions of the listed addresses are as many as the counts say.
proof fn lemma_count_listed(
    state: ManagerView,
    counts: Seq<(Seq<char>, nat)>,
    listed: Set<Seq<char>>,
)
    requires
        consistent(state),
        forall|i: int, j: int|
            0 <= i < j < counts.len() ==> (#[trigger] counts[i]).0 != (#[trigger] counts[j]).0,
        forall|i: int|
            0 <= i < counts.len() ==> state.addresses.contains_key((#[trigger] counts[i]).0)
                && counts[i].1 == state.addresses[counts[i].0].len(),
        forall|id: Seq<char>| #[trigger]
            listed.contains(id) <==> state.subscriptions.contains_key(id) && exists|i: int|
                0 <= i < counts.len() && (#[trigger] counts[i]).0
                    == state.subscriptions[id].address,
    ensures
        listed.finite(),
        listed.len() == total_count(counts),
    decreases counts.len(),
{
    if counts.len() == 0 {
        assert(listed =~= Set::empty());
    } else {
        let before = counts.drop_last();
        let address = counts.last().0;
        let ids = state.addresses[address];
        let here = ids.to_set();
        let there = listed.difference(here);
        assert(counts[counts.len() - 1].0 == address);
        assert forall|id: Seq<char>| #[trigger] here.contains(id) <==> state.subscriptions.contains_key(id)
            && state.subscriptions[id].address == address by {
            if here.contains(id) {
                let k = choose|k: int| 0 <= k < ids.len() && ids[k] == id;
                assert(state.subscriptions.contains_key(state.addresses[address][k]));
            }
            if state.subscriptions.contains_key(id) && state.subscriptions[id].address == address {
                assert(ids_at(state, address).contains(id));
            }
        }
        assert forall|id: Seq<char>| #[trigger]
            there.contains(id) <==> state.subscriptions.contains_key(id) && exists|i: int|
                0 <= i < before.len() && (#[trigger] before[i]).0
                    == state.subscriptions[id].address by {
            if there.contains(id) {
                let i = choose|i: int|
                    0 <= i < counts.len() && (#[trigger] counts[i]).0
                        == state.subscriptions[id].address;
                assert(before[i].0 == state.subscriptions[id].address);
            }
            if state.subscriptions.contains_key(id) && exists|i: int|
                0 <= i < before.len() && (#[trigger] before[i]).0
                    == state.subscriptions[id].address {
                let i = choose|i: int|
                    0 <= i < before.len() && (#[trigger] before[i]).0
                        == state.subscriptions[id].address;
                assert(counts[i].0 == state.subscriptions[id].address);
                assert(counts[i].0 != counts[counts.len() - 1].0);
            }
        }
        assert forall|i: int, j: int| 0 <= i < j < before.len() implies (#[trigger] before[i]).0 != (
        #[trigger] before[j]).0 by {
            assert(counts[i].0 != counts[j].0);
        }
        assert forall|i: int| 0 <= i < before.len() implies state.addresses.contains_key(
            (#[trigger] before[i]).0,
        ) && before[i].1 == state.addresses[before[i].0].len() by {
            assert(counts[i] == before[i]);
        }
        lemma_count_listed(state, before, there);
        ids.unique_seq_to_set();
        vstd::seq_lib::seq_to_set_is_finite(ids);
        vstd::set_lib::lemma_set_disjoint_lens(there, here);
        assert forall|id: Seq<char>| here.contains(id) implies #[trigger] listed.contains(id) by {
            assert(counts[counts.len() - 1].0 == state.subscriptions[id].address);
        }
        assert(there + here =~= listed);
    }
}

/// The counts by address add up to the count of all subscriptions.
pub proof fn law_counts_add_up(state: ManagerView, counts: Seq<(Seq<char>, nat)>)
    requires
        consistent(state),
        lists_all(counts, state.addresses.map_values(|ids: Seq<Seq<char>>| ids.len())),
    ensures
        total_count(counts) == state.subscriptions.len(),
{
    let listed = state.subscriptions.dom();
    let by_address = state.addresses.map_values(|ids: Seq<Seq<char>>| ids.len());
    assert forall|i: int| 0 <= i < counts.len() implies state.addresses.contains_key(
        (#[trigger] counts[i]).0,
    ) && counts[i].1 == state.addresses[counts[i].0].len() by {
        assert(by_address.contains_key(counts[i].0));
    }
    assert forall|id: Seq<char>| #[trigger]
        listed.contains(id) <==> state.subscriptions.contains_key(id) && exists|i: int|
            0 <= i < counts.len() && (#[trigger] counts[i]).0
                == state.subscriptions[id].address by {
        if listed.contains(id) {
            assert(state.subscriptions.contains_key(id));
            let address = state.subscriptions[id].address;
            assert(ids_at(state, address).contains(id));
            assert(by_address.contains_key(address));
        }
    }
    lemma_count_listed(state, counts, listed);
}

/// A new subscription is there as it was asked for, last on the list of its address, and nothing
/// else is touched.
pub proof fn law_subscribing_adds_exactly_one(
    state: ManagerView,
    id: Seq<char>,
    address: Seq<char>,
    sender: u64,
    other: Seq<char>,
    elsewhere: Seq<char>,
)
    ensures
        ({
            let after = subscribed(state, id, address, sender);
            &&& after.traces == state.traces
            &&& after.subscriptions.contains_key(id)
            &&& after.subscriptions[id].id == id
            &&& after.subscriptions[id].address == address
            &&& after.subscriptions[id].sender == sender
            &&& other != id ==> {
                &&& after.subscriptions.contains_key(other) <==> state.subscriptions.contains_key(
                    other,
                )
                &&& state.subscriptions.contains_key(other) ==> after.subscriptions[other]
                    == state.subscriptions[other]
            }
            &&& after.addresses.contains_key(address)
            &&& after.addresses[address].last() == id
            &&& state.addresses.contains_key(address) ==> after.addresses[address].drop_last()
                == state.addresses[address]
            &&& !state.addresses.contains_key(address) ==> after.addresses[address] == seq![id]
            &&& elsewhere != address ==> {
                &&& after.addresses.contains_key(elsewhere) <==> state.addresses.contains_key(
                    elsewhere,
                )
                &&& state.addresses.contains_key(elsewhere) ==> after.addresses[elsewhere]
                    == state.addresses[elsewhere]
            }
        }),
{
    let after = subscribed(state, id, address, sender);
    assert(ids_at(state, address).push(id).drop_last() =~= ids_at(state, address));
    if !state.addresses.contains_key(address) {
        assert(after.addresses[address] =~= seq![id]);
    }
}

/// Dropping a subscription takes it away, and its identifier off the list of its address, which
/// goes when nobody is left on it. Nothing else is touched, and dropping what is no subscription
/// changes nothing.
pub proof fn law_unsubscribing_takes_exactly_one(
    state: ManagerView,
    id: Seq<char>,
    other: Seq<char>,
    elsewhere: Seq<char>,
)
    requires
        consistent(state),
    ensures
        ({
            let after = unsubscribed(state, id);
            &&& after.traces == state.traces
            &&& !after.subscriptions.contains_key(id)
            &&& !state.subscriptions.contains_key(id) ==> after == state
            &&& other != id ==> {
                &&& after.subscriptions.contains_key(other) <==> state.subscriptions.contains_key(
                    other,
                )
                &&& state.subscriptions.contains_key(other) ==> after.subscriptions[other]
                    == state.subscriptions[other]
            }
            &&& state.subscriptions.contains_key(id) && elsewhere
                != state.subscriptions[id].address ==> {
                &&& after.addresses.contains_key(elsewhere) <==> state.addresses.contains_key(
                    elsewhere,
                )
                &&& state.addresses.contains_key(elsewhere) ==> after.addresses[elsewhere]
                    == state.addresses[elsewhere]
            }
            &&& state.subscriptions.contains_key(id) ==> {
                let address = state.subscriptions[id].address;
                &&& state.addresses.contains_key(address)
                &&& other != id && state.addresses[address].contains(other)
                    ==> after.addresses.contains_key(address)
                    && after.addresses[address].contains(other)
                &&& after.addresses.contains_key(address) ==> {
                    &&& after.addresses[address].len() == state.addresses[address].len() - 1
                    &&& !after.addresses[address].contains(id)
                    &&& after.addresses[address].contains(other)
                        ==> state.addresses[address].contains(other)
                }
            }
        }),
{
    if state.subscriptions.contains_key(id) {
        let address = state.subscriptions[id].address;
        let ids = ids_at(state, address);
        assert(ids.contains(id));
        lemma_ids_without(ids, id);
        lemma_one_less(ids, id);
        if other != id && ids.contains(other) {
            assert(ids_without(ids, id).contains(other));
        }
    }
}

/// A list without one that occurs in it once is one shorter.
proof fn lemma_one_less(ids: Seq<Seq<char>>, id: Seq<char>)
    requires
        ids.no_duplicates(),
        ids.contains(id),
    ensures
        ids_without(ids, id).len() == ids.len() - 1,
    decreases ids.len(),
{
    reveal(Seq::filter);
    let before = ids.drop_last();
    assert(before.no_duplicates()) by {
        assert forall|i: int, j: int|
            0 <= i < before.len() && 0 <= j < before.len() && i != j implies before[i]
            != before[j] by {
            assert(ids[i] != ids[j]);
        }
    }
    if ids.last() == id {
        assert(!before.contains(id)) by {
            if before.contains(id) {
                let k = choose|k: int| 0 <= k < before.len() && before[k] == id;
                assert(ids[k] != ids[ids.len() - 1]);
            }
        }
        lemma_ids_without(before, id);
    } else {
        let k = choose|k: int| 0 <= k < ids.len() && ids[k] == id;
        assert(before[k] == id);
        lemma_one_less(before, id);
    }
}

/// Taking an identifier off two lists together is taking it off the one and then off the other,
/// and a list of one is left exactly where that is another.
pub proof fn law_lists_are_cut_one_by_one(
    first: Seq<Seq<char>>,
    second: Seq<Seq<char>>,
    id: Seq<char>,
    other: Seq<char>,
)
    ensures
        ids_without(first + second, id) == ids_without(first, id) + ids_without(second, id),
        ids_without(seq![other], id) == if other == id {
            Seq::<Seq<char>>::empty()
        } else {
            seq![other]
        },
        ids_without(Seq::empty(), id) == Seq::<Seq<char>>::empty(),
    decreases second.len(),
{
    reveal(Seq::filter);
    let none = Seq::<Seq<char>>::empty();
    assert(ids_without(none, id) =~= none);
    assert(seq![other].drop_last() =~= none);
    assert(ids_without(seq![other].drop_last(), id) =~= none);
    assert(ids_without(seq![other], id) =~= if other == id {
        none
    } else {
        seq![other]
    });
    if second.len() > 0 {
        law_lists_are_cut_one_by_one(first, second.drop_last(), id, other);
        assert((first + second).drop_last() =~= first + second.drop_last());
    } else {
        assert(first + second =~= first);
    }
    assert(ids_without(first + second, id) =~= ids_without(first, id) + ids_without(second, id));
}

/// Whoever is on a list gets the trace in the order of the list, one after another: one who is
/// subscribed gets one message, under the own identifier, through the own channel and with the
/// whole trace; one who is not gets none.
pub proof fn law_deliveries_go_one_by_one(
    state: ManagerView,
    first: Seq<Seq<char>>,
    second: Seq<Seq<char>>,
    id: Seq<char>,
    address: Seq<char>,
    trace: TraceView,
)
    ensures
        trace_deliveries(state, first + second, address, trace) == trace_deliveries(
            state,
            first,
            address,
            trace,
        ) + trace_deliveries(state, second, address, trace),
        trace_deliveries(state, Seq::empty(), address, trace) == Seq::<DeliveryView>::empty(),
        !state.subscriptions.contains_key(id) ==> trace_deliveries(state, seq![id], address, trace)
            == Seq::<DeliveryView>::empty(),
        state.subscriptions.contains_key(id) ==> trace_deliveries(state, seq![id], address, trace)
            == seq![
            DeliveryView {
                subscription_id: id,
                sender: state.subscriptions[id].sender,
                message: ServerMessageView::TransactionTrace {
                    subscription_id: state.subscriptions[id].id,
                    address,
                    trace,
                },
            },
        ],
    decreases second.len(),
{
    let none = Seq::<Seq<char>>::empty();
    assert(seq![id].drop_last() =~= none);
    assert(trace_deliveries(state, none, address, trace) =~= Seq::<DeliveryView>::empty());
    if state.subscriptions.contains_key(id) {
        assert(trace_deliveries(state, seq![id], address, trace) =~= seq![
            DeliveryView {
                subscription_id: id,
                sender: state.subscriptions[id].sender,
                message: ServerMessageView::TransactionTrace {
                    subscription_id: state.subscriptions[id].id,
                    address,
                    trace,
                },
            },
        ]);
    }
    if second.len() > 0 {
        law_deliveries_go_one_by_one(state, first, second.drop_last(), id, address, trace);
        assert((first + second).drop_last() =~= first + second.drop_last());
    } else {
        assert(first + second =~= first);
    }
    assert(trace_deliveries(state, first + second, address, trace) =~= trace_deliveries(
        state,
        first,
        address,
        trace,
    ) + trace_deliveries(state, second, address, trace));
}

/// When the service goes down, each of the listed subscriptions is told so once, through its own
/// channel and under its own identifier.
pub proof fn law_everyone_is_told_of_the_shutdown(
    entries: Seq<(Seq<char>, SubscriptionView)>,
    k: int,
)
    requires
        0 <= k < entries.len(),
    ensures
        shutdown_notices(entries).len() == entries.len(),
        shutdown_notices(entries)[k].subscription_id == entries[k].0,
        shutdown_notices(entries)[k].sender == entries[k].1.sender,
        shutdown_notices(entries)[k].message == (ServerMessageView::Error {
            message: "Service shutting down"@,
            subscription_id: Some(entries[k].1.id),
        }),
{
}

/// Dropping subscriptions announces nothing but addresses that are given up, and dropping two
/// lists of them is dropping the one and then the other.
pub proof fn law_dropping_goes_in_turn(
    state: ManagerView,
    first: Seq<Seq<char>>,
    second: Seq<Seq<char>>,
)
    ensures
        unsubscribed_all(state, first + second) == unsubscribed_all(
            unsubscribed_all(state, first),
            second,
        ),
        unsubscribe_events(state, first + second) == unsubscribe_events(state, first)
            + unsubscribe_events(unsubscribed_all(state, first), second),
        forall|k: int|
            0 <= k < unsubscribe_events(state, second).len() ==> (#[trigger] unsubscribe_events(
                state,
                second,
            )[k]) is RemoveAddress,
    decreases second.len(),
{
    let between = unsubscribed_all(state, first);
    if second.len() > 0 {
        law_dropping_goes_in_turn(state, first, second.drop_last());
        assert((first + second).drop_last() =~= first + second.drop_last());
    } else {
        assert(first + second =~= first);
    }
    assert(unsubscribe_events(state, first + second) =~= unsubscribe_events(state, first)
        + unsubscribe_events(between, second));
}

} // verus!
