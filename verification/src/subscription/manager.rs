//! Who is subscribed to which address, and what each subscriber is to be sent.
use dashmap::DashMap;
use vstd::prelude::*;

use crate::subscription::store::{
    address_entries, addresses_clear, addresses_get, addresses_insert, addresses_len,
    addresses_list, addresses_new, addresses_remove, id_list, lists_all, subscription_entries,
    subscription_list, subscriptions_clear, subscriptions_get, subscriptions_insert,
    subscriptions_len, subscriptions_list, subscriptions_new, subscriptions_remove,
    SubscriptionView,
};
use crate::ton::monitor::TransactionEvent;
use crate::ton::trace::{
    fetched_trace, kept_trace, trace_request, with_trace, without_repeats, TraceLookup,
    TraceRequest, TraceResponse, TraceService, TraceServiceView,
};
use crate::utils::ids::{is_random_uuid, new_id};
use crate::utils::text::{prefixed, texts, unit_result};
use crate::websocket::message::{
    ServerMessage, ServerMessageView, TraceView, TransactionTrace,
};

pub use crate::subscription::store::Subscription;

verus! {

/// A change to the addresses that are to be watched.
#[derive(Debug, Clone)]
pub enum MonitorEvent {
    AddAddress(String),
    RemoveAddress(String),
}

/// [`MonitorEvent`] by its characters.
#[verifier::ext_equal]
pub enum MonitorEventView {
    AddAddress(Seq<char>),
    RemoveAddress(Seq<char>),
}

impl View for MonitorEvent {
    type V = MonitorEventView;

    open spec fn view(&self) -> MonitorEventView {
        match *self {
            MonitorEvent::AddAddress(address) => MonitorEventView::AddAddress(address@),
            MonitorEvent::RemoveAddress(address) => MonitorEventView::RemoveAddress(address@),
        }
    }
}

/// A list of changes by their views.
pub open spec fn event_list(events: Seq<MonitorEvent>) -> Seq<MonitorEventView> {
    Seq::new(events.len(), |i: int| events[i]@)
}

/// An optional change by its view.
pub open spec fn opt_event(event: Option<MonitorEvent>) -> Option<MonitorEventView> {
    match event {
        Some(e) => Some(e@),
        None => None,
    }
}

/// A message for a subscriber.
#[derive(Debug)]
pub struct Delivery {
    /// The subscription that the message is for.
    pub subscription_id: String,
    /// The channel to the client.
    pub sender: u64,
    pub message: ServerMessage,
}

/// [`Delivery`] by its characters.
#[verifier::ext_equal]
pub struct DeliveryView {
    pub subscription_id: Seq<char>,
    pub sender: u64,
    pub message: ServerMessageView,
}

impl View for Delivery {
    type V = DeliveryView;

    open spec fn view(&self) -> DeliveryView {
        DeliveryView {
            subscription_id: self.subscription_id@,
            sender: self.sender,
            message: self.message@,
        }
    }
}

/// A list of deliveries by their views.
pub open spec fn delivery_list(deliveries: Seq<Delivery>) -> Seq<DeliveryView> {
    Seq::new(deliveries.len(), |i: int| deliveries[i]@)
}

/// A transaction whose trace is still to come, and the subscriptions that wait for it.
#[derive(Debug)]
pub struct PendingEvent {
    pub event: TransactionEvent,
    pub subscription_ids: Vec<String>,
}

/// What follows from a new transaction.
#[derive(Debug)]
pub enum EventStep {
    /// Nobody is subscribed to the address.
    Ignored,
    /// The trace is at hand: these messages are to be sent.
    Deliver(Vec<Delivery>),
    /// The trace has to be asked for first.
    Fetch { request: TraceRequest, pending: PendingEvent },
}

/// How an attempt to send to one subscription ended.
#[derive(Debug)]
pub struct SendOutcome {
    pub result: Result<(), String>,
    pub event: Option<MonitorEvent>,
}

/// Counts of subscriptions.
#[derive(Debug, Clone)]
pub struct SubscriptionStats {
    pub total_subscriptions: usize,
    pub monitored_addresses: usize,
    pub addresses: Vec<AddressStats>,
}

/// Count of the subscriptions to an address.
#[derive(Debug, Clone)]
pub struct AddressStats {
    pub address: String,
    pub subscription_count: usize,
}

/// The counts by address, by their views.
pub open spec fn count_list(addresses: Seq<AddressStats>) -> Seq<(Seq<char>, nat)> {
    Seq::new(
        addresses.len(),
        |i: int| (addresses[i].address@, addresses[i].subscription_count as nat),
    )
}

/// The subscriptions by identifier, the identifiers by address, and the trace service.
#[verifier::ext_equal]
pub struct ManagerView {
    pub subscriptions: Map<Seq<char>, SubscriptionView>,
    pub addresses: Map<Seq<char>, Seq<Seq<char>>>,
    pub traces: TraceServiceView,
}

/// The identifiers that are listed for an address.
pub open spec fn ids_at(state: ManagerView, address: Seq<char>) -> Seq<Seq<char>> {
    if state.addresses.contains_key(address) {
        state.addresses[address]
    } else {
        Seq::empty()
    }
}

/// The state once `id` is subscribed to `address`.
pub open spec fn subscribed(
    state: ManagerView,
    id: Seq<char>,
    address: Seq<char>,
    sender: u64,
) -> ManagerView {
    ManagerView {
        subscriptions: state.subscriptions.insert(id, SubscriptionView { id, address, sender }),
        addresses: state.addresses.insert(address, ids_at(state, address).push(id)),
        ..state
    }
}

/// A list of identifiers without one of them.
pub open spec fn ids_without(ids: Seq<Seq<char>>, id: Seq<char>) -> Seq<Seq<char>> {
    ids.filter(|other: Seq<char>| other != id)
}

/// The subscription `id` is the last one that is listed for its address.
pub open spec fn is_last(state: ManagerView, id: Seq<char>) -> bool {
    &&& state.subscriptions.contains_key(id)
    &&& state.addresses.contains_key(state.subscriptions[id].address)
    &&& ids_without(state.addresses[state.subscriptions[id].address], id).len() == 0
}

/// The state once the subscription `id`, if there is one, is dropped.
pub open spec fn unsubscribed(state: ManagerView, id: Seq<char>) -> ManagerView {
    if !state.subscriptions.contains_key(id) {
        state
    } else {
        let address = state.subscriptions[id].address;
        let left = ids_without(ids_at(state, address), id);
        ManagerView {
            subscriptions: state.subscriptions.remove(id),
            addresses: if left.len() == 0 {
                state.addresses.remove(address)
            } else {
                state.addresses.insert(address, left)
            },
            ..state
        }
    }
}

/// The change that follows when the subscription `id` is dropped: its address is given up once
/// nobody is left.
pub open spec fn unsubscribe_event(state: ManagerView, id: Seq<char>) -> Option<MonitorEventView> {
    if is_last(state, id) {
        Some(MonitorEventView::RemoveAddress(state.subscriptions[id].address))
    } else {
        None
    }
}

/// The state once all of `ids` are dropped in turn.
pub open spec fn unsubscribed_all(state: ManagerView, ids: Seq<Seq<char>>) -> ManagerView
    decreases ids.len(),
{
    if ids.len() == 0 {
        state
    } else {
        unsubscribed(unsubscribed_all(state, ids.drop_last()), ids.last())
    }
}

/// The changes that follow when all of `ids` are dropped in turn.
pub open spec fn unsubscribe_events(state: ManagerView, ids: Seq<Seq<char>>) -> Seq<
    MonitorEventView,
>
    decreases ids.len(),
{
    if ids.len() == 0 {
        Seq::empty()
    } else {
        let before = unsubscribe_events(state, ids.drop_last());
        match unsubscribe_event(unsubscribed_all(state, ids.drop_last()), ids.last()) {
            Some(event) => before.push(event),
            None => before,
        }
    }
}

/// The message that carries a trace to a subscription.
pub open spec fn trace_message(
    subscription: SubscriptionView,
    address: Seq<char>,
    trace: TraceView,
) -> ServerMessageView {
    ServerMessageView::TransactionTrace { subscription_id: subscription.id, address, trace }
}

/// The messages that carry a trace to those of `ids` that are subscriptions, in their order.
pub open spec fn trace_deliveries(
    state: ManagerView,
    ids: Seq<Seq<char>>,
    address: Seq<char>,
    trace: TraceView,
) -> Seq<DeliveryView>
    decreases ids.len(),
{
    if ids.len() == 0 {
        Seq::empty()
    } else {
        let before = trace_deliveries(state, ids.drop_last(), address, trace);
        let id = ids.last();
        if state.subscriptions.contains_key(id) {
            before.push(
                DeliveryView {
                    subscription_id: id,
                    sender: state.subscriptions[id].sender,
                    message: trace_message(state.subscriptions[id], address, trace),
                },
            )
        } else {
            before
        }
    }
}

/// The notice that the service goes down, for a subscription.
pub open spec fn shutdown_notice(id: Seq<char>, subscription: SubscriptionView) -> DeliveryView {
    DeliveryView {
        subscription_id: id,
        sender: subscription.sender,
        message: ServerMessageView::Error {
            message: "Service shutting down"@,
            subscription_id: Some(subscription.id),
        },
    }
}

/// The notice for each of the listed subscriptions, in their order.
pub open spec fn shutdown_notices(entries: Seq<(Seq<char>, SubscriptionView)>) -> Seq<
    DeliveryView,
> {
    Seq::new(entries.len(), |i: int| shutdown_notice(entries[i].0, entries[i].1))
}

/// The subscriptions of all clients.
pub struct SubscriptionManager {
    subscriptions: DashMap<String, Subscription>,
    address_subscriptions: DashMap<String, Vec<String>>,
    trace_service: TraceService,
}

impl View for SubscriptionManager {
    type V = ManagerView;

    closed spec fn view(&self) -> ManagerView {
        ManagerView {
            subscriptions: subscription_entries(self.subscriptions),
            addresses: address_entries(self.address_subscriptions),
            traces: self.trace_service@,
        }
    }
}

impl SubscriptionManager {
    /// A manager without subscriptions.
    pub fn new(trace_service: TraceService) -> (manager: Self)
        ensures
            manager@ == (ManagerView {
                subscriptions: Map::empty(),
                addresses: Map::empty(),
                traces: trace_service@,
            }),
    {
        SubscriptionManager {
            subscriptions: subscriptions_new(),
            address_subscriptions: addresses_new(),
            trace_service,
        }
    }

    /// Subscribes a client to an address under a fresh random identifier, and says which
    /// address is to be watched. This never fails.
    pub fn create_subscription(
        &mut self,
        address: String,
        sender: u64,
    ) -> (created: Result<(String, MonitorEvent), String>)
        ensures
            created is Ok,
            is_random_uuid(created->Ok_0.0@),
            final(self)@ == subscribed(old(self)@, created->Ok_0.0@, address@, sender),
            created->Ok_0.1@ == MonitorEventView::AddAddress(address@),
    {
        let subscription_id = new_id();
        let event = self.insert_subscription(subscription_id.clone(), address, sender);
        Ok((subscription_id, event))
    }

    /// Subscribes a client to an address under the given identifier, and says which address is
    /// to be watched.
    pub fn insert_subscription(
        &mut self,
        subscription_id: String,
        address: String,
        sender: u64,
    ) -> (event: MonitorEvent)
        ensures
            final(self)@ == subscribed(old(self)@, subscription_id@, address@, sender),
            event@ == MonitorEventView::AddAddress(address@),
    {
        let subscription = Subscription {
            id: subscription_id.clone(),
            address: address.clone(),
            sender,
        };
        subscriptions_insert(&mut self.subscriptions, subscription_id.clone(), subscription);
        let mut ids = match addresses_get(&self.address_subscriptions, &address) {
            Some(ids) => ids,
            None => Vec::new(),
        };
        let ghost before = texts(ids@);
        assert(before =~= ids_at(old(self)@, address@));
        ids.push(subscription_id);
        assert(texts(ids@) =~= before.push(subscription_id@));
        addresses_insert(&mut self.address_subscriptions, address.clone(), ids);
        MonitorEvent::AddAddress(address)
    }

    /// Drops a subscription, if there is one, and says which address is given up
    /// with it, if any. This never fails.
    pub fn remove_subscription(&mut self, subscription_id: &str) -> (result: Result<
        Option<MonitorEvent>,
        String,
    >)
        ensures
            final(self)@ == unsubscribed(old(self)@, subscription_id@),
            result is Ok,
            opt_event(result->Ok_0) == unsubscribe_event(old(self)@, subscription_id@),
    {
        Ok(self.drop_subscription(subscription_id))
    }

    /// Drops a subscription, if there is one, and says which address is given up
    /// with it, if any.
    pub fn drop_subscription(&mut self, subscription_id: &str) -> (event: Option<MonitorEvent>)
        ensures
            final(self)@ == unsubscribed(old(self)@, subscription_id@),
            opt_event(event) == unsubscribe_event(old(self)@, subscription_id@),
    {
        let subscription = match subscriptions_remove(&mut self.subscriptions, subscription_id) {
            Some(subscription) => subscription,
            None => {
                assert(self@.subscriptions =~= old(self)@.subscriptions);
                return None;
            },
        };
        let address = subscription.address;
        match addresses_get(&self.address_subscriptions, &address) {
            Some(ids) => {
                let left = without_id(&ids, subscription_id);
                if left.len() == 0 {
                    addresses_remove(&mut self.address_subscriptions, &address);
                    Some(MonitorEvent::RemoveAddress(address))
                } else {
                    addresses_insert(&mut self.address_subscriptions, address, left);
                    None
                }
            },
            None => {
                proof {
                    let none = Seq::<Seq<char>>::empty();
                    reveal(Seq::filter);
                    assert(ids_without(none, subscription_id@) =~= none);
                    assert(self@.addresses =~= old(self)@.addresses.remove(address@));
                }
                None
            },
        }
    }

    /// Drops subscriptions in turn, and says which addresses are given up.
    pub fn remove_subscriptions(&mut self, subscription_ids: &Vec<String>) -> (events: Vec<
        MonitorEvent,
    >)
        ensures
            final(self)@ == unsubscribed_all(old(self)@, texts(subscription_ids@)),
            event_list(events@) == unsubscribe_events(old(self)@, texts(subscription_ids@)),
    {
        let mut events: Vec<MonitorEvent> = Vec::new();
        let ghost all = texts(subscription_ids@);
        assert(event_list(events@) =~= Seq::empty());
        for i in 0..subscription_ids.len()
            invariant
                all == texts(subscription_ids@),
                self@ == unsubscribed_all(old(self)@, all.take(i as int)),
                event_list(events@) =~= unsubscribe_events(old(self)@, all.take(i as int)),
        {
            assert(all.take(i + 1).drop_last() =~= all.take(i as int));
            assert(all.take(i + 1).last() == subscription_ids@[i as int]@);
            match self.drop_subscription(&subscription_ids[i]) {
                Some(event) => {
                    events.push(event);
                },
                None => {},
            }
        }
        assert(all.take(subscription_ids.len() as int) =~= all);
        events
    }

    /// Takes a new transaction: nothing follows where nobody is subscribed to its address;
    /// else its trace goes out, once it is there.
    pub fn handle_transaction_event(&self, event: TransactionEvent) -> (step: EventStep)
        ensures
            match step {
                EventStep::Ignored => !self@.addresses.contains_key(event@.address),
                EventStep::Deliver(deliveries) => {
                    &&& self@.addresses.contains_key(event@.address)
                    &&& kept_trace(self@.traces, event@.transaction_hash) is Some
                    &&& delivery_list(deliveries@) == trace_deliveries(
                        self@,
                        self@.addresses[event@.address],
                        event@.address,
                        kept_trace(self@.traces, event@.transaction_hash)->0,
                    )
                },
                EventStep::Fetch { request, pending } => {
                    &&& self@.addresses.contains_key(event@.address)
                    &&& kept_trace(self@.traces, event@.transaction_hash) is None
                    &&& request@ == trace_request(self@.traces, event@.transaction_hash)
                    &&& pending.event@ == event@
                    &&& texts(pending.subscription_ids@) == self@.addresses[event@.address]
                },
            },
    {
        let subscription_ids = match addresses_get(&self.address_subscriptions, &event.address) {
            Some(ids) => ids,
            None => {
                return EventStep::Ignored;
            },
        };
        match self.trace_service.get_transaction_trace(&event.transaction_hash) {
            TraceLookup::Cached(trace) => EventStep::Deliver(
                self.deliver_trace(&subscription_ids, &event.address, &trace),
            ),
            TraceLookup::Fetch(request) => EventStep::Fetch {
                request,
                pending: PendingEvent { event, subscription_ids },
            },
        }
    }

    /// Takes the answer to the request for the trace of a transaction: the trace is kept, and
    /// goes out to those who wait for it and are still subscribed. A failure changes nothing.
    pub fn receive_event_trace(
        &mut self,
        pending: PendingEvent,
        response: Result<TraceResponse, String>,
    ) -> (result: Result<Vec<Delivery>, String>)
        ensures
            match fetched_trace(response) {
                Ok(trace) => {
                    &&& result is Ok
                    &&& final(self)@ == (ManagerView {
                        traces: with_trace(
                            old(self)@.traces,
                            pending.event@.transaction_hash,
                            without_repeats(trace),
                        ),
                        ..old(self)@
                    })
                    &&& delivery_list(result->Ok_0@) == trace_deliveries(
                        old(self)@,
                        texts(pending.subscription_ids@),
                        pending.event@.address,
                        without_repeats(trace),
                    )
                },
                Err(e) => {
                    &&& result is Err
                    &&& result->Err_0@ == e
                    &&& final(self)@ == old(self)@
                },
            },
    {
        let event = pending.event;
        match self.trace_service.receive_trace(&event.transaction_hash, response) {
            Ok(trace) => {
                let deliveries = self.deliver_trace(
                    &pending.subscription_ids,
                    &event.address,
                    &trace,
                );
                proof {
                    lemma_deliveries_by_subscriptions(
                        old(self)@,
                        self@,
                        texts(pending.subscription_ids@),
                        event.address@,
                        trace@,
                    );
                }
                Ok(deliveries)
            },
            Err(e) => Err(e),
        }
    }

    /// The messages that carry a trace to those of the identifiers that are subscriptions.
    fn deliver_trace(
        &self,
        subscription_ids: &Vec<String>,
        address: &String,
        trace: &TransactionTrace,
    ) -> (deliveries: Vec<Delivery>)
        ensures
            delivery_list(deliveries@) == trace_deliveries(
                self@,
                texts(subscription_ids@),
                address@,
                trace@,
            ),
    {
        let mut deliveries: Vec<Delivery> = Vec::new();
        let ghost all = texts(subscription_ids@);
        assert(delivery_list(deliveries@) =~= Seq::empty());
        for i in 0..subscription_ids.len()
            invariant
                all == texts(subscription_ids@),
                delivery_list(deliveries@) =~= trace_deliveries(
                    self@,
                    all.take(i as int),
                    address@,
                    trace@,
                ),
        {
            assert(all.take(i + 1).drop_last() =~= all.take(i as int));
            assert(all.take(i + 1).last() == subscription_ids@[i as int]@);
            match subscriptions_get(&self.subscriptions, &subscription_ids[i]) {
                Some(subscription) => {
                    let message = ServerMessage::TransactionTrace {
                        subscription_id: subscription.id,
                        address: address.clone(),
                        trace: Box::new(trace.clone()),
                    };
                    deliveries.push(
                        Delivery {
                            subscription_id: subscription_ids[i].clone(),
                            sender: subscription.sender,
                            message,
                        },
                    );
                },
                None => {},
            }
        }
        assert(all.take(subscription_ids.len() as int) =~= all);
        deliveries
    }

    /// Addresses a message to one subscription.
    pub fn send_to_subscription(
        &self,
        subscription_id: &str,
        message: ServerMessage,
    ) -> (result: Result<Delivery, String>)
        ensures
            match result {
                Ok(delivery) => self@.subscriptions.contains_key(subscription_id@) && delivery@
                    == (DeliveryView {
                    subscription_id: subscription_id@,
                    sender: self@.subscriptions[subscription_id@].sender,
                    message: message@,
                }),
                Err(e) => !self@.subscriptions.contains_key(subscription_id@) && e@
                    == "Subscription not found: "@ + subscription_id@,
            },
    {
        match subscriptions_get(&self.subscriptions, subscription_id) {
            Some(subscription) => Ok(
                Delivery {
                    subscription_id: subscription_id.to_owned(),
                    sender: subscription.sender,
                    message,
                },
            ),
            None => Err(prefixed("Subscription not found: ", subscription_id)),
        }
    }

    /// Takes the outcome of sending to one subscription: a subscription whose connection is
    /// closed is dropped.
    pub fn finish_send(&mut self, subscription_id: &str, delivered: bool) -> (outcome: SendOutcome)
        ensures
            delivered ==> {
                &&& unit_result(outcome.result) == Ok::<(), Seq<char>>(())
                &&& outcome.event is None
                &&& final(self)@ == old(self)@
            },
            !delivered ==> {
                &&& unit_result(outcome.result) == Err::<(), Seq<char>>(
                    "Subscription connection closed"@,
                )
                &&& opt_event(outcome.event) == unsubscribe_event(old(self)@, subscription_id@)
                &&& final(self)@ == unsubscribed(old(self)@, subscription_id@)
            },
    {
        if delivered {
            return SendOutcome { result: Ok(()), event: None };
        }
        let event = self.drop_subscription(subscription_id);
        SendOutcome { result: Err("Subscription connection closed".to_owned()), event }
    }

    /// How many subscriptions there are.
    pub fn get_subscription_count(&self) -> (count: usize)
        ensures
            count == self@.subscriptions.len(),
    {
        subscriptions_len(&self.subscriptions)
    }

    /// How many addresses have subscriptions.
    pub fn get_monitored_addresses_count(&self) -> (count: usize)
        ensures
            count == self@.addresses.len(),
    {
        addresses_len(&self.address_subscriptions)
    }

    /// The counts of subscriptions, in all and by address. The addresses come in no particular
    /// order.
    pub fn get_stats(&self) -> (stats: SubscriptionStats)
        ensures
            stats.total_subscriptions == self@.subscriptions.len(),
            stats.monitored_addresses == self@.addresses.len(),
            lists_all(
                count_list(stats.addresses@),
                self@.addresses.map_values(|ids: Seq<Seq<char>>| ids.len()),
            ),
    {
        let entries = addresses_list(&self.address_subscriptions);
        let mut addresses: Vec<AddressStats> = Vec::new();
        for i in 0..entries.len()
            invariant
                addresses@.len() == i,
                forall|j: int|
                    0 <= j < i ==> (#[trigger] addresses@[j]).address@ == entries@[j].0@
                        && addresses@[j].subscription_count == entries@[j].1@.len(),
        {
            let entry = &entries[i];
            addresses.push(
                AddressStats { address: entry.0.clone(), subscription_count: entry.1.len() },
            );
        }
        proof {
            let counts = count_list(addresses@);
            let listed = id_list(entries@);
            let map = self@.addresses.map_values(|ids: Seq<Seq<char>>| ids.len());
            assert(forall|j: int|
                0 <= j < counts.len() ==> (#[trigger] counts[j]) == (
                    listed[j].0,
                    listed[j].1.len(),
                ));
            assert forall|key: Seq<char>| #[trigger] map.contains_key(key) implies exists|i: int|
                0 <= i < counts.len() && (#[trigger] counts[i]).0 == key by {
                assert(self@.addresses.contains_key(key));
                let i = choose|i: int| 0 <= i < listed.len() && (#[trigger] listed[i]).0 == key;
                assert(counts[i].0 == key);
            }
        }
        SubscriptionStats {
            total_subscriptions: subscriptions_len(&self.subscriptions),
            monitored_addresses: addresses_len(&self.address_subscriptions),
            addresses,
        }
    }

    /// Drops all subscriptions, and says goodbye to each. The notices come in no particular
    /// order.
    pub fn clear_all(&mut self) -> (notices: Vec<Delivery>)
        ensures
            final(self)@ == (ManagerView {
                subscriptions: Map::empty(),
                addresses: Map::empty(),
                ..old(self)@
            }),
            exists|entries: Seq<(Seq<char>, SubscriptionView)>| #[trigger]
                lists_all(entries, old(self)@.subscriptions) && delivery_list(notices@)
                    == shutdown_notices(entries),
    {
        let entries = subscriptions_list(&self.subscriptions);
        let mut notices: Vec<Delivery> = Vec::new();
        let ghost listed = subscription_list(entries@);
        let ghost expected = shutdown_notices(listed);
        for i in 0..entries.len()
            invariant
                listed == subscription_list(entries@),
                expected == shutdown_notices(listed),
                delivery_list(notices@) =~= expected.take(i as int),
        {
            let entry = &entries[i];
            let notice = Delivery {
                subscription_id: entry.0.clone(),
                sender: entry.1.sender,
                message: ServerMessage::Error {
                    message: "Service shutting down".to_owned(),
                    subscription_id: Some(entry.1.id.clone()),
                },
            };
            let ghost before = delivery_list(notices@);
            notices.push(notice);
            assert(delivery_list(notices@) =~= before.push(notice@));
            assert(expected.take(i + 1) =~= expected.take(i as int).push(expected[i as int]));
        }
        assert(expected.take(entries.len() as int) =~= expected);
        assert(lists_all(listed, old(self)@.subscriptions));
        subscriptions_clear(&mut self.subscriptions);
        addresses_clear(&mut self.address_subscriptions);
        notices
    }
}

/// Drops one identifier from a list.
pub fn without_id(ids: &Vec<String>, subscription_id: &str) -> (left: Vec<String>)
    ensures
        texts(left@) == ids_without(texts(ids@), subscription_id@),
{
    let dropped: String = subscription_id.to_owned();
    let mut left: Vec<String> = Vec::new();
    let ghost all = texts(ids@);
    let ghost other = |id: Seq<char>| id != subscription_id@;
    proof {
        reveal(Seq::filter);
        assert(all.take(0) =~= Seq::empty());
    }
    for i in 0..ids.len()
        invariant
            all == texts(ids@),
            dropped@ == subscription_id@,
            other == (|id: Seq<char>| id != subscription_id@),
            texts(left@) =~= all.take(i as int).filter(other),
    {
        proof {
            reveal(Seq::filter);
            assert(all.take(i + 1).drop_last() =~= all.take(i as int));
            assert(all.take(i + 1).last() == ids@[i as int]@);
        }
        let id = &ids[i];
        if *id != dropped {
            left.push(id.clone());
        }
    }
    assert(all.take(ids.len() as int) =~= all);
    left
}

/// Deliveries depend on the subscriptions alone.
proof fn lemma_deliveries_by_subscriptions(
    state: ManagerView,
    other: ManagerView,
    ids: Seq<Seq<char>>,
    address: Seq<char>,
    trace: TraceView,
)
    requires
        state.subscriptions == other.subscriptions,
    ensures
        trace_deliveries(state, ids, address, trace) == trace_deliveries(
            other,
            ids,
            address,
            trace,
        ),
    decreases ids.len(),
{
    if ids.len() > 0 {
        lemma_deliveries_by_subscriptions(state, other, ids.drop_last(), address, trace);
    }
}

/// Changes, messages for subscribers and counts are spoken of by all their fields, and lists of
/// them by all their items.
pub proof fn law_deliveries_are_shown_whole(
    deliveries: Seq<Delivery>,
    events: Seq<MonitorEvent>,
    counts: Seq<AddressStats>,
    address: String,
    i: int,
)
    ensures
        delivery_list(deliveries).len() == deliveries.len(),
        0 <= i < deliveries.len() ==> {
            let delivery = delivery_list(deliveries)[i];
            &&& delivery.subscription_id == deliveries[i].subscription_id@
            &&& delivery.sender == deliveries[i].sender
            &&& delivery.message == deliveries[i].message@
        },
        event_list(events).len() == events.len(),
        0 <= i < events.len() ==> event_list(events)[i] == events[i]@ && opt_event(
            Some(events[i]),
        ) == Some(events[i]@),
        opt_event(None) == None::<MonitorEventView>,
        MonitorEvent::AddAddress(address)@ == MonitorEventView::AddAddress(address@),
        MonitorEvent::RemoveAddress(address)@ == MonitorEventView::RemoveAddress(address@),
        count_list(counts).len() == counts.len(),
        0 <= i < counts.len() ==> count_list(counts)[i] == (
            counts[i].address@,
            counts[i].subscription_count as nat,
        ),
{
}

} // verus!
