//! The two concurrent maps behind the subscriptions, and what is relied on of them.
use dashmap::DashMap;
use vstd::prelude::*;

use crate::utils::text::texts;

verus! {

/// A subscription of a client to an address. `sender` stands for the channel to the client.
#[derive(Debug)]
pub struct Subscription {
    pub id: String,
    pub address: String,
    pub sender: u64,
}

/// [`Subscription`] by its characters.
#[verifier::ext_equal]
pub struct SubscriptionView {
    pub id: Seq<char>,
    pub address: Seq<char>,
    pub sender: u64,
}

impl View for Subscription {
    type V = SubscriptionView;

    open spec fn view(&self) -> SubscriptionView {
        SubscriptionView { id: self.id@, address: self.address@, sender: self.sender }
    }
}

impl Clone for Subscription {
    fn clone(&self) -> (copy: Self)
        ensures
            copy@ == self@,
    {
        Subscription { id: self.id.clone(), address: self.address.clone(), sender: self.sender }
    }
}

/// `entries` holds each entry of `map` once, in some order.
pub open spec fn lists_all<V>(entries: Seq<(Seq<char>, V)>, map: Map<Seq<char>, V>) -> bool {
    &&& forall|i: int, j: int|
        0 <= i < j < entries.len() ==> (#[trigger] entries[i]).0 != (#[trigger] entries[j]).0
    &&& forall|i: int|
        0 <= i < entries.len() ==> map.contains_key((#[trigger] entries[i]).0)
            && map[entries[i].0] == entries[i].1
    &&& forall|key: Seq<char>| #[trigger]
        map.contains_key(key) ==> exists|i: int|
            0 <= i < entries.len() && (#[trigger] entries[i]).0 == key
}

/// Entries with subscriptions, by their views.
pub open spec fn subscription_list(entries: Seq<(String, Subscription)>) -> Seq<
    (Seq<char>, SubscriptionView),
> {
    Seq::new(entries.len(), |i: int| (entries[i].0@, entries[i].1@))
}

/// Entries with lists of identifiers, by their views.
pub open spec fn id_list(entries: Seq<(String, Vec<String>)>) -> Seq<(Seq<char>, Seq<Seq<char>>)> {
    Seq::new(entries.len(), |i: int| (entries[i].0@, texts(entries[i].1@)))
}

/// `dashmap::DashMap`, whose entries are spoken of by the names below. A map is held by one
/// owner here, and whoever changes it borrows it mutably.
#[verifier::external_type_specification]
#[verifier::external_body]
#[verifier::reject_recursive_types(K)]
#[verifier::reject_recursive_types(V)]
#[verifier::reject_recursive_types(S)]
pub struct ExDashMap<K, V, S>(DashMap<K, V, S>);

/// The entries of a map of subscriptions by their identifiers.
pub uninterp spec fn subscription_entries(map: DashMap<String, Subscription>) -> Map<
    Seq<char>,
    SubscriptionView,
>;

/// The entries of a map of subscription identifiers by their address.
pub uninterp spec fn address_entries(map: DashMap<String, Vec<String>>) -> Map<
    Seq<char>,
    Seq<Seq<char>>,
>;

/// An empty map.
///
/// Trusted: `dashmap::DashMap::new` makes a map without entries.
#[verifier::external_body]
pub(crate) fn subscriptions_new() -> (map: DashMap<String, Subscription>)
    ensures
        (subscription_entries(map) == Map::<Seq<char>, SubscriptionView>::empty()),
{
    DashMap::new()
}

/// Puts a subscription in the place of whatever was there.
///
/// Trusted: `dashmap::DashMap::insert` adds the entry, or replaces the value of the entry that
/// has the key, and touches no other.
#[verifier::external_body]
pub(crate) fn subscriptions_insert(
    map: &mut DashMap<String, Subscription>,
    id: String,
    subscription: Subscription,
)
    ensures
        subscription_entries(*final(map)) == subscription_entries(*old(map)).insert(
            id@,
            subscription@,
        ),
{
    map.insert(id, subscription);
}

/// Takes a subscription out.
///
/// Trusted: `dashmap::DashMap::remove` takes the entry that has the key out and returns it,
/// and touches no other.
#[verifier::external_body]
pub(crate) fn subscriptions_remove(
    map: &mut DashMap<String, Subscription>,
    id: &str,
) -> (removed: Option<Subscription>)
    ensures
        subscription_entries(*final(map)) == subscription_entries(*old(map)).remove(id@),
        match removed {
            Some(subscription) => subscription_entries(*old(map)).contains_key(id@)
                && subscription_entries(*old(map))[id@] == subscription@,
            None => !subscription_entries(*old(map)).contains_key(id@),
        },
{
    map.remove(id).map(|entry| entry.1)
}

/// A copy of a subscription.
///
/// Trusted: `dashmap::DashMap::get` finds the value of the entry that has the key.
#[verifier::external_body]
pub(crate) fn subscriptions_get(
    map: &DashMap<String, Subscription>,
    id: &str,
) -> (found: Option<Subscription>)
    ensures
        match found {
            Some(subscription) => subscription_entries(*map).contains_key(id@)
                && subscription_entries(*map)[id@] == subscription@,
            None => !subscription_entries(*map).contains_key(id@),
        },
{
    map.get(id).map(|entry| entry.value().clone())
}

/// How many subscriptions there are.
///
/// Trusted: `dashmap::DashMap::len` counts the entries.
#[verifier::external_body]
pub(crate) fn subscriptions_len(map: &DashMap<String, Subscription>) -> (count: usize)
    ensures
        count == subscription_entries(*map).len(),
{
    map.len()
}

/// All subscriptions, in no particular order.
///
/// Trusted: `dashmap::DashMap::iter` walks each entry once. The order is left open.
#[verifier::external_body]
pub(crate) fn subscriptions_list(map: &DashMap<String, Subscription>) -> (entries: Vec<
    (String, Subscription),
>)
    ensures
        lists_all(subscription_list(entries@), subscription_entries(*map)),
{
    map.iter().map(|entry| (entry.key().clone(), entry.value().clone())).collect()
}

/// Takes all subscriptions out.
///
/// Trusted: `dashmap::DashMap::clear` leaves no entry.
#[verifier::external_body]
pub(crate) fn subscriptions_clear(map: &mut DashMap<String, Subscription>)
    ensures
        (subscription_entries(*final(map)) == Map::<Seq<char>, SubscriptionView>::empty()),
{
    map.clear()
}

/// An empty map.
///
/// Trusted: `dashmap::DashMap::new` makes a map without entries.
#[verifier::external_body]
pub(crate) fn addresses_new() -> (map: DashMap<String, Vec<String>>)
    ensures
        (address_entries(map) == Map::<Seq<char>, Seq<Seq<char>>>::empty()),
{
    DashMap::new()
}

/// Puts the identifiers of an address in the place of whatever was there.
///
/// Trusted: `dashmap::DashMap::insert` adds the entry, or replaces the value of the entry that
/// has the key, and touches no other.
#[verifier::external_body]
pub(crate) fn addresses_insert(
    map: &mut DashMap<String, Vec<String>>,
    address: String,
    ids: Vec<String>,
)
    ensures
        address_entries(*final(map)) == address_entries(*old(map)).insert(address@, texts(ids@)),
{
    map.insert(address, ids);
}

/// Takes an address out.
///
/// Trusted: `dashmap::DashMap::remove` takes the entry that has the key out, and touches no
/// other.
#[verifier::external_body]
pub(crate) fn addresses_remove(map: &mut DashMap<String, Vec<String>>, address: &str)
    ensures
        address_entries(*final(map)) == address_entries(*old(map)).remove(address@),
{
    map.remove(address);
}

/// A copy of the identifiers of an address.
///
/// Trusted: `dashmap::DashMap::get` finds the value of the entry that has the key.
#[verifier::external_body]
pub(crate) fn addresses_get(
    map: &DashMap<String, Vec<String>>,
    address: &str,
) -> (found: Option<Vec<String>>)
    ensures
        match found {
            Some(ids) => address_entries(*map).contains_key(address@)
                && address_entries(*map)[address@] == texts(ids@),
            None => !address_entries(*map).contains_key(address@),
        },
{
    map.get(address).map(|entry| entry.value().clone())
}

/// How many addresses there are.
///
/// Trusted: `dashmap::DashMap::len` counts the entries.
#[verifier::external_body]
pub(crate) fn addresses_len(map: &DashMap<String, Vec<String>>) -> (count: usize)
    ensures
        count == address_entries(*map).len(),
{
    map.len()
}

/// All addresses with their identifiers, in no particular order.
///
/// Trusted: `dashmap::DashMap::iter` walks each entry once. The order is left open.
#[verifier::external_body]
pub(crate) fn addresses_list(map: &DashMap<String, Vec<String>>) -> (entries: Vec<
    (String, Vec<String>),
>)
    ensures
        lists_all(id_list(entries@), address_entries(*map)),
{
    map.iter().map(|entry| (entry.key().clone(), entry.value().clone())).collect()
}

/// Takes all addresses out.
///
/// Trusted: `dashmap::DashMap::clear` leaves no entry.
#[verifier::external_body]
pub(crate) fn addresses_clear(map: &mut DashMap<String, Vec<String>>)
    ensures
        (address_entries(*final(map)) == Map::<Seq<char>, Seq<Seq<char>>>::empty()),
{
    map.clear()
}

/// Subscriptions and entries are spoken of by all their fields.
pub proof fn law_subscriptions_are_shown_whole(
    subscriptions: Seq<(String, Subscription)>,
    addresses: Seq<(String, Vec<String>)>,
    i: int,
)
    ensures
        subscription_list(subscriptions).len() == subscriptions.len(),
        0 <= i < subscriptions.len() ==> {
            let (key, subscription) = subscription_list(subscriptions)[i];
            &&& key == subscriptions[i].0@
            &&& subscription.id == subscriptions[i].1.id@
            &&& subscription.address == subscriptions[i].1.address@
            &&& subscription.sender == subscriptions[i].1.sender
        },
        id_list(addresses).len() == addresses.len(),
        0 <= i < addresses.len() ==> id_list(addresses)[i] == (
            addresses[i].0@,
            texts(addresses[i].1@),
        ),
{
}

} // verus!
