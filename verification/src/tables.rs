//! The concurrent maps that the proxy keeps its state in.
//!
//! The maps are `dashmap::DashMap`s. Each kind of map has a name for what it
//! holds, and one small function per map method that the proxy calls. Every
//! function that changes a map takes it by exclusive reference, so nothing else
//! can change it meanwhile. Keys are integers, strings and tuples of those.

use vstd::prelude::*;

use dashmap::DashMap;

use crate::config_loader::RedirectionConfig;
use crate::proxy;
use crate::proxy::{stays_listed, IpInfo};
use crate::window::still_fresh;
use crate::window;

verus! {

/// `dashmap::DashMap`, a hash map behind sharded locks.
#[verifier::external_type_specification]
#[verifier::external_body]
#[verifier::reject_recursive_types(K)]
#[verifier::reject_recursive_types(V)]
#[verifier::reject_recursive_types(S)]
pub struct ExDashMap<K, V, S>(dashmap::DashMap<K, V, S>);

/// An address as integers: its family and its bits.
pub type IpKey = (u8, u128);

/// A socket address as integers: the address, the port, and what else belongs to
/// an IPv6 one.
pub type SocketKey = (IpKey, u16, u32, u32);

/// A domain and the address of a client.
pub type SourceKey = (String, IpKey);

// ---------- Per-second counters ----------

/// What a map of per-second counters holds.
pub uninterp spec fn window_entries(map: DashMap<SourceKey, (u64, usize)>) -> Map<
    (Seq<char>, IpKey),
    (u64, usize),
>;

/// `DashMap::new` makes a map that holds nothing.
#[verifier::external_body]
pub(crate) fn window_map() -> (map: DashMap<SourceKey, (u64, usize)>)
    ensures
        (window_entries(map) == Map::<(Seq<char>, IpKey), (u64, usize)>::empty()),
{
    DashMap::new()
}

/// `DashMap::entry` and `Entry::or_insert`: the value under the key, after
/// `initial` has been put there if there was none.
#[verifier::external_body]
pub(crate) fn window_entry(
    map: &mut DashMap<SourceKey, (u64, usize)>,
    key: SourceKey,
    initial: (u64, usize),
) -> (r: (u64, usize))
    ensures
        r == (if window_entries(*old(map)).contains_key((key.0@, key.1)) {
            window_entries(*old(map))[(key.0@, key.1)]
        } else {
            initial
        }),
        window_entries(*final(map)) == window_entries(*old(map)).insert((key.0@, key.1), r),
{
    *map.entry(key).or_insert(initial)
}

/// `DashMap::insert` puts the value under the key, whatever was there before.
#[verifier::external_body]
pub(crate) fn window_insert(
    map: &mut DashMap<SourceKey, (u64, usize)>,
    key: SourceKey,
    value: (u64, usize),
)
    ensures
        window_entries(*final(map)) == window_entries(*old(map)).insert((key.0@, key.1), value),
{
    map.insert(key, value);
}

/// The counters that are still fresh at second `now`.
pub open spec fn fresh_windows(
    entries: Map<(Seq<char>, IpKey), (u64, usize)>,
    now: u64,
) -> Map<(Seq<char>, IpKey), (u64, usize)> {
    Map::new(
        |k: (Seq<char>, IpKey)| entries.contains_key(k) && window::is_fresh(entries[k].0, now),
        |k: (Seq<char>, IpKey)| entries[k],
    )
}

/// `DashMap::retain` keeps the entries for which its closure returns true; here
/// those whose counter is still fresh.
#[verifier::external_body]
pub(crate) fn window_retain(map: &mut DashMap<SourceKey, (u64, usize)>, now: u64)
    ensures
        window_entries(*final(map)) == fresh_windows(window_entries(*old(map)), now),
{
    map.retain(|_, v| still_fresh(v.0, now));
}

// ---------- Connection counters ----------

/// A connection counter: its second, and how many connections of that second
/// were let in as regular, pinged, two-minute and six-minute addresses.
pub type ConnCount = (u64, usize, usize, usize, usize);

/// What a map of connection counters holds.
pub uninterp spec fn conn_entries(map: DashMap<SourceKey, ConnCount>) -> Map<
    (Seq<char>, IpKey),
    ConnCount,
>;

/// `DashMap::new` makes a map that holds nothing.
#[verifier::external_body]
pub(crate) fn conn_map() -> (map: DashMap<SourceKey, ConnCount>)
    ensures
        (conn_entries(map) == Map::<(Seq<char>, IpKey), ConnCount>::empty()),
{
    DashMap::new()
}

/// `DashMap::entry` and `Entry::or_insert`: the value under the key, after
/// `initial` has been put there if there was none.
#[verifier::external_body]
pub(crate) fn conn_entry(
    map: &mut DashMap<SourceKey, ConnCount>,
    key: SourceKey,
    initial: ConnCount,
) -> (r: ConnCount)
    ensures
        r == (if conn_entries(*old(map)).contains_key((key.0@, key.1)) {
            conn_entries(*old(map))[(key.0@, key.1)]
        } else {
            initial
        }),
        conn_entries(*final(map)) == conn_entries(*old(map)).insert((key.0@, key.1), r),
{
    *map.entry(key).or_insert(initial)
}

/// `DashMap::insert` puts the value under the key, whatever was there before.
#[verifier::external_body]
pub(crate) fn conn_insert(
    map: &mut DashMap<SourceKey, ConnCount>,
    key: SourceKey,
    value: ConnCount,
)
    ensures
        conn_entries(*final(map)) == conn_entries(*old(map)).insert((key.0@, key.1), value),
{
    map.insert(key, value);
}

/// The connection counters that are still fresh at second `now`.
pub open spec fn fresh_conns(
    entries: Map<(Seq<char>, IpKey), ConnCount>,
    now: u64,
) -> Map<(Seq<char>, IpKey), ConnCount> {
    Map::new(
        |k: (Seq<char>, IpKey)| entries.contains_key(k) && window::is_fresh(entries[k].0, now),
        |k: (Seq<char>, IpKey)| entries[k],
    )
}

/// `DashMap::retain` keeps the entries for which its closure returns true; here
/// those whose counter is still fresh.
#[verifier::external_body]
pub(crate) fn conn_retain(map: &mut DashMap<SourceKey, ConnCount>, now: u64)
    ensures
        conn_entries(*final(map)) == fresh_conns(conn_entries(*old(map)), now),
{
    map.retain(|_, v| still_fresh(v.0, now));
}

// ---------- Standing of addresses ----------

/// What a map of address standings holds.
pub uninterp spec fn ip_entries(map: DashMap<IpKey, IpInfo>) -> Map<IpKey, IpInfo>;

/// `DashMap::new` makes a map that holds nothing.
#[verifier::external_body]
pub(crate) fn ip_map() -> (map: DashMap<IpKey, IpInfo>)
    ensures
        (ip_entries(map) == Map::<IpKey, IpInfo>::empty()),
{
    DashMap::new()
}

/// `DashMap::get` finds the value under the key, if there is one.
#[verifier::external_body]
pub(crate) fn ip_get(map: &DashMap<IpKey, IpInfo>, key: IpKey) -> (r: Option<IpInfo>)
    ensures
        r == ip_entries(*map).get(key),
{
    map.get(&key).map(|info| *info)
}

/// `DashMap::insert` puts the value under the key, whatever was there before.
#[verifier::external_body]
pub(crate) fn ip_insert(map: &mut DashMap<IpKey, IpInfo>, key: IpKey, value: IpInfo)
    ensures
        ip_entries(*final(map)) == ip_entries(*old(map)).insert(key, value),
{
    map.insert(key, value);
}

/// `DashMap::remove` takes the key out of the map.
#[verifier::external_body]
pub(crate) fn ip_remove(map: &mut DashMap<IpKey, IpInfo>, key: IpKey)
    ensures
        ip_entries(*final(map)) == ip_entries(*old(map)).remove(key),
{
    map.remove(&key);
}

/// The entries that a purge at second `now` leaves in place.
pub open spec fn purged(entries: Map<IpKey, IpInfo>, now: u64) -> Map<IpKey, IpInfo> {
    Map::new(
        |k: IpKey| entries.contains_key(k) && proxy::survives_purge(entries[k], now),
        |k: IpKey| entries[k],
    )
}

/// `DashMap::retain` keeps the entries for which its closure returns true; here
/// those that survive a purge.
#[verifier::external_body]
pub(crate) fn ip_retain(map: &mut DashMap<IpKey, IpInfo>, now: u64)
    ensures
        ip_entries(*final(map)) == purged(ip_entries(*old(map)), now),
{
    map.retain(|_, info| stays_listed(info, now));
}

/// Whether `items` lists what `entries` holds, every key once, in some order.
pub open spec fn lists_ips(items: Seq<(IpKey, IpInfo)>, entries: Map<IpKey, IpInfo>) -> bool {
    &&& forall|i: int, j: int| 0 <= i < j < items.len() ==> (#[trigger] items[i]).0 != (
    #[trigger] items[j]).0
    &&& forall|i: int|
        0 <= i < items.len() ==> entries.contains_key((#[trigger] items[i]).0)
            && entries[items[i].0] == items[i].1
    &&& forall|k: IpKey| #[trigger]
        entries.contains_key(k) ==> exists|i: int| 0 <= i < items.len() && #[trigger] items[i].0 == k
}

/// `DashMap::iter` visits every entry once, in no particular order.
#[verifier::external_body]
pub(crate) fn ip_items(map: &DashMap<IpKey, IpInfo>) -> (r: Vec<(IpKey, IpInfo)>)
    ensures
        lists_ips(r@, ip_entries(*map)),
{
    map.iter().map(|kv| (*kv.key(), *kv.value())).collect()
}

// ---------- Active connections ----------

/// What a map of active connections holds: when each one began.
pub uninterp spec fn active_entries(map: DashMap<SocketKey, u64>) -> Map<SocketKey, u64>;

/// `DashMap::new` makes a map that holds nothing.
#[verifier::external_body]
pub(crate) fn active_map() -> (map: DashMap<SocketKey, u64>)
    ensures
        (active_entries(map) == Map::<SocketKey, u64>::empty()),
{
    DashMap::new()
}

/// `DashMap::insert` puts the value under the key, whatever was there before.
#[verifier::external_body]
pub(crate) fn active_insert(map: &mut DashMap<SocketKey, u64>, key: SocketKey, value: u64)
    ensures
        active_entries(*final(map)) == active_entries(*old(map)).insert(key, value),
{
    map.insert(key, value);
}

/// `DashMap::remove` takes the key out of the map.
#[verifier::external_body]
pub(crate) fn active_remove(map: &mut DashMap<SocketKey, u64>, key: SocketKey)
    ensures
        active_entries(*final(map)) == active_entries(*old(map)).remove(key),
{
    map.remove(&key);
}

/// Whether `items` lists what `entries` holds, every key once, in some order.
pub open spec fn lists_active(items: Seq<(SocketKey, u64)>, entries: Map<SocketKey, u64>) -> bool {
    &&& forall|i: int, j: int| 0 <= i < j < items.len() ==> (#[trigger] items[i]).0 != (
    #[trigger] items[j]).0
    &&& forall|i: int|
        0 <= i < items.len() ==> entries.contains_key((#[trigger] items[i]).0)
            && entries[items[i].0] == items[i].1
    &&& forall|k: SocketKey| #[trigger]
        entries.contains_key(k) ==> exists|i: int| 0 <= i < items.len() && #[trigger] items[i].0 == k
}

/// `DashMap::iter` visits every entry once, in no particular order.
#[verifier::external_body]
pub(crate) fn active_items(map: &DashMap<SocketKey, u64>) -> (r: Vec<(SocketKey, u64)>)
    ensures
        lists_active(r@, active_entries(*map)),
{
    map.iter().map(|kv| (*kv.key(), *kv.value())).collect()
}

// ---------- Redirections ----------

/// What a map of redirections holds.
pub uninterp spec fn redirect_entries(map: DashMap<String, RedirectionConfig>) -> Map<
    Seq<char>,
    RedirectionConfig,
>;

/// `DashMap::new` makes a map that holds nothing.
#[verifier::external_body]
pub(crate) fn redirect_map() -> (map: DashMap<String, RedirectionConfig>)
    ensures
        (redirect_entries(map) == Map::<Seq<char>, RedirectionConfig>::empty()),
{
    DashMap::new()
}

/// `DashMap::clear` removes every entry.
#[verifier::external_body]
pub(crate) fn redirect_clear(map: &mut DashMap<String, RedirectionConfig>)
    ensures
        (redirect_entries(*final(map)) == Map::<Seq<char>, RedirectionConfig>::empty()),
{
    map.clear();
}

/// `DashMap::insert` puts the value under the key, whatever was there before.
#[verifier::external_body]
pub(crate) fn redirect_insert(
    map: &mut DashMap<String, RedirectionConfig>,
    key: String,
    value: RedirectionConfig,
)
    ensures
        redirect_entries(*final(map)) == redirect_entries(*old(map)).insert(key@, value),
{
    map.insert(key, value);
}

/// Whether `items` lists what `entries` holds, every key once, in some order.
pub open spec fn lists_redirects(
    items: Seq<(String, RedirectionConfig)>,
    entries: Map<Seq<char>, RedirectionConfig>,
) -> bool {
    &&& forall|i: int, j: int|
        0 <= i < j < items.len() ==> (#[trigger] items[i]).0@ != (#[trigger] items[j]).0@
    &&& forall|i: int|
        0 <= i < items.len() ==> entries.contains_key((#[trigger] items[i]).0@)
            && entries[items[i].0@] == items[i].1
    &&& forall|k: Seq<char>| #[trigger]
        entries.contains_key(k) ==> exists|i: int|
            0 <= i < items.len() && (#[trigger] items[i]).0@ == k
}

/// `DashMap::iter` visits every entry once, in no particular order.
#[verifier::external_body]
pub(crate) fn redirect_items(map: &DashMap<String, RedirectionConfig>) -> (r: Vec<
    (String, RedirectionConfig),
>)
    ensures
        lists_redirects(r@, redirect_entries(*map)),
{
    map.iter().map(|kv| (kv.key().clone(), *kv.value())).collect()
}

/// `DashMap::get` finds the value under the key, if there is one.
#[verifier::external_body]
pub(crate) fn redirect_get(map: &DashMap<String, RedirectionConfig>, key: &str) -> (r: Option<
    RedirectionConfig,
>)
    ensures
        r == redirect_entries(*map).get(key@),
{
    map.get(key).map(|config| *config)
}

} // verus!
