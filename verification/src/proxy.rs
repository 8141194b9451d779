//! Client addresses, their standing, and how often a client may do what.

use vstd::prelude::*;

use dashmap::DashMap;

use crate::addr;
use crate::addr::{IpAddr, SocketAddr};
use crate::config_loader::RedirectionConfig;
use crate::tables;
use crate::tables::{
    active_insert, active_items, active_map, active_remove, conn_entry, conn_insert, conn_map,
    conn_retain, ip_get, ip_insert, ip_items, ip_map, ip_remove, ip_retain, window_entry,
    window_insert, window_map, window_retain, ConnCount, IpKey, SocketKey, SourceKey,
};
use crate::window;
use crate::window::count_event;

verus! {

/// The standing of a client address. `status` is 0 for blocked, 1 for regular,
/// 2 for one that has pinged, 3 for one that has played for two minutes and 4
/// for one that has played for six. `expiry` is the second at which a block
/// ends.
#[derive(Clone, Copy, Debug, PartialEq, Eq, Structural)]
pub struct IpInfo {
    pub status: u8,
    pub expiry: Option<u64>,
}

/// How many seconds a block lasts.
pub const BLOCK_SECS: u64 = 300;

/// What the proxy remembers about its clients, as mathematical maps.
pub struct ProxyView {
    /// The standing of addresses.
    pub ips: Map<IpKey, IpInfo>,
    /// Pings per second by domain and source.
    pub pings: Map<(Seq<char>, IpKey), (u64, usize)>,
    /// Connections per second by domain and source.
    pub conns: Map<(Seq<char>, IpKey), ConnCount>,
    /// When each connection that is being forwarded began, in nanoseconds.
    pub active: Map<SocketKey, u64>,
}

/// What the proxy remembers about its clients.
pub struct ProxyState {
    ips: DashMap<IpKey, IpInfo>,
    pings: DashMap<SourceKey, (u64, usize)>,
    conns: DashMap<SourceKey, ConnCount>,
    active: DashMap<SocketKey, u64>,
}

impl View for ProxyState {
    type V = ProxyView;

    closed spec fn view(&self) -> ProxyView {
        ProxyView {
            ips: tables::ip_entries(self.ips),
            pings: tables::window_entries(self.pings),
            conns: tables::conn_entries(self.conns),
            active: tables::active_entries(self.active),
        }
    }
}

impl ProxyState {
    /// A proxy that has seen no client.
    pub fn new() -> (r: ProxyState)
        ensures
            r@.ips == Map::<IpKey, IpInfo>::empty(),
            r@.pings == Map::<(Seq<char>, IpKey), (u64, usize)>::empty(),
            r@.conns == Map::<(Seq<char>, IpKey), ConnCount>::empty(),
            r@.active == Map::<SocketKey, u64>::empty(),
    {
        ProxyState { ips: ip_map(), pings: window_map(), conns: conn_map(), active: active_map() }
    }
}

// ---------- Blocks ----------

/// Whether a purge at second `now` leaves the entry in place: everything but a
/// block that has run out or never had an end.
pub open spec fn survives_purge(info: IpInfo, now: u64) -> bool {
    info.status != 0 || (info.expiry matches Some(expiry) && expiry > now)
}

/// Computes [`survives_purge`].
pub fn stays_listed(info: &IpInfo, now: u64) -> (r: bool)
    ensures
        r == survives_purge(*info, now),
{
    if info.status == 0 {
        match info.expiry {
            Some(expiry) => expiry > now,
            None => false,
        }
    } else {
        true
    }
}

/// Whether an address with this entry, if it has one, is blocked at second
/// `now`.
pub open spec fn is_blocked(entry: Option<IpInfo>, now: u64) -> bool {
    match entry {
        Some(info) => info.status == 0 && survives_purge(info, now),
        None => false,
    }
}

/// The state without the block of an address, if it has one that has run out by
/// second `now`.
pub open spec fn without_spent_block(view: ProxyView, ip: IpKey, now: u64) -> ProxyView {
    match view.ips.get(ip) {
        Some(info) => if info.status == 0 && !is_blocked(Some(info), now) {
            ProxyView { ips: view.ips.remove(ip), ..view }
        } else {
            view
        },
        None => view,
    }
}

/// Whether the address is blocked at second `now`. A block that has run out is
/// forgotten on the way.
pub fn is_ip_blocked(state: &mut ProxyState, ip: &IpAddr, now: u64) -> (r: bool)
    ensures
        r == is_blocked(old(state)@.ips.get(ip.key()), now),
        final(state)@ == without_spent_block(old(state)@, ip.key(), now),
{
    let key = ip.table_key();
    match ip_get(&state.ips, key) {
        Some(info) => {
            if info.status == 0 {
                if stays_listed(&info, now) {
                    return true;
                }
                ip_remove(&mut state.ips, key);
            }
            false
        },
        None => false,
    }
}

/// Blocks the address for [`BLOCK_SECS`] seconds, whatever its standing was.
pub fn block_ip(state: &mut ProxyState, ip: &IpAddr, now: u64)
    requires
        now + BLOCK_SECS <= u64::MAX,
    ensures
        final(state)@ == with_block(old(state)@, ip.key(), now),
{
    ip_insert(
        &mut state.ips,
        ip.table_key(),
        IpInfo { status: 0, expiry: Some(now + BLOCK_SECS) },
    );
}

/// The entry of an address that is blocked at second `now`.
pub open spec fn blocked_from(now: u64) -> IpInfo {
    IpInfo { status: 0, expiry: Some((now + BLOCK_SECS) as u64) }
}

/// The state after an address has been blocked at second `now`.
pub open spec fn with_block(view: ProxyView, ip: IpKey, now: u64) -> ProxyView {
    ProxyView { ips: view.ips.insert(ip, blocked_from(now)), ..view }
}

/// Forgets every block that has run out by second `now`.
pub fn purge_blocked_ips(state: &mut ProxyState, now: u64)
    ensures
        final(state)@ == (ProxyView { ips: tables::purged(old(state)@.ips, now), ..old(state)@ }),
{
    ip_retain(&mut state.ips, now);
}

/// A block holds for exactly [`BLOCK_SECS`] seconds from the second it was
/// made.
pub proof fn block_lasts_its_time(at: u64, now: u64)
    requires
        at + BLOCK_SECS <= u64::MAX,
    ensures
        is_blocked(Some(blocked_from(at)), now) <==> now < at + BLOCK_SECS,
{
}

/// A purge lifts no block that is still running and forgets no standing of an
/// address that is not blocked: whether an address is blocked is the same
/// before and after.
pub proof fn purge_changes_no_verdict(ips: Map<IpKey, IpInfo>, key: IpKey, now: u64)
    ensures
        is_blocked(tables::purged(ips, now).get(key), now) == is_blocked(ips.get(key), now),
        ips.get(key) matches Some(info) ==> (info.status != 0 ==> tables::purged(ips, now).get(key)
            == Some(info)),
{
}

// ---------- Trust ----------

/// The entry of an address after it has pinged: a regular or unknown address
/// becomes one that has pinged; every other keeps its standing.
pub open spec fn after_ping(entry: Option<IpInfo>) -> IpInfo {
    match entry {
        Some(info) => if info.status == 1 {
            IpInfo { status: 2, expiry: None }
        } else {
            info
        },
        None => IpInfo { status: 2, expiry: None },
    }
}

/// The state after an address has pinged.
pub open spec fn with_ping(view: ProxyView, ip: IpKey) -> ProxyView {
    ProxyView { ips: view.ips.insert(ip, after_ping(view.ips.get(ip))), ..view }
}

/// Notes that the address has pinged.
pub fn record_ping(state: &mut ProxyState, ip: &IpAddr)
    ensures
        final(state)@ == with_ping(old(state)@, ip.key()),
{
    let key = ip.table_key();
    match ip_get(&state.ips, key) {
        Some(info) => {
            if info.status != 0 && info.status < 2 {
                ip_insert(&mut state.ips, key, IpInfo { status: 2, expiry: None });
            } else {
                assert(state@.ips =~= state@.ips.insert(key, info));
            }
        },
        None => {
            ip_insert(&mut state.ips, key, IpInfo { status: 2, expiry: None });
        },
    }
}

/// Playing time after which an address is trusted, in nanoseconds.
pub const TRUSTED_NANOS: u64 = 120_000_000_000;

/// Playing time after which an address is trusted most, in nanoseconds.
pub const VETERAN_NANOS: u64 = 360_000_000_000;

/// The entry of an address of which some connection has lasted long enough for
/// trust, or for the most trust.
pub open spec fn after_playing(entry: Option<IpInfo>, trusted: bool, veteran: bool) -> Option<
    IpInfo,
> {
    if veteran {
        Some(IpInfo { status: 4, expiry: None })
    } else if trusted {
        match entry {
            Some(info) => if info.status >= 3 {
                entry
            } else {
                Some(IpInfo { status: 3, expiry: None })
            },
            None => Some(IpInfo { status: 3, expiry: None }),
        }
    } else {
        entry
    }
}

/// Whether some connection of the address has lasted `span` nanoseconds.
pub open spec fn has_played(
    active: Map<SocketKey, u64>,
    ip: IpKey,
    now: u64,
    span: u64,
) -> bool {
    exists|s: SocketKey| #[trigger]
        active.contains_key(s) && s.0 == ip && now - active[s] >= span
}

/// Every address with the standing that its connections have earned it.
pub open spec fn promoted(
    ips: Map<IpKey, IpInfo>,
    active: Map<SocketKey, u64>,
    now: u64,
) -> Map<IpKey, IpInfo> {
    Map::new(
        |k: IpKey| ips.contains_key(k) || has_played(active, k, now, TRUSTED_NANOS),
        |k: IpKey|
            after_playing(
                ips.get(k),
                has_played(active, k, now, TRUSTED_NANOS),
                has_played(active, k, now, VETERAN_NANOS),
            )->0,
    )
}

/// Whether one of the first `n` listed connections of the address has lasted
/// `span` nanoseconds.
spec fn seen_playing(
    items: Seq<(SocketKey, u64)>,
    n: int,
    ip: IpKey,
    now: u64,
    span: u64,
) -> bool {
    exists|i: int| 0 <= i < n && (#[trigger] items[i]).0.0 == ip && now - items[i].1 >= span
}

proof fn lemma_seen_step(items: Seq<(SocketKey, u64)>, n: int, ip: IpKey, now: u64, span: u64)
    requires
        0 <= n < items.len(),
    ensures
        seen_playing(items, n + 1, ip, now, span) <==> (seen_playing(items, n, ip, now, span) || (
        items[n].0.0 == ip && now - items[n].1 >= span)),
{
    if seen_playing(items, n, ip, now, span) {
        let i = choose|i: int|
            0 <= i < n && (#[trigger] items[i]).0.0 == ip && now - items[i].1 >= span;
        assert(items[i].0.0 == ip);
    }
}

proof fn lemma_seen_all(
    items: Seq<(SocketKey, u64)>,
    active: Map<SocketKey, u64>,
    ip: IpKey,
    now: u64,
    span: u64,
)
    requires
        tables::lists_active(items, active),
    ensures
        seen_playing(items, items.len() as int, ip, now, span) <==> has_played(
            active,
            ip,
            now,
            span,
        ),
{
    if seen_playing(items, items.len() as int, ip, now, span) {
        let i = choose|i: int|
            0 <= i < items.len() && (#[trigger] items[i]).0.0 == ip && now - items[i].1 >= span;
        assert(active.contains_key(items[i].0));
    }
    if has_played(active, ip, now, span) {
        let s = choose|s: SocketKey| #[trigger]
            active.contains_key(s) && s.0 == ip && now - active[s] >= span;
        let i = choose|i: int| 0 <= i < items.len() && #[trigger] items[i].0 == s;
        assert(items[i].0.0 == ip);
    }
}

/// Raises the standing of every address whose connections have lasted long
/// enough at nanosecond `now`. Six minutes of play lift even a block.
pub fn promote_active(state: &mut ProxyState, now: u64)
    ensures
        final(state)@ == (ProxyView {
            ips: promoted(old(state)@.ips, old(state)@.active, now),
            ..old(state)@
        }),
{
    let items = active_items(&state.active);
    let ghost before = state@;
    let mut i: usize = 0;
    while i < items.len()
        invariant
            i <= items@.len(),
            state@ == (ProxyView { ips: state@.ips, ..before }),
            forall|k: IpKey| #[trigger]
                state@.ips.get(k) == after_playing(
                    before.ips.get(k),
                    seen_playing(items@, i as int, k, now, TRUSTED_NANOS),
                    seen_playing(items@, i as int, k, now, VETERAN_NANOS),
                ),
        decreases items@.len() - i,
    {
        let ghost held = state@.ips;
        let (socket, began) = items[i];
        let ip = socket.0;
        let lasted: u64 = if now >= began {
            now - began
        } else {
            0
        };
        if lasted >= VETERAN_NANOS {
            ip_insert(&mut state.ips, ip, IpInfo { status: 4, expiry: None });
        } else if lasted >= TRUSTED_NANOS {
            match ip_get(&state.ips, ip) {
                Some(info) => {
                    if info.status < 3 {
                        ip_insert(&mut state.ips, ip, IpInfo { status: 3, expiry: None });
                    }
                },
                None => {
                    ip_insert(&mut state.ips, ip, IpInfo { status: 3, expiry: None });
                },
            }
        }
        proof {
            assert forall|k: IpKey| true implies #[trigger] state@.ips.get(k) == after_playing(
                before.ips.get(k),
                seen_playing(items@, i + 1, k, now, TRUSTED_NANOS),
                seen_playing(items@, i + 1, k, now, VETERAN_NANOS),
            ) by {
                lemma_seen_step(items@, i as int, k, now, TRUSTED_NANOS);
                lemma_seen_step(items@, i as int, k, now, VETERAN_NANOS);
                assert(held.get(k) == after_playing(
                    before.ips.get(k),
                    seen_playing(items@, i as int, k, now, TRUSTED_NANOS),
                    seen_playing(items@, i as int, k, now, VETERAN_NANOS),
                ));
                assert(held.get(ip) == after_playing(
                    before.ips.get(ip),
                    seen_playing(items@, i as int, ip, now, TRUSTED_NANOS),
                    seen_playing(items@, i as int, ip, now, VETERAN_NANOS),
                ));
            }
        }
        i = i + 1;
    }
    proof {
        let goal = promoted(before.ips, before.active, now);
        assert forall|k: IpKey| #[trigger] state@.ips.get(k) == goal.get(k) by {
            lemma_seen_all(items@, before.active, k, now, TRUSTED_NANOS);
            lemma_seen_all(items@, before.active, k, now, VETERAN_NANOS);
        }
        assert forall|k: IpKey| state@.ips.contains_key(k) <==> goal.contains_key(k) by {
            assert(state@.ips.get(k) == goal.get(k));
        }
        assert forall|k: IpKey| state@.ips.contains_key(k) implies state@.ips[k] == goal[k] by {
            assert(state@.ips.get(k) == goal.get(k));
        }
        assert(state@.ips =~= goal);
    }
}

/// Neither pinging nor playing ever lowers the standing of an address.
pub proof fn standing_never_falls(entry: Option<IpInfo>, trusted: bool, veteran: bool)
    requires
        entry matches Some(info) ==> info.status <= 4,
    ensures
        entry matches Some(info) ==> after_ping(entry).status >= info.status,
        entry matches Some(info) ==> (after_playing(entry, trusted, veteran) matches Some(later)
            && later.status >= info.status),
{
}

/// Pinging lifts no block.
pub proof fn ping_lifts_no_block(entry: Option<IpInfo>, now: u64)
    ensures
        is_blocked(Some(after_ping(entry)), now) == is_blocked(entry, now),
{
}

// ---------- Rate limits ----------

/// Whether a ping limit lets one more ping through, and the state afterwards.
/// Without a limit everything passes and nothing is counted.
pub open spec fn ping_limit_step(
    view: ProxyView,
    domain: Seq<char>,
    ip: IpKey,
    limit: usize,
    now: u64,
) -> (bool, ProxyView) {
    let step = window::keyed_step(view.pings, (domain, ip), now, window::zero_is_none(limit));
    (step.0, ProxyView { pings: step.1, ..view })
}

/// Whether a domain's ping limit lets this ping through.
pub fn check_ping_limit(
    state: &mut ProxyState,
    domain: &str,
    src_ip: &IpAddr,
    cfg: &RedirectionConfig,
    now: u64,
) -> (r: bool)
    ensures
        (r, final(state)@) == ping_limit_step(
            old(state)@,
            domain@,
            src_ip.key(),
            cfg.max_ping_response_per_second,
            now,
        ),
{
    let limit = cfg.max_ping_response_per_second;
    if limit == 0 {
        return true;
    }
    let ip = src_ip.table_key();
    let entry = window_entry(&mut state.pings, (domain.to_owned(), ip), (now, 0));
    let (allowed, updated) = count_event(entry, now, limit);
    window_insert(&mut state.pings, (domain.to_owned(), ip), updated);
    proof {
        let key = (domain@, src_ip.key());
        let step = window::window_step(old(state)@.pings.get(key), now, limit);
        assert(state@.pings =~= old(state)@.pings.insert(key, step.1));
    }
    allowed
}

/// How many connections a counter has let in, of whatever standing.
pub open spec fn total(count: ConnCount) -> nat {
    count.1 as nat + count.2 as nat + count.3 as nat + count.4 as nat
}

/// The counter with one more connection of this standing.
pub open spec fn one_more(count: ConnCount, status: u8) -> ConnCount {
    if status == 4 {
        (count.0, count.1, count.2, count.3, (count.4 + 1) as usize)
    } else if status == 3 {
        (count.0, count.1, count.2, (count.3 + 1) as usize, count.4)
    } else if status == 2 {
        (count.0, count.1, (count.2 + 1) as usize, count.3, count.4)
    } else {
        (count.0, (count.1 + 1) as usize, count.2, count.3, count.4)
    }
}

/// What one more connection at second `now` does to a counter: whether it is
/// admitted, and the counter afterwards. A client is admitted while all its
/// connections of this second stay below the limit. They are counted by the
/// standing that they were let in with.
pub open spec fn conn_step(entry: Option<ConnCount>, status: u8, now: u64, limit: usize) -> (
    bool,
    ConnCount,
) {
    let count = match entry {
        Some(e) => if e.0 == now {
            e
        } else {
            (now, 0usize, 0usize, 0usize, 0usize)
        },
        None => (now, 0usize, 0usize, 0usize, 0usize),
    };
    if total(count) < limit {
        (true, one_more(count, status))
    } else {
        (false, count)
    }
}

/// The standing of an address, as a number. An address without an entry is
/// regular.
pub open spec fn standing(entry: Option<IpInfo>) -> u8 {
    match entry {
        Some(info) => info.status,
        None => 1,
    }
}

/// Computes [`conn_step`] for a counter that exists.
fn count_connection(entry: ConnCount, status: u8, now: u64, limit: usize) -> (r: (bool, ConnCount))
    ensures
        r == conn_step(Some(entry), status, now, limit),
{
    let mut count = entry;
    if count.0 != now {
        count = (now, 0, 0, 0, 0);
    }
    let room = limit.saturating_sub(count.1).saturating_sub(count.2).saturating_sub(
        count.3,
    ).saturating_sub(count.4);
    if room == 0 {
        return (false, count);
    }
    if status == 4 {
        count.4 = count.4 + 1;
    } else if status == 3 {
        count.3 = count.3 + 1;
    } else if status == 2 {
        count.2 = count.2 + 1;
    } else {
        count.1 = count.1 + 1;
    }
    (true, count)
}

/// An attempt of a source to connect to a domain.
pub struct Attempt {
    /// The domain and the source.
    pub key: (Seq<char>, IpKey),
    pub second: u64,
    /// The standing that the source has at that time.
    pub status: u8,
}

/// What an attempt to connect does to the counters: whether it is admitted, and
/// the counters afterwards. Without a limit every attempt is admitted and none
/// is counted.
pub open spec fn attempt_step(
    conns: Map<(Seq<char>, IpKey), ConnCount>,
    attempt: Attempt,
    limit: Option<usize>,
) -> (bool, Map<(Seq<char>, IpKey), ConnCount>) {
    match limit {
        Some(limit) => {
            let step = conn_step(conns.get(attempt.key), attempt.status, attempt.second, limit);
            (step.0, conns.insert(attempt.key, step.1))
        },
        None => (true, conns),
    }
}

/// Whether a connection limit lets one more connection through, and the state
/// afterwards.
pub open spec fn conn_limit_step(
    view: ProxyView,
    domain: Seq<char>,
    ip: IpKey,
    limit: usize,
    now: u64,
) -> (bool, ProxyView) {
    let attempt = Attempt {
        key: (domain, ip),
        second: now,
        status: standing(view.ips.get(ip)),
    };
    let step = attempt_step(view.conns, attempt, window::zero_is_none(limit));
    (step.0, ProxyView { conns: step.1, ..view })
}

/// Whether a domain's connection limit lets this connection through.
pub fn check_connection_limit(
    state: &mut ProxyState,
    domain: &str,
    src_ip: &IpAddr,
    cfg: &RedirectionConfig,
    now: u64,
) -> (r: bool)
    ensures
        (r, final(state)@) == conn_limit_step(
            old(state)@,
            domain@,
            src_ip.key(),
            cfg.max_connections_per_second,
            now,
        ),
{
    let limit = cfg.max_connections_per_second;
    if limit == 0 {
        return true;
    }
    let ip = src_ip.table_key();
    let status: u8 = match ip_get(&state.ips, ip) {
        Some(info) => info.status,
        None => 1,
    };
    let entry = conn_entry(&mut state.conns, (domain.to_owned(), ip), (now, 0, 0, 0, 0));
    let (allowed, updated) = count_connection(entry, status, now, limit);
    conn_insert(&mut state.conns, (domain.to_owned(), ip), updated);
    proof {
        let key = (domain@, src_ip.key());
        let step = conn_step(old(state)@.conns.get(key), status, now, limit);
        assert(state@.conns =~= old(state)@.conns.insert(key, step.1));
    }
    allowed
}

/// The counters after attempts to connect. Every domain and source has a limit
/// of its own, or none.
pub open spec fn conns_after(
    conns: Map<(Seq<char>, IpKey), ConnCount>,
    attempts: Seq<Attempt>,
    limits: spec_fn((Seq<char>, IpKey)) -> Option<usize>,
) -> Map<(Seq<char>, IpKey), ConnCount>
    decreases attempts.len(),
{
    if attempts.len() == 0 {
        conns
    } else {
        let last = attempts.last();
        attempt_step(conns_after(conns, attempts.drop_last(), limits), last, limits(last.key)).1
    }
}

/// How many of the attempts of `key` at `second` are admitted.
pub open spec fn connections_in(
    conns: Map<(Seq<char>, IpKey), ConnCount>,
    attempts: Seq<Attempt>,
    limits: spec_fn((Seq<char>, IpKey)) -> Option<usize>,
    key: (Seq<char>, IpKey),
    second: u64,
) -> nat
    decreases attempts.len(),
{
    if attempts.len() == 0 {
        0
    } else {
        let last = attempts.last();
        let before = conns_after(conns, attempts.drop_last(), limits);
        connections_in(conns, attempts.drop_last(), limits, key, second) + if last.key == key
            && last.second == second && attempt_step(before, last, limits(key)).0 {
            1nat
        } else {
            0
        }
    }
}

/// The attempts as events of their domains and sources, without the standings.
pub open spec fn without_standings(attempts: Seq<Attempt>) -> Seq<((Seq<char>, IpKey), u64)> {
    attempts.map_values(|a: Attempt| (a.key, a.second))
}

/// The seconds of connection counters.
pub open spec fn seconds_of(conns: Map<(Seq<char>, IpKey), ConnCount>) -> Map<
    (Seq<char>, IpKey),
    (u64, usize),
> {
    conns.map_values(|c: ConnCount| (c.0, 0usize))
}

proof fn lemma_standings_do_not_matter(
    conns: Map<(Seq<char>, IpKey), ConnCount>,
    attempts: Seq<Attempt>,
    limits: spec_fn((Seq<char>, IpKey)) -> Option<usize>,
    key: (Seq<char>, IpKey),
    limit: usize,
    second: u64,
)
    requires
        limits(key) == Some(limit),
        window::is_past(seconds_of(conns), key, without_standings(attempts)),
    ensures
        connections_in(conns, attempts, limits, key, second) == window::admitted_in(
            seconds_of(conns),
            without_standings(attempts),
            limits,
            key,
            second,
        ),
        ({
            let entry = conns_after(conns, attempts, limits).get(key);
            let counter = window::counts_after(
                seconds_of(conns),
                without_standings(attempts),
                limits,
            ).get(key);
            match window::last_second(without_standings(attempts), key) {
                Some(_) => entry matches Some(c) && counter == Some((c.0, total(c) as usize))
                    && total(c) <= limit,
                None => entry == conns.get(key) && counter == seconds_of(conns).get(key),
            }
        }),
    decreases attempts.len(),
{
    let events = without_standings(attempts);
    if attempts.len() > 0 {
        let before = attempts.drop_last();
        let last = attempts.last();
        assert(events.drop_last() == without_standings(before));
        assert(events.last() == (last.key, last.second));
        assert(window::is_past(seconds_of(conns), key, without_standings(before))) by {
            if let Some(e) = seconds_of(conns).get(key) {
                assert forall|i: int| 0 <= i < before.len() implies e.0 < (
                #[trigger] without_standings(before)[i]).1 by {
                    assert(e.0 < events[i].1);
                }
            }
        }
        lemma_standings_do_not_matter(conns, before, limits, key, limit, second);
        if last.key == key {
            assert(events[events.len() - 1].1 == last.second);
        }
    } else {
        assert(events == Seq::<((Seq<char>, IpKey), u64)>::empty());
    }
}

/// The connection limit of a source: as long as time does not run backwards, of
/// its attempts to connect to a domain in any one second exactly as many are
/// admitted as there are, up to the limit, whatever becomes of its standing and
/// whatever others do in between. A counter that is left over from earlier
/// seconds does not matter.
pub proof fn source_connects_up_to_limit(
    conns: Map<(Seq<char>, IpKey), ConnCount>,
    attempts: Seq<Attempt>,
    limits: spec_fn((Seq<char>, IpKey)) -> Option<usize>,
    key: (Seq<char>, IpKey),
    limit: usize,
    second: u64,
)
    requires
        limits(key) == Some(limit),
        window::in_order(without_standings(attempts)),
        window::is_past(seconds_of(conns), key, without_standings(attempts)),
    ensures
        connections_in(conns, attempts, limits, key, second) == window::up_to(
            window::events_in(without_standings(attempts), key, second),
            limit,
        ),
{
    lemma_standings_do_not_matter(conns, attempts, limits, key, limit, second);
    window::keys_are_admitted_up_to_their_limits(
        seconds_of(conns),
        without_standings(attempts),
        limits,
        key,
        limit,
        second,
    );
}

/// Whatever has been counted before, of the attempts of a source to connect to a
/// domain within one second no more are admitted than its limit, whatever
/// becomes of its standing.
pub proof fn no_second_connects_more_than_the_limit(
    conns: Map<(Seq<char>, IpKey), ConnCount>,
    attempts: Seq<Attempt>,
    limits: spec_fn((Seq<char>, IpKey)) -> Option<usize>,
    key: (Seq<char>, IpKey),
    limit: usize,
    second: u64,
)
    requires
        limits(key) == Some(limit),
        window::only_at(without_standings(attempts), key, second),
    ensures
        connections_in(conns, attempts, limits, key, second) <= limit,
        connections_in(conns, attempts, limits, key, second) > 0 ==> (conns_after(
            conns,
            attempts,
            limits,
        ).get(key) matches Some(c) && c.0 == second && connections_in(
            conns,
            attempts,
            limits,
            key,
            second,
        ) <= total(c) <= limit),
    decreases attempts.len(),
{
    if attempts.len() > 0 {
        let before = attempts.drop_last();
        let events = without_standings(attempts);
        assert(window::only_at(without_standings(before), key, second)) by {
            assert forall|i: int|
                0 <= i < before.len() && (#[trigger] without_standings(before)[i]).0
                    == key implies without_standings(before)[i].1 == second by {
                assert(events[i] == without_standings(before)[i]);
            }
        }
        no_second_connects_more_than_the_limit(conns, before, limits, key, limit, second);
        assert(events[events.len() - 1] == (attempts.last().key, attempts.last().second));
    }
}

/// Forgets the counters of seconds before the previous one.
pub fn prune_counters(state: &mut ProxyState, now: u64)
    ensures
        final(state)@ == (ProxyView {
            pings: tables::fresh_windows(old(state)@.pings, now),
            conns: tables::fresh_conns(old(state)@.conns, now),
            ..old(state)@
        }),
{
    window_retain(&mut state.pings, now);
    conn_retain(&mut state.conns, now);
}

/// Pruning disturbs no event, not even one that began in the second before: the
/// counters decide the same with and without it.
pub proof fn pruning_changes_no_verdict(
    pings: Map<(Seq<char>, IpKey), (u64, usize)>,
    conns: Map<(Seq<char>, IpKey), ConnCount>,
    key: (Seq<char>, IpKey),
    pruned_at: u64,
    now: u64,
    status: u8,
    limit: usize,
)
    requires
        pruned_at <= now + 1,
    ensures
        window::window_step(tables::fresh_windows(pings, pruned_at).get(key), now, limit)
            == window::window_step(pings.get(key), now, limit),
        conn_step(tables::fresh_conns(conns, pruned_at).get(key), status, now, limit) == conn_step(
            conns.get(key),
            status,
            now,
            limit,
        ),
{
}

/// The state after a second has passed.
pub open spec fn ticked(view: ProxyView, now_secs: u64, now_nanos: u64) -> ProxyView {
    ProxyView {
        ips: promoted(view.ips, view.active, now_nanos),
        pings: tables::fresh_windows(view.pings, now_secs),
        conns: tables::fresh_conns(view.conns, now_secs),
        active: view.active,
    }
}

/// What the proxy does every second: forget old counters, and raise the
/// standing of addresses that have played long enough.
pub fn tick(state: &mut ProxyState, now_secs: u64, now_nanos: u64)
    ensures
        final(state)@ == ticked(old(state)@, now_secs, now_nanos),
{
    prune_counters(state, now_secs);
    promote_active(state, now_nanos);
}

// ---------- Connections ----------

/// The state with a connection that is being forwarded since nanosecond `now`.
pub open spec fn with_connection(view: ProxyView, socket: SocketKey, now: u64) -> ProxyView {
    ProxyView { active: view.active.insert(socket, now), ..view }
}

/// The state without a connection.
pub open spec fn without_connection(view: ProxyView, socket: SocketKey) -> ProxyView {
    ProxyView { active: view.active.remove(socket), ..view }
}

/// Notes that a connection is being forwarded since nanosecond `now`.
pub fn begin_connection(state: &mut ProxyState, addr: &SocketAddr, now: u64)
    ensures
        final(state)@ == with_connection(old(state)@, addr.key(), now),
{
    active_insert(&mut state.active, addr.table_key(), now);
}

/// Notes that a connection is no longer forwarded.
pub fn finish_connection(state: &mut ProxyState, addr: &SocketAddr)
    ensures
        final(state)@ == without_connection(old(state)@, addr.key()),
{
    active_remove(&mut state.active, addr.table_key());
}

// ---------- Persistence ----------

/// A row of the table that standings are stored in. `ip` is missing where the
/// stored text is no address.
#[derive(Clone, Copy, Debug, PartialEq, Eq, Structural)]
pub struct IpRow {
    pub ip: Option<IpAddr>,
    pub status: i64,
    pub expiry: Option<i64>,
}

/// The row that stores a standing. Numbers are stored as signed 64-bit ones.
pub open spec fn row_of(ip: IpAddr, info: IpInfo) -> IpRow {
    IpRow {
        ip: Some(ip),
        status: info.status as i64,
        expiry: match info.expiry {
            Some(e) => Some(e as i64),
            None => None,
        },
    }
}

/// The standing that a row stores.
pub open spec fn info_of(row: IpRow) -> IpInfo {
    IpInfo {
        status: row.status as u8,
        expiry: match row.expiry {
            Some(e) => Some(e as u64),
            None => None,
        },
    }
}

/// The standings with those of the rows put in, in order. A row without an
/// address is passed over.
pub open spec fn with_rows(ips: Map<IpKey, IpInfo>, rows: Seq<IpRow>) -> Map<IpKey, IpInfo>
    decreases rows.len(),
{
    if rows.len() == 0 {
        ips
    } else {
        let rest = with_rows(ips, rows.drop_last());
        match rows.last().ip {
            Some(ip) => rest.insert(ip.key(), info_of(rows.last())),
            None => rest,
        }
    }
}

/// How many of the rows have an address.
pub open spec fn usable_rows(rows: Seq<IpRow>) -> nat
    decreases rows.len(),
{
    if rows.len() == 0 {
        0
    } else {
        usable_rows(rows.drop_last()) + if rows.last().ip is Some {
            1nat
        } else {
            0
        }
    }
}

/// Whether the rows store what is known of every address, each address once.
pub open spec fn stores(rows: Seq<IpRow>, ips: Map<IpKey, IpInfo>) -> bool {
    &&& forall|i: int, j: int|
        0 <= i < j < rows.len() ==> (#[trigger] rows[i]).ip != (#[trigger] rows[j]).ip
    &&& forall|i: int|
        0 <= i < rows.len() ==> ((#[trigger] rows[i]).ip matches Some(ip) && ips.contains_key(
            ip.key(),
        ) && rows[i] == row_of(ip, ips[ip.key()]))
    &&& forall|ip: IpAddr| #[trigger]
        ips.contains_key(ip.key()) ==> exists|i: int|
            0 <= i < rows.len() && (#[trigger] rows[i]).ip == Some(ip)
}

/// The rows to store.
pub fn save_ip_status(state: &ProxyState) -> (rows: Vec<IpRow>)
    ensures
        stores(rows@, state@.ips),
{
    let items = ip_items(&state.ips);
    let mut rows: Vec<IpRow> = Vec::new();
    let mut i: usize = 0;
    while i < items.len()
        invariant
            i <= items@.len(),
            tables::lists_ips(items@, state@.ips),
            forall|a: int, b: int|
                0 <= a < b < rows@.len() ==> (#[trigger] rows@[a]).ip != (#[trigger] rows@[b]).ip,
            forall|a: int|
                0 <= a < rows@.len() ==> ((#[trigger] rows@[a]).ip matches Some(ip)
                    && state@.ips.contains_key(ip.key()) && rows@[a] == row_of(
                    ip,
                    state@.ips[ip.key()],
                ) && exists|j: int| 0 <= j < i && #[trigger] items@[j].0 == ip.key()),
            forall|j: int, ip: IpAddr|
                0 <= j < i && (#[trigger] items@[j]).0 == #[trigger] ip.key() ==> exists|a: int|
                    0 <= a < rows@.len() && (#[trigger] rows@[a]).ip == Some(ip),
        decreases items@.len() - i,
    {
        let (key, info) = items[i];
        let ghost held = rows@;
        assert(items@[i as int].0 == key);
        match IpAddr::from_table_key(key) {
            Some(ip) => {
                let expiry: Option<i64> = match info.expiry {
                    Some(e) => Some(#[verifier::truncate] (e as i64)),
                    None => None,
                };
                rows.push(IpRow { ip: Some(ip), status: info.status as i64, expiry });
                proof {
                    assert forall|a: int| 0 <= a < held.len() implies held[a].ip != Some(ip) by {
                        if held[a].ip == Some(ip) {
                            let j = choose|j: int| 0 <= j < i && #[trigger] items@[j].0 == ip.key();
                            assert(items@[j].0 == items@[i as int].0);
                        }
                    }
                    assert forall|a: int| 0 <= a < rows@.len() implies ((
                    #[trigger] rows@[a]).ip matches Some(p) && state@.ips.contains_key(p.key())
                        && rows@[a] == row_of(p, state@.ips[p.key()]) && exists|j: int|
                        0 <= j < i + 1 && #[trigger] items@[j].0 == p.key()) by {
                        if a < held.len() {
                            assert(rows@[a] == held[a]);
                            let p = held[a].ip->0;
                            let j = choose|j: int| 0 <= j < i && #[trigger] items@[j].0 == p.key();
                            assert(items@[j].0 == p.key());
                        } else {
                            assert(items@[i as int].0 == ip.key());
                        }
                    }
                    assert forall|j: int, p: IpAddr|
                        0 <= j < i + 1 && (#[trigger] items@[j]).0
                            == #[trigger] p.key() implies exists|a: int|
                        0 <= a < rows@.len() && (#[trigger] rows@[a]).ip == Some(p) by {
                        if j < i {
                            let a = choose|a: int|
                                0 <= a < held.len() && (#[trigger] held[a]).ip == Some(p);
                            assert(rows@[a].ip == Some(p));
                        } else {
                            addr::address_keys_are_distinct(p, ip);
                            assert(rows@[held.len() as int].ip == Some(p));
                        }
                    }
                }
            },
            None => {
                proof {
                    assert forall|a: int| 0 <= a < rows@.len() implies ((
                    #[trigger] rows@[a]).ip matches Some(p) && state@.ips.contains_key(p.key())
                        && rows@[a] == row_of(p, state@.ips[p.key()]) && exists|j: int|
                        0 <= j < i + 1 && #[trigger] items@[j].0 == p.key()) by {
                        let p = held[a].ip->0;
                        let j = choose|j: int| 0 <= j < i && #[trigger] items@[j].0 == p.key();
                        assert(items@[j].0 == p.key());
                    }
                }
            },
        }
        i = i + 1;
    }
    proof {
        assert forall|ip: IpAddr| #[trigger] state@.ips.contains_key(ip.key()) implies exists|a: int|
            0 <= a < rows@.len() && (#[trigger] rows@[a]).ip == Some(ip) by {
            let j = choose|j: int| 0 <= j < items@.len() && #[trigger] items@[j].0 == ip.key();
            assert(items@[j].0 == ip.key());
        }
    }
    rows
}

/// Takes stored standings in and returns how many there were.
pub fn load_ip_status(state: &mut ProxyState, rows: &Vec<IpRow>) -> (count: usize)
    ensures
        count == usable_rows(rows@),
        final(state)@ == (ProxyView { ips: with_rows(old(state)@.ips, rows@), ..old(state)@ }),
{
    let mut count: usize = 0;
    let mut i: usize = 0;
    assert(rows@.take(0) == Seq::<IpRow>::empty());
    while i < rows.len()
        invariant
            i <= rows@.len(),
            count <= i,
            count == usable_rows(rows@.take(i as int)),
            state@ == (ProxyView {
                ips: with_rows(old(state)@.ips, rows@.take(i as int)),
                ..old(state)@
            }),
        decreases rows@.len() - i,
    {
        assert(rows@.take(i + 1).drop_last() == rows@.take(i as int));
        let row = &rows[i];
        if let Some(ip) = row.ip {
            let expiry: Option<u64> = match row.expiry {
                Some(e) => Some(#[verifier::truncate] (e as u64)),
                None => None,
            };
            let status: u8 = #[verifier::truncate] (row.status as u8);
            ip_insert(&mut state.ips, ip.table_key(), IpInfo { status, expiry });
            count = count + 1;
        }
        i = i + 1;
    }
    assert(rows@.take(i as int) == rows@);
    count
}

/// The proxy as it starts: with the stored standings, less the blocks that have
/// run out by second `now`. Returned with it is how many standings were stored.
pub fn start(rows: &Vec<IpRow>, now: u64) -> (r: (ProxyState, usize))
    ensures
        r.0@.ips == tables::purged(with_rows(Map::empty(), rows@), now),
        r.0@.pings == Map::<(Seq<char>, IpKey), (u64, usize)>::empty(),
        r.0@.conns == Map::<(Seq<char>, IpKey), ConnCount>::empty(),
        r.0@.active == Map::<SocketKey, u64>::empty(),
        r.1 == usable_rows(rows@),
{
    let mut state = ProxyState::new();
    let loaded: usize = load_ip_status(&mut state, rows);
    purge_blocked_ips(&mut state, now);
    (state, loaded)
}

proof fn lemma_row_round_trip(ip: IpAddr, info: IpInfo)
    ensures
        info_of(row_of(ip, info)) == info,
{
    let s = info.status;
    assert((s as i64) as u8 == s) by (bit_vector);
    if let Some(e) = info.expiry {
        assert((e as i64) as u64 == e) by (bit_vector);
    }
}

proof fn lemma_rows_found(rows: Seq<IpRow>, ips: Map<IpKey, IpInfo>, n: int, ip: IpAddr)
    requires
        stores(rows, ips),
        0 <= n <= rows.len(),
    ensures
        with_rows(Map::empty(), rows.take(n)).get(ip.key()) == if (exists|i: int|
            0 <= i < n && (#[trigger] rows[i]).ip == Some(ip)) {
            Some(ips[ip.key()])
        } else {
            None
        },
    decreases n,
{
    if n > 0 {
        lemma_rows_found(rows, ips, n - 1, ip);
        assert(rows.take(n).drop_last() == rows.take(n - 1));
        let last = rows[n - 1];
        let own = last.ip->0;
        lemma_row_round_trip(own, ips[own.key()]);
        if own.key() == ip.key() {
            addr::address_keys_are_distinct(own, ip);
        }
        if exists|i: int| 0 <= i < n && (#[trigger] rows[i]).ip == Some(ip) {
            let i = choose|i: int| 0 <= i < n && (#[trigger] rows[i]).ip == Some(ip);
            if i < n - 1 {
                assert(rows[i].ip == Some(ip));
            }
        }
    } else {
        assert(rows.take(0) == Seq::<IpRow>::empty());
    }
}

/// A restart loses nothing: rows that store the standings, loaded into an empty
/// table, give every address the standing it had.
pub proof fn standings_survive_restart(rows: Seq<IpRow>, ips: Map<IpKey, IpInfo>, ip: IpAddr)
    requires
        stores(rows, ips),
    ensures
        with_rows(Map::empty(), rows).get(ip.key()) == ips.get(ip.key()),
{
    lemma_rows_found(rows, ips, rows.len() as int, ip);
    assert(rows.take(rows.len() as int) == rows);
    if ips.contains_key(ip.key()) {
        let i = choose|i: int| 0 <= i < rows.len() && (#[trigger] rows[i]).ip == Some(ip);
        assert(rows[i].ip == Some(ip));
    }
}

/// Whether a key is that of an address.
pub open spec fn is_address(key: IpKey) -> bool {
    exists|ip: IpAddr| #[trigger] ip.key() == key
}

/// Whether everything that is remembered is filed under addresses.
pub open spec fn files_addresses(view: ProxyView) -> bool {
    &&& forall|k: IpKey| #[trigger] view.ips.contains_key(k) ==> is_address(k)
    &&& forall|s: SocketKey| #[trigger] view.active.contains_key(s) ==> is_address(s.0)
}

/// Everything is filed under addresses, from the start on and whatever is done:
/// blocks, pings, limits, promotion, purging, connections, stored rows.
pub proof fn everything_is_filed_under_addresses(
    view: ProxyView,
    ip: IpAddr,
    addr: SocketAddr,
    rows: Seq<IpRow>,
    domain: Seq<char>,
    limit: usize,
    now: u64,
)
    requires
        files_addresses(view),
    ensures
        files_addresses(ProxyView { ips: Map::empty(), active: Map::empty(), ..view }),
        files_addresses(with_block(view, ip.key(), now)),
        files_addresses(without_spent_block(view, ip.key(), now)),
        files_addresses(with_ping(view, ip.key())),
        files_addresses(ping_limit_step(view, domain, ip.key(), limit, now).1),
        files_addresses(conn_limit_step(view, domain, ip.key(), limit, now).1),
        files_addresses(ProxyView { ips: promoted(view.ips, view.active, now), ..view }),
        files_addresses(ProxyView { ips: tables::purged(view.ips, now), ..view }),
        files_addresses(ProxyView { active: view.active.insert(addr.key(), now), ..view }),
        files_addresses(ProxyView { active: view.active.remove(addr.key()), ..view }),
        files_addresses(ProxyView { ips: with_rows(view.ips, rows), ..view }),
    decreases rows.len(),
{
    assert(is_address(ip.key()));
    assert(is_address(addr.ip.key()));
    assert forall|k: IpKey| promoted(view.ips, view.active, now).contains_key(k) implies is_address(
        k,
    ) by {
        if !view.ips.contains_key(k) {
            let s = choose|s: SocketKey| #[trigger]
                view.active.contains_key(s) && s.0 == k && now - view.active[s] >= TRUSTED_NANOS;
            assert(view.active.contains_key(s));
        }
    }
    if rows.len() > 0 {
        everything_is_filed_under_addresses(view, ip, addr, rows.drop_last(), domain, limit, now);
        let earlier = ProxyView { ips: with_rows(view.ips, rows.drop_last()), ..view };
        assert(files_addresses(earlier));
        if let Some(own) = rows.last().ip {
            assert(is_address(own.key()));
        }
        assert forall|k: IpKey| with_rows(view.ips, rows).contains_key(k) implies is_address(k) by {
            if rows.last().ip is None || k != rows.last().ip->0.key() {
                assert(earlier.ips.contains_key(k));
            }
        }
    }
}

proof fn lemma_all_usable(rows: Seq<IpRow>)
    requires
        forall|i: int| 0 <= i < rows.len() ==> (#[trigger] rows[i]).ip is Some,
    ensures
        usable_rows(rows) == rows.len(),
    decreases rows.len(),
{
    if rows.len() > 0 {
        assert forall|i: int| 0 <= i < rows.drop_last().len() implies (
        #[trigger] rows.drop_last()[i]).ip is Some by {
            assert(rows[i].ip is Some);
        }
        assert(rows[rows.len() - 1].ip is Some);
        lemma_all_usable(rows.drop_last());
    }
}

/// A restart brings back exactly what was saved, and counts it: rows that store
/// the standings, loaded into an empty table, make up the same table, and the
/// number loaded is the number of standings.
pub proof fn restart_counts_every_standing(rows: Seq<IpRow>, ips: Map<IpKey, IpInfo>)
    requires
        stores(rows, ips),
        forall|k: IpKey| #[trigger] ips.contains_key(k) ==> is_address(k),
    ensures
        with_rows(Map::empty(), rows) == ips,
        ips.dom().finite(),
        usable_rows(rows) == ips.dom().len(),
{
    let loaded = with_rows(Map::<IpKey, IpInfo>::empty(), rows);
    let nothing = ProxyView {
        ips: Map::empty(),
        pings: Map::empty(),
        conns: Map::empty(),
        active: Map::empty(),
    };
    let any = IpAddr::V6(0);
    everything_is_filed_under_addresses(
        nothing,
        any,
        addr::plain_socket(any, 0),
        rows,
        Seq::empty(),
        0,
        0,
    );
    let restarted = ProxyView { ips: loaded, ..nothing };
    assert(files_addresses(restarted));
    assert forall|k: IpKey| #[trigger] loaded.get(k) == ips.get(k) by {
        if restarted.ips.contains_key(k) || ips.contains_key(k) {
            assert(is_address(k));
            let ip = choose|ip: IpAddr| #[trigger] ip.key() == k;
            standings_survive_restart(rows, ips, ip);
        }
    }
    assert forall|k: IpKey| loaded.contains_key(k) <==> ips.contains_key(k) by {
        assert(loaded.get(k) == ips.get(k));
    }
    assert forall|k: IpKey| loaded.contains_key(k) implies loaded[k] == ips[k] by {
        assert(loaded.get(k) == ips.get(k));
    }
    assert(loaded =~= ips);
    let keys = rows.map_values(|row: IpRow| row.ip->0.key());
    assert(keys.no_duplicates()) by {
        assert forall|i: int, j: int| 0 <= i < keys.len() && 0 <= j < keys.len() && i != j implies keys[i]
            != keys[j] by {
            assert(rows[i].ip is Some && rows[j].ip is Some);
            assert(i < j ==> rows[i].ip != rows[j].ip);
            assert(j < i ==> rows[j].ip != rows[i].ip);
            if keys[i] == keys[j] {
                addr::address_keys_are_distinct(rows[i].ip->0, rows[j].ip->0);
            }
        }
    }
    assert(keys.to_set() =~= ips.dom()) by {
        assert forall|k: IpKey| ips.contains_key(k) implies keys.contains(k) by {
            assert(is_address(k));
            let ip = choose|ip: IpAddr| #[trigger] ip.key() == k;
            assert(ips.contains_key(ip.key()));
            let i = choose|i: int| 0 <= i < rows.len() && (#[trigger] rows[i]).ip == Some(ip);
            assert(keys[i] == k);
        }
        assert forall|k: IpKey| keys.contains(k) implies ips.contains_key(k) by {
            let i = choose|i: int| 0 <= i < keys.len() && keys[i] == k;
            assert(rows[i].ip is Some);
        }
    }
    keys.unique_seq_to_set();
    lemma_all_usable(rows);
}

// ---------- Laws ----------

/// What is counted of a source's connections to a domain.
spec fn conns_of(view: ProxyView, key: (Seq<char>, IpKey)) -> Option<(u64, nat)> {
    match view.conns.get(key) {
        Some(c) => Some((c.0, total(c))),
        None => None,
    }
}

/// The connection limit, over a history of decisions: as long as time does not
/// run backwards, of the attempts of a source to connect to a domain in any one
/// second as many are admitted as there are, up to the limit. What happens
/// between the decisions, to the standing of the source or to anything else,
/// makes no difference.
pub proof fn logins_keep_the_limit(
    history: Seq<window::Asked<(Seq<char>, IpKey)>>,
    before: Seq<ProxyView>,
    after: Seq<ProxyView>,
    key: (Seq<char>, IpKey),
    limit: usize,
    second: u64,
)
    requires
        limit > 0,
        before.len() == history.len(),
        after.len() == history.len(),
        window::is_steady(history, key, limit),
        forall|i: int|
            0 <= i < history.len() ==> ((#[trigger] history[i]).admitted, after[i]) == conn_limit_step(
                before[i],
                history[i].key.0,
                history[i].key.1,
                history[i].limit,
                history[i].now,
            ),
        forall|i: int| 0 < i < history.len() ==> (#[trigger] before[i]).conns == after[i - 1].conns,
        history.len() > 0 ==> (before[0].conns.get(key) matches Some(c) ==> c.0 < history[0].now),
    ensures
        window::asked_in(history, key, second) <= limit ==> window::granted_in(history, key, second)
            == window::asked_in(history, key, second),
        window::asked_in(history, key, second) > limit ==> window::granted_in(history, key, second)
            == limit,
{
    let b = before.map_values(|v: ProxyView| conns_of(v, key));
    let a = after.map_values(|v: ProxyView| conns_of(v, key));
    assert(window::counts_by_second(history, key, limit, b, a)) by {
        assert forall|i: int| 0 < i < history.len() implies #[trigger] b[i] == a[i - 1] by {
            assert(before[i].conns == after[i - 1].conns);
        }
        assert forall|i: int| 0 <= i < history.len() && history[i].key != key implies #[trigger] b[i]
            == a[i] by {
            assert((history[i].admitted, after[i]) == conn_limit_step(
                before[i],
                history[i].key.0,
                history[i].key.1,
                history[i].limit,
                history[i].now,
            ));
        }
    }
    window::counting_by_second_keeps_the_limit(history, key, limit, b, a, second);
}

/// What is counted of a source's pings to a domain.
spec fn pings_of(view: ProxyView, key: (Seq<char>, IpKey)) -> Option<(u64, nat)> {
    match view.pings.get(key) {
        Some(c) => Some((c.0, c.1 as nat)),
        None => None,
    }
}

/// The ping limit, over a history of decisions: as long as time does not run
/// backwards, of the pings of a source to a domain in any one second as many are
/// answered as there are, up to the limit.
pub proof fn pings_keep_the_limit(
    history: Seq<window::Asked<(Seq<char>, IpKey)>>,
    before: Seq<ProxyView>,
    after: Seq<ProxyView>,
    key: (Seq<char>, IpKey),
    limit: usize,
    second: u64,
)
    requires
        limit > 0,
        before.len() == history.len(),
        after.len() == history.len(),
        window::is_steady(history, key, limit),
        forall|i: int|
            0 <= i < history.len() ==> ((#[trigger] history[i]).admitted, after[i]) == ping_limit_step(
                before[i],
                history[i].key.0,
                history[i].key.1,
                history[i].limit,
                history[i].now,
            ),
        forall|i: int| 0 < i < history.len() ==> (#[trigger] before[i]).pings == after[i - 1].pings,
        history.len() > 0 ==> (before[0].pings.get(key) matches Some(c) ==> c.0 < history[0].now),
    ensures
        window::asked_in(history, key, second) <= limit ==> window::granted_in(history, key, second)
            == window::asked_in(history, key, second),
        window::asked_in(history, key, second) > limit ==> window::granted_in(history, key, second)
            == limit,
{
    let b = before.map_values(|v: ProxyView| pings_of(v, key));
    let a = after.map_values(|v: ProxyView| pings_of(v, key));
    assert(window::counts_by_second(history, key, limit, b, a)) by {
        assert forall|i: int| 0 < i < history.len() implies #[trigger] b[i] == a[i - 1] by {
            assert(before[i].pings == after[i - 1].pings);
        }
        assert forall|i: int| 0 <= i < history.len() && history[i].key != key implies #[trigger] b[i]
            == a[i] by {
            assert((history[i].admitted, after[i]) == ping_limit_step(
                before[i],
                history[i].key.0,
                history[i].key.1,
                history[i].limit,
                history[i].now,
            ));
        }
    }
    window::counting_by_second_keeps_the_limit(history, key, limit, b, a, second);
}

/// A limit of zero is none: every ping and every connection passes, and nothing
/// is counted.
pub proof fn zero_limits_nothing(view: ProxyView, domain: Seq<char>, ip: IpKey, now: u64)
    ensures
        ping_limit_step(view, domain, ip, 0, now) == (true, view),
        conn_limit_step(view, domain, ip, 0, now) == (true, view),
{
    assert(ProxyView { pings: view.pings, ..view } == view);
}

/// A decision about a connection, in so many words: it is admitted while the
/// connections of this second, of whatever standing, are below the limit. One
/// more is then counted under its standing, and nothing else changes.
pub proof fn one_more_connection(
    view: ProxyView,
    domain: Seq<char>,
    ip: IpKey,
    limit: usize,
    now: u64,
)
    requires
        limit > 0,
    ensures
        ({
            let key = (domain, ip);
            let (admitted, after) = conn_limit_step(view, domain, ip, limit, now);
            let had = match view.conns.get(key) {
                Some(c) => if c.0 == now {
                    (c.1 as nat, c.2 as nat, c.3 as nat, c.4 as nat)
                } else {
                    (0nat, 0nat, 0nat, 0nat)
                },
                None => (0nat, 0nat, 0nat, 0nat),
            };
            let standing = match view.ips.get(ip) {
                Some(info) => info.status as nat,
                None => 1nat,
            };
            &&& admitted <==> had.0 + had.1 + had.2 + had.3 < limit
            &&& after.conns.get(key) matches Some(c) && c.0 == now && c.4 == had.3 + (if admitted
                && standing == 4 {
                1nat
            } else {
                0
            }) && c.3 == had.2 + (if admitted && standing == 3 {
                1nat
            } else {
                0
            }) && c.2 == had.1 + (if admitted && standing == 2 {
                1nat
            } else {
                0
            }) && c.1 == had.0 + (if admitted && standing != 2 && standing != 3 && standing != 4 {
                1nat
            } else {
                0
            })
            &&& forall|other: (Seq<char>, IpKey)|
                other != key ==> #[trigger] after.conns.get(other) == view.conns.get(other)
            &&& after.ips == view.ips && after.pings == view.pings && after.active == view.active
        }),
{
}

/// A decision about a ping, in so many words: it is answered while the pings of
/// this second are below the limit. One more is then counted, and nothing else
/// changes.
pub proof fn one_more_ping(view: ProxyView, domain: Seq<char>, ip: IpKey, limit: usize, now: u64)
    requires
        limit > 0,
    ensures
        ({
            let key = (domain, ip);
            let (admitted, after) = ping_limit_step(view, domain, ip, limit, now);
            let had = match view.pings.get(key) {
                Some(c) => if c.0 == now {
                    c.1 as nat
                } else {
                    0nat
                },
                None => 0nat,
            };
            &&& admitted <==> had < limit
            &&& after.pings.get(key) matches Some(c) && c.0 == now && c.1 == had + (if admitted {
                1nat
            } else {
                0
            })
            &&& forall|other: (Seq<char>, IpKey)|
                other != key ==> #[trigger] after.pings.get(other) == view.pings.get(other)
            &&& after.ips == view.ips && after.conns == view.conns && after.active == view.active
        }),
{
}

/// Two minutes of play earn trust, and six the most of it, whatever the address
/// was before: every address with a connection of at least 120 seconds is listed
/// with a standing of at least 3, and with one of at least 360 seconds as 4 and
/// without an end.
pub proof fn playing_earns_trust(
    ips: Map<IpKey, IpInfo>,
    active: Map<SocketKey, u64>,
    now: u64,
    s: SocketKey,
)
    requires
        active.contains_key(s),
        now - active[s] >= 120_000_000_000,
    ensures
        promoted(ips, active, now).get(s.0) matches Some(info) && info.status >= 3 && (match ips.get(
            s.0,
        ) {
            Some(old) => old.status < 3 ==> info.expiry is None,
            None => info.expiry is None,
        }),
        now - active[s] >= 360_000_000_000 ==> promoted(ips, active, now).get(s.0) == Some(
            IpInfo { status: 4, expiry: None },
        ),
{
}

/// Nothing else earns trust: an address none of whose connections has lasted two
/// minutes keeps its standing, or its not having one; and one none of whose
/// connections has lasted six becomes no better than 3 by playing.
pub proof fn only_playing_earns_trust(
    ips: Map<IpKey, IpInfo>,
    active: Map<SocketKey, u64>,
    now: u64,
    ip: IpKey,
)
    ensures
        (forall|s: SocketKey| #[trigger]
            active.contains_key(s) && s.0 == ip ==> now - active[s] < 120_000_000_000) ==> promoted(
            ips,
            active,
            now,
        ).get(ip) == ips.get(ip),
        (forall|s: SocketKey| #[trigger]
            active.contains_key(s) && s.0 == ip ==> now - active[s] < 360_000_000_000) ==> (promoted(
            ips,
            active,
            now,
        ).get(ip) == ips.get(ip) || promoted(ips, active, now).get(ip) == Some(
            IpInfo { status: 3, expiry: None },
        )),
        ips.get(ip) matches Some(info) ==> (info.status >= 3 && (forall|s: SocketKey| #[trigger]
            active.contains_key(s) && s.0 == ip ==> now - active[s] < 360_000_000_000) ==> promoted(
            ips,
            active,
            now,
        ).get(ip) == Some(info)),
{
}

/// A block, in so many words: the address is listed as blocked until 300 seconds
/// later, whatever it was before, and nothing else changes.
pub proof fn blocking_an_address(view: ProxyView, ip: IpKey, other: IpKey, now: u64)
    requires
        now + 300 <= u64::MAX,
        other != ip,
    ensures
        with_block(view, ip, now).ips.get(ip) == Some(
            IpInfo { status: 0, expiry: Some((now + 300) as u64) },
        ),
        with_block(view, ip, now).ips.get(other) == view.ips.get(other),
        with_block(view, ip, now).pings == view.pings,
        with_block(view, ip, now).conns == view.conns,
        with_block(view, ip, now).active == view.active,
{
}

/// Who is blocked: an address that is listed with standing 0 and an end that has
/// not come. A block without an end does not hold.
pub proof fn who_is_blocked(entry: Option<IpInfo>, now: u64)
    ensures
        entry is None ==> !is_blocked(entry, now),
        entry matches Some(info) ==> (info.status != 0 ==> !is_blocked(entry, now)),
        entry matches Some(info) ==> (info.expiry is None ==> !is_blocked(entry, now)),
        entry matches Some(info) ==> (info.expiry matches Some(end) ==> (info.status == 0 ==> (
        is_blocked(entry, now) <==> now < end))),
{
}

/// Asking whether an address is blocked forgets a block of it that holds no
/// longer, and nothing else.
pub proof fn asking_forgets_spent_blocks(view: ProxyView, ip: IpKey, other: IpKey, now: u64)
    requires
        other != ip,
    ensures
        ({
            let after = without_spent_block(view, ip, now);
            &&& view.ips.get(ip) is None ==> after == view
            &&& view.ips.get(ip) matches Some(info) ==> (if info.status == 0 && (info.expiry matches Some(
                end,
            ) ==> end <= now) {
                after.ips.get(ip) is None
            } else {
                after == view
            })
            &&& after.ips.get(other) == view.ips.get(other)
            &&& after.pings == view.pings && after.conns == view.conns && after.active
                == view.active
        }),
{
}

/// What a purge leaves: an address is still listed, as it was, unless it is
/// listed as blocked without an end that is yet to come.
pub proof fn what_a_purge_leaves(ips: Map<IpKey, IpInfo>, key: IpKey, now: u64)
    ensures
        ips.get(key) is None ==> tables::purged(ips, now).get(key) is None,
        ips.get(key) matches Some(info) ==> (info.status != 0 ==> tables::purged(ips, now).get(key)
            == Some(info)),
        ips.get(key) matches Some(info) ==> (info.status == 0 ==> (match info.expiry {
            Some(end) => if now < end {
                tables::purged(ips, now).get(key) == Some(info)
            } else {
                tables::purged(ips, now).get(key) is None
            },
            None => tables::purged(ips, now).get(key) is None,
        })),
{
}

/// What a ping does: an address that is not listed, or is listed as regular, is
/// listed as one that has pinged, without an end; any other stays as it is, and
/// so does everything else.
pub proof fn what_a_ping_does(view: ProxyView, ip: IpKey, other: IpKey)
    requires
        other != ip,
    ensures
        view.ips.get(ip) is None ==> with_ping(view, ip).ips.get(ip) == Some(
            IpInfo { status: 2, expiry: None },
        ),
        view.ips.get(ip) matches Some(info) ==> (info.status == 1 ==> with_ping(view, ip).ips.get(ip)
            == Some(IpInfo { status: 2, expiry: None })),
        view.ips.get(ip) matches Some(info) ==> (info.status != 1 ==> with_ping(view, ip).ips.get(ip)
            == Some(info)),
        with_ping(view, ip).ips.get(other) == view.ips.get(other),
        with_ping(view, ip).pings == view.pings,
        with_ping(view, ip).conns == view.conns,
        with_ping(view, ip).active == view.active,
{
}

/// What pruning leaves: a counter stays, as it is, in its own second and the one
/// after it, and goes after that.
pub proof fn what_pruning_leaves(
    pings: Map<(Seq<char>, IpKey), (u64, usize)>,
    conns: Map<(Seq<char>, IpKey), ConnCount>,
    key: (Seq<char>, IpKey),
    now: u64,
)
    ensures
        pings.get(key) is None ==> tables::fresh_windows(pings, now).get(key) is None,
        pings.get(key) matches Some(c) ==> tables::fresh_windows(pings, now).get(key) == (if now
            <= c.0 + 1 {
            Some(c)
        } else {
            None
        }),
        conns.get(key) is None ==> tables::fresh_conns(conns, now).get(key) is None,
        conns.get(key) matches Some(c) ==> tables::fresh_conns(conns, now).get(key) == (if now <= c.0
            + 1 {
            Some(c)
        } else {
            None
        }),
{
}

/// What is stored of an address: its standing and the end of its block as they
/// are, the end as a signed number, which is negative from 2 to the power of 63 on.
pub proof fn what_is_stored(rows: Seq<IpRow>, ips: Map<IpKey, IpInfo>, ip: IpAddr)
    requires
        stores(rows, ips),
    ensures
        (exists|i: int| 0 <= i < rows.len() && (#[trigger] rows[i]).ip == Some(ip))
            <==> ips.contains_key(ip.key()),
        forall|i: int|
            0 <= i < rows.len() && (#[trigger] rows[i]).ip == Some(ip) ==> rows[i].status
                == ips[ip.key()].status && (rows[i].expiry is Some <==> ips[ip.key()].expiry is Some),
        forall|i: int|
            0 <= i < rows.len() && (#[trigger] rows[i]).ip == Some(ip) ==> (
            ips[ip.key()].expiry matches Some(end) ==> (rows[i].expiry matches Some(e) && e == (if end
                <= i64::MAX {
                end as int
            } else {
                end - 0x1_0000_0000_0000_0000
            }))),
{
    assert forall|i: int| 0 <= i < rows.len() && (#[trigger] rows[i]).ip == Some(ip) implies {
        &&& rows[i].status == ips[ip.key()].status
        &&& rows[i].expiry is Some <==> ips[ip.key()].expiry is Some
    } by {
        let s = ips[ip.key()].status;
        assert(s as i64 == s);
    }
    assert forall|i: int| 0 <= i < rows.len() && (#[trigger] rows[i]).ip == Some(ip) implies (
    ips[ip.key()].expiry matches Some(end) ==> (rows[i].expiry matches Some(e) && e == (if end
        <= i64::MAX {
        end as int
    } else {
        end - 0x1_0000_0000_0000_0000
    }))) by {
        if let Some(end) = ips[ip.key()].expiry {
            assert(end > i64::MAX ==> end as i64 == end - 0x1_0000_0000_0000_0000) by (bit_vector);
        }
    }
}

/// What is loaded of a row: its standing and its end, as 8 and as 64 bits can
/// hold them. Of two rows of one address the
/// later counts, and a row without an address counts nothing.
pub proof fn what_is_loaded(ips: Map<IpKey, IpInfo>, rows: Seq<IpRow>, row: IpRow, other: IpKey)
    ensures
        row.ip is None ==> with_rows(ips, rows.push(row)) == with_rows(ips, rows)
            && usable_rows(rows.push(row)) == usable_rows(rows),
        row.ip matches Some(ip) ==> usable_rows(rows.push(row)) == usable_rows(rows) + 1,
        row.ip matches Some(ip) ==> (with_rows(ips, rows.push(row)).get(ip.key()) matches Some(info)
            && info.status == row.status as int % 256 && (row.expiry is Some <==> info.expiry is Some)
            && (row.expiry matches Some(end) ==> (info.expiry matches Some(until) && until == end as int
            % 0x1_0000_0000_0000_0000))),
        row.ip matches Some(ip) ==> (other != ip.key() ==> with_rows(ips, rows.push(row)).get(other)
            == with_rows(ips, rows).get(other)),
        with_rows(ips, Seq::empty()) == ips,
        usable_rows(Seq::empty()) == 0,
{
    assert(rows.push(row).drop_last() == rows);
    lemma_low_bits(row.status);
    if let Some(end) = row.expiry {
        lemma_same_bits(end);
    }
}

proof fn lemma_low_bits(status: i64)
    ensures
        status as u8 == status as int % 256,
{
    let bits = status as u64;
    assert(bits as u8 == bits % 256) by (bit_vector);
    assert(status as u8 == (status as u64) as u8) by (bit_vector);
    lemma_same_bits(status);
    vstd::arithmetic::div_mod::lemma_mod_mod(status as int, 256, 0x100_0000_0000_0000);
}

proof fn lemma_same_bits(end: i64)
    ensures
        end as u64 == end as int % 0x1_0000_0000_0000_0000,
{
    assert(end >= 0 ==> end as u64 == end) by (bit_vector);
    assert(end < 0 ==> end as u64 == end + 0x1_0000_0000_0000_0000) by (bit_vector);
}

/// A connection is remembered from when it begins, with that time, until it ends;
/// others, and everything else, stay.
pub proof fn connections_are_remembered_until_they_end(
    view: ProxyView,
    socket: SocketKey,
    other: SocketKey,
    now: u64,
)
    requires
        other != socket,
    ensures
        with_connection(view, socket, now).active.get(socket) == Some(now),
        with_connection(view, socket, now).active.get(other) == view.active.get(other),
        without_connection(view, socket).active.get(socket) is None,
        without_connection(view, socket).active.get(other) == view.active.get(other),
        with_connection(view, socket, now).ips == view.ips,
        with_connection(view, socket, now).pings == view.pings,
        with_connection(view, socket, now).conns == view.conns,
        without_connection(view, socket).ips == view.ips,
        without_connection(view, socket).pings == view.pings,
        without_connection(view, socket).conns == view.conns,
        view.active.get(socket) is None ==> without_connection(
            with_connection(view, socket, now),
            socket,
        ) == view,
{
    if view.active.get(socket) is None {
        assert(view.active.insert(socket, now).remove(socket) =~= view.active);
    }
}

/// What a second brings: whoever has a connection of at least 120 seconds is
/// listed with at least 3 and of at least 360 with 4, counters older than the
/// second before are gone, and connections stay.
pub proof fn what_a_second_brings(
    view: ProxyView,
    now_secs: u64,
    now_nanos: u64,
    s: SocketKey,
    key: (Seq<char>, IpKey),
)
    ensures
        ({
            let after = ticked(view, now_secs, now_nanos);
            &&& view.active.contains_key(s) && now_nanos - view.active[s] >= 120_000_000_000 ==> (
            after.ips.get(s.0) matches Some(info) && info.status >= 3)
            &&& view.active.contains_key(s) && now_nanos - view.active[s] >= 360_000_000_000 ==> (
            after.ips.get(s.0) matches Some(info) && info.status == 4)
            &&& view.pings.get(key) matches Some(c) ==> after.pings.get(key) == (if now_secs <= c.0
                + 1 {
                Some(c)
            } else {
                None
            })
            &&& view.conns.get(key) matches Some(c) ==> after.conns.get(key) == (if now_secs <= c.0
                + 1 {
                Some(c)
            } else {
                None
            })
            &&& after.active == view.active
        }),
{
}

} // verus!
