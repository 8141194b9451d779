//! Forwarding of an established connection, packet by packet.

use vstd::prelude::*;
use vstd::string::*;

use dashmap::DashMap;

use crate::addr::{IpAddr, SocketAddr};
use crate::config_loader::RedirectionConfig;
use crate::proxy;
use crate::proxy::{block_ip, finish_connection, ProxyState, ProxyView, BLOCK_SECS};
use crate::tables;
use crate::tables::{window_entry, window_insert, window_map, window_retain, IpKey, SourceKey};
use crate::window;
use crate::window::count_event;

verus! {

/// Packets per second by domain and source.
pub struct PacketCounts {
    map: DashMap<SourceKey, (u64, usize)>,
}

impl View for PacketCounts {
    type V = Map<(Seq<char>, IpKey), (u64, usize)>;

    closed spec fn view(&self) -> Map<(Seq<char>, IpKey), (u64, usize)> {
        tables::window_entries(self.map)
    }
}

impl PacketCounts {
    /// Counters that have counted nothing.
    pub fn new() -> (r: PacketCounts)
        ensures
            r@ == Map::<(Seq<char>, IpKey), (u64, usize)>::empty(),
    {
        PacketCounts { map: window_map() }
    }
}

/// Whether a source may send one more packet to a domain at second `now`, and
/// the counters afterwards. Without a limit nothing is counted.
pub open spec fn packet_step(
    counts: Map<(Seq<char>, IpKey), (u64, usize)>,
    key: (Seq<char>, IpKey),
    limit: usize,
    now: u64,
) -> (bool, Map<(Seq<char>, IpKey), (u64, usize)>) {
    window::keyed_step(counts, key, now, window::zero_is_none(limit))
}

/// Whether a domain's packet limit lets this packet through.
pub fn check_packet_limit(
    counts: &mut PacketCounts,
    domain: &str,
    src_ip: &IpAddr,
    cfg: &RedirectionConfig,
    now: u64,
) -> (r: bool)
    ensures
        (r, final(counts)@) == packet_step(
            old(counts)@,
            (domain@, src_ip.key()),
            cfg.max_packet_per_second,
            now,
        ),
{
    let limit = cfg.max_packet_per_second;
    if limit == 0 {
        return true;
    }
    let ip = src_ip.table_key();
    let entry = window_entry(&mut counts.map, (domain.to_owned(), ip), (now, 0));
    let (allowed, updated) = count_event(entry, now, limit);
    window_insert(&mut counts.map, (domain.to_owned(), ip), updated);
    proof {
        let key = (domain@, src_ip.key());
        let step = window::window_step(old(counts)@.get(key), now, limit);
        assert(counts@ =~= old(counts)@.insert(key, step.1));
    }
    allowed
}

/// Forgets the counters of seconds before the previous one.
pub fn prune_packet_counts(counts: &mut PacketCounts, now: u64)
    ensures
        final(counts)@ == tables::fresh_windows(old(counts)@, now),
{
    window_retain(&mut counts.map, now);
}

/// What happened on the side that is read from, or on the other one.
#[derive(Clone, Copy, Debug, PartialEq, Eq, Structural)]
pub enum ForwardEvent {
    /// So many bytes were read; none at all means the end.
    Read(usize),
    /// Reading failed.
    ReadFailed,
    /// Writing what was read failed.
    WriteFailed,
}

/// What to do next.
#[derive(Debug)]
pub enum ForwardAction {
    /// Write what was read and go on.
    Forward,
    /// Shut the other side down.
    Stop,
    /// Shut the other side down and report why.
    Kick(String),
}

/// One direction of a connection.
pub struct Direction {
    /// The domain that the client asked for.
    pub domain: String,
    pub cfg: RedirectionConfig,
    /// The client.
    pub src: SocketAddr,
    /// Whether this is the direction from the client to the server.
    pub client_to_server: bool,
}

/// The report of a source that sends too much.
pub open spec fn packet_flood_text(domain: Seq<char>, ip: Seq<char>) -> Seq<char> {
    "Too many packets to domain '"@ + domain + "' from IP '"@ + ip
        + "' mitigating potential attack, blocking ip for 300 secs"@
}

/// Whether `event` brings a packet that counts against the packet limit.
pub open spec fn is_counted(dir: Direction, event: ForwardEvent) -> bool {
    dir.client_to_server && (event matches ForwardEvent::Read(n) && n > 0)
}

/// Whether `r`, `after` and `counts_after` are what comes of an event in the
/// state `before` with the counters `counts`.
pub open spec fn forwarded(
    before: ProxyView,
    counts: Map<(Seq<char>, IpKey), (u64, usize)>,
    dir: Direction,
    event: ForwardEvent,
    ip_text: Seq<char>,
    now: u64,
    r: ForwardAction,
    after: ProxyView,
    counts_after: Map<(Seq<char>, IpKey), (u64, usize)>,
) -> bool {
    let ended = ProxyView { active: before.active.remove(dir.src.key()), ..before };
    let step = packet_step(
        counts,
        (dir.domain@, dir.src.ip.key()),
        dir.cfg.max_packet_per_second,
        now,
    );
    if is_counted(dir, event) {
        &&& counts_after == step.1
        &&& if step.0 {
            r is Forward && after == before
        } else {
            &&& (r matches ForwardAction::Kick(why) && why@ == packet_flood_text(
                dir.domain@,
                ip_text,
            ))
            &&& after == (ProxyView {
                ips: before.ips.insert(dir.src.ip.key(), proxy::blocked_from(now)),
                ..ended
            })
        }
    } else {
        &&& counts_after == counts
        &&& if (event matches ForwardEvent::Read(n) && n > 0) {
            r is Forward && after == before
        } else {
            r is Stop && after == ended
        }
    }
}

/// One step of the forwarding loop. What the client sends is counted; a client
/// that sends too much is blocked. Whatever ends the loop also ends the
/// connection. `ip_text` is the client's address in words.
pub fn forward_step(
    state: &mut ProxyState,
    counts: &mut PacketCounts,
    dir: &Direction,
    event: ForwardEvent,
    ip_text: &str,
    now: u64,
) -> (r: ForwardAction)
    requires
        now + BLOCK_SECS <= u64::MAX,
    ensures
        forwarded(
            old(state)@,
            old(counts)@,
            *dir,
            event,
            ip_text@,
            now,
            r,
            final(state)@,
            final(counts)@,
        ),
{
    match event {
        ForwardEvent::Read(n) => {
            if n == 0 {
                finish_connection(state, &dir.src);
                return ForwardAction::Stop;
            }
            if dir.client_to_server && !check_packet_limit(
                counts,
                dir.domain.as_str(),
                &dir.src.ip,
                &dir.cfg,
                now,
            ) {
                block_ip(state, &dir.src.ip, now);
                finish_connection(state, &dir.src);
                let mut why = "Too many packets to domain '".to_owned();
                why.append(dir.domain.as_str());
                why.append("' from IP '");
                why.append(ip_text);
                why.append("' mitigating potential attack, blocking ip for 300 secs");
                return ForwardAction::Kick(why);
            }
            ForwardAction::Forward
        },
        ForwardEvent::ReadFailed | ForwardEvent::WriteFailed => {
            finish_connection(state, &dir.src);
            ForwardAction::Stop
        },
    }
}

// ---------- Laws ----------

/// A step of the forwarding loop that was taken, with what was there before and
/// after it.
pub struct Taken {
    pub dir: Direction,
    pub event: ForwardEvent,
    pub ip_text: Seq<char>,
    pub now: u64,
    pub r: ForwardAction,
    pub before: ProxyView,
    pub counts: Map<(Seq<char>, IpKey), (u64, usize)>,
    pub after: ProxyView,
    pub counts_after: Map<(Seq<char>, IpKey), (u64, usize)>,
}

/// Whether the step brought something from a client of this address, for this
/// domain, in this second.
pub open spec fn brought(taken: Taken, domain: Seq<char>, ip: IpKey, second: u64) -> bool {
    &&& taken.dir.client_to_server
    &&& taken.event matches ForwardEvent::Read(n) && n > 0
    &&& taken.dir.domain@ == domain
    &&& taken.dir.src.ip.key() == ip
    &&& taken.now == second
}

/// How many of the steps brought something.
pub open spec fn brought_in(steps: Seq<Taken>, domain: Seq<char>, ip: IpKey, second: u64) -> nat
    decreases steps.len(),
{
    if steps.len() == 0 {
        0
    } else {
        brought_in(steps.drop_last(), domain, ip, second) + if brought(
            steps.last(),
            domain,
            ip,
            second,
        ) {
            1nat
        } else {
            0
        }
    }
}

/// How many of the steps brought something that was forwarded.
pub open spec fn forwarded_in(steps: Seq<Taken>, domain: Seq<char>, ip: IpKey, second: u64) -> nat
    decreases steps.len(),
{
    if steps.len() == 0 {
        0
    } else {
        forwarded_in(steps.drop_last(), domain, ip, second) + if brought(
            steps.last(),
            domain,
            ip,
            second,
        ) && steps.last().r is Forward {
            1nat
        } else {
            0
        }
    }
}

spec fn question(taken: Taken) -> window::Asked<Option<(Seq<char>, IpKey)>> {
    window::Asked {
        key: if taken.dir.client_to_server && (taken.event matches ForwardEvent::Read(n) && n > 0) {
            Some((taken.dir.domain@, taken.dir.src.ip.key()))
        } else {
            None
        },
        limit: taken.dir.cfg.max_packet_per_second,
        now: taken.now,
        admitted: taken.r is Forward,
    }
}

proof fn lemma_questions(steps: Seq<Taken>, domain: Seq<char>, ip: IpKey, second: u64)
    ensures
        window::asked_in(steps.map_values(|t: Taken| question(t)), Some((domain, ip)), second)
            == brought_in(steps, domain, ip, second),
        window::granted_in(steps.map_values(|t: Taken| question(t)), Some((domain, ip)), second)
            == forwarded_in(steps, domain, ip, second),
    decreases steps.len(),
{
    let questions = steps.map_values(|t: Taken| question(t));
    if steps.len() > 0 {
        lemma_questions(steps.drop_last(), domain, ip, second);
        assert(questions.drop_last() == steps.drop_last().map_values(|t: Taken| question(t)));
        assert(questions.last() == question(steps.last()));
    }
}

spec fn packets_of(
    counts: Map<(Seq<char>, IpKey), (u64, usize)>,
    key: (Seq<char>, IpKey),
) -> Option<(u64, nat)> {
    match counts.get(key) {
        Some(c) => Some((c.0, c.1 as nat)),
        None => None,
    }
}

/// The packet limit, over a history of steps of any number of connections: as
/// long as time does not run backwards, of what the clients of an address send
/// to a domain in any one second, however much it is at a time, the first reads
/// up to the limit are forwarded and no others.
pub proof fn packets_keep_the_limit(
    steps: Seq<Taken>,
    domain: Seq<char>,
    ip: IpKey,
    limit: usize,
    second: u64,
)
    requires
        limit > 0,
        forall|i: int|
            0 <= i < steps.len() ==> #[trigger] forwarded(
                steps[i].before,
                steps[i].counts,
                steps[i].dir,
                steps[i].event,
                steps[i].ip_text,
                steps[i].now,
                steps[i].r,
                steps[i].after,
                steps[i].counts_after,
            ),
        forall|i: int|
            0 < i < steps.len() ==> (#[trigger] steps[i]).counts == steps[i - 1].counts_after,
        forall|i: int, j: int| 0 <= i <= j < steps.len() ==> (#[trigger] steps[i]).now <= (
        #[trigger] steps[j]).now,
        forall|i: int|
            0 <= i < steps.len() && (#[trigger] steps[i]).dir.domain@ == domain
                ==> steps[i].dir.cfg.max_packet_per_second == limit,
        steps.len() > 0 ==> (steps[0].counts.get((domain, ip)) matches Some(c) ==> c.0
            < steps[0].now),
    ensures
        brought_in(steps, domain, ip, second) <= limit ==> forwarded_in(steps, domain, ip, second)
            == brought_in(steps, domain, ip, second),
        brought_in(steps, domain, ip, second) > limit ==> forwarded_in(steps, domain, ip, second)
            == limit,
{
    let key = (domain, ip);
    let questions = steps.map_values(|t: Taken| question(t));
    let b = steps.map_values(|t: Taken| packets_of(t.counts, key));
    let a = steps.map_values(|t: Taken| packets_of(t.counts_after, key));
    assert(window::is_steady(questions, Some(key), limit)) by {
        assert forall|i: int, j: int| 0 <= i <= j < questions.len() implies (
        #[trigger] questions[i]).now <= (#[trigger] questions[j]).now by {
            assert(steps[i].now <= steps[j].now);
        }
        assert forall|i: int| 0 <= i < questions.len() && (#[trigger] questions[i]).key == Some(
            key,
        ) implies questions[i].limit == limit by {
            assert(steps[i].dir.domain@ == domain);
        }
    }
    assert(window::counts_by_second(questions, Some(key), limit, b, a)) by {
        assert forall|i: int| 0 < i < questions.len() implies #[trigger] b[i] == a[i - 1] by {
            assert(steps[i].counts == steps[i - 1].counts_after);
        }
        assert forall|i: int| 0 <= i < questions.len() && questions[i].key != Some(
            key,
        ) implies #[trigger] b[i] == a[i] by {
            assert(forwarded(
                steps[i].before,
                steps[i].counts,
                steps[i].dir,
                steps[i].event,
                steps[i].ip_text,
                steps[i].now,
                steps[i].r,
                steps[i].after,
                steps[i].counts_after,
            ));
        }
        assert forall|i: int| 0 <= i < questions.len() && (#[trigger] questions[i]).key == Some(
            key,
        ) implies {
            let have = match b[i] {
                Some(c) => if c.0 == questions[i].now {
                    c.1
                } else {
                    0nat
                },
                None => 0nat,
            };
            &&& questions[i].admitted == (have < limit)
            &&& a[i] == Some(
                (
                    questions[i].now,
                    if have < limit {
                        have + 1
                    } else {
                        have
                    },
                ),
            )
        } by {
            assert(steps[i].dir.domain@ == domain);
            assert(forwarded(
                steps[i].before,
                steps[i].counts,
                steps[i].dir,
                steps[i].event,
                steps[i].ip_text,
                steps[i].now,
                steps[i].r,
                steps[i].after,
                steps[i].counts_after,
            ));
        }
    }
    window::counting_by_second_keeps_the_limit(questions, Some(key), limit, b, a, second);
    lemma_questions(steps, domain, ip, second);
}

/// What is read is forwarded or the client is kicked: with bytes, from the
/// server always the first, from the client one or the other; without bytes, or
/// after a failure, the connection ends. A kicked client is blocked for 300
/// seconds and told of by domain and address, and only then are the standings
/// changed. Whatever ends the loop forgets the connection and no other.
pub proof fn every_step_ends_in_one_way(taken: Taken)
    requires
        taken.now + 300 <= u64::MAX,
        forwarded(
            taken.before,
            taken.counts,
            taken.dir,
            taken.event,
            taken.ip_text,
            taken.now,
            taken.r,
            taken.after,
            taken.counts_after,
        ),
    ensures
        ({
            let read = taken.event matches ForwardEvent::Read(n) && n > 0;
            let own = taken.dir.src.ip.key();
            &&& !read ==> taken.r is Stop
            &&& read && !taken.dir.client_to_server ==> taken.r is Forward
            &&& read && taken.dir.client_to_server ==> taken.r is Forward || taken.r is Kick
            &&& taken.dir.cfg.max_packet_per_second == 0 && read ==> taken.r is Forward
            &&& taken.r is Forward ==> taken.after == taken.before
            &&& taken.r is Kick ==> taken.after.ips.get(own) == Some(
                proxy::IpInfo { status: 0, expiry: Some((taken.now + 300) as u64) },
            )
            &&& !(taken.r is Kick) ==> taken.after.ips == taken.before.ips
            &&& !(taken.r is Forward) ==> taken.after.active == taken.before.active.remove(
                taken.dir.src.key(),
            )
            &&& forall|k: IpKey|
                k != own ==> #[trigger] taken.after.ips.get(k) == taken.before.ips.get(k)
            &&& taken.after.pings == taken.before.pings && taken.after.conns == taken.before.conns
            &&& !(read && taken.dir.client_to_server) ==> taken.counts_after == taken.counts
        }),
        taken.r matches ForwardAction::Kick(why) ==> why@ == "Too many packets to domain '"@
            + taken.dir.domain@ + "' from IP '"@ + taken.ip_text
            + "' mitigating potential attack, blocking ip for 300 secs"@,
{
}

} // verus!
