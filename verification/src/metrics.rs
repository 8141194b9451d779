//! Counters that tell how the proxy is doing, and the endpoint that shows them.

use vstd::prelude::*;
use vstd::string::*;

use crate::addr::SocketAddr;

verus! {

// ---------- Counters ----------
//
// The types of the `prometheus` crate are generic over traits of that crate.
// Each is therefore held in a struct whose inside stays hidden, and is spoken of
// by its name and the numbers that it shows.

/// A number that goes up: a `prometheus::IntCounter`.
#[verifier::external_body]
pub struct Counter {
    inner: prometheus::IntCounter,
}

/// Numbers that go up, one for each value of a label: a
/// `prometheus::IntCounterVec` with exactly one label.
#[verifier::external_body]
pub struct LabelledCounter {
    inner: prometheus::IntCounterVec,
}

/// A number that goes up and down: a `prometheus::IntGauge`.
#[verifier::external_body]
pub struct Gauge {
    inner: prometheus::IntGauge,
}

/// The number that a counter shows.
pub uninterp spec fn counter_value(counter: Counter) -> u64;

/// The numbers that a labelled counter shows, by the slots of their labels.
pub uninterp spec fn labelled_values(counter: LabelledCounter) -> Map<u64, u64>;

/// The number that a gauge shows.
pub uninterp spec fn gauge_value(gauge: Gauge) -> i64;

/// The name that a counter was made with.
pub uninterp spec fn counter_name(counter: Counter) -> Seq<char>;

/// The name that a labelled counter was made with.
pub uninterp spec fn labelled_name(counter: LabelledCounter) -> Seq<char>;

/// The name that a gauge was made with.
pub uninterp spec fn gauge_name(gauge: Gauge) -> Seq<char>;

/// The help text that a counter was made with.
pub uninterp spec fn counter_help(counter: Counter) -> Seq<char>;

/// The help text that a labelled counter was made with.
pub uninterp spec fn labelled_help(counter: LabelledCounter) -> Seq<char>;

/// The help text that a gauge was made with.
pub uninterp spec fn gauge_help(gauge: Gauge) -> Seq<char>;

/// The name of the label that a labelled counter was made with.
pub uninterp spec fn labelled_label(counter: LabelledCounter) -> Seq<char>;

/// The 64-bit FNV-1a hash of bytes: from the offset basis on, each byte is mixed
/// in and the whole is multiplied by the prime.
pub open spec fn fnv1a(bytes: Seq<u8>) -> u64
    decreases bytes.len(),
{
    if bytes.len() == 0 {
        0xcbf2_9ce4_8422_2325
    } else {
        let mixed = fnv1a(bytes.drop_last()) ^ (bytes.last() as u64);
        ((mixed * 0x100_0000_01b3) % 0x1_0000_0000_0000_0000) as u64
    }
}

/// The slot in which the number of a label is kept: a hash of the label, so two
/// labels may share one.
pub open spec fn label_slot(label: Seq<char>) -> u64 {
    fnv1a(vstd::utf8::encode_utf8(label))
}

/// Whether a metric name may begin with this character.
pub open spec fn starts_name(c: char) -> bool {
    ('a' <= c && c <= 'z') || ('A' <= c && c <= 'Z') || c == '_' || c == ':'
}

/// Whether this is a metric name.
pub open spec fn is_metric_name(name: Seq<char>) -> bool {
    &&& name.len() > 0
    &&& starts_name(name[0])
    &&& forall|i: int|
        0 <= i < name.len() ==> starts_name(#[trigger] name[i]) || ('0' <= name[i] && name[i]
            <= '9')
}

/// `IntCounter::new` makes a counter of this name and help text at zero. It fails
/// only without a help text or on a name that is no metric name.
#[verifier::external_body]
fn counter_new(name: &str, help: &str) -> (r: Counter)
    requires
        is_metric_name(name@),
        help@.len() > 0,
    ensures
        counter_value(r) == 0,
        counter_name(r) == name@,
        counter_help(r) == help@,
{
    Counter { inner: prometheus::IntCounter::new(name, help).unwrap() }
}

/// `GenericCounterVec::new` with one label makes a labelled counter of this name,
/// help text and label name that shows no numbers yet. It fails only without a help text, or on a name that is no
/// metric name, or on a label name that is none or holds a colon.
#[verifier::external_body]
fn labelled_new(name: &str, help: &str, label: &str) -> (r: LabelledCounter)
    requires
        is_metric_name(name@),
        is_metric_name(label@),
        !label@.contains(':'),
        help@.len() > 0,
    ensures
        (labelled_values(r) == Map::<u64, u64>::empty()),
        labelled_name(r) == name@,
        labelled_help(r) == help@,
        labelled_label(r) == label@,
{
    let opts = prometheus::Opts::new(name, help);
    LabelledCounter { inner: prometheus::IntCounterVec::new(opts, &[label]).unwrap() }
}

/// `IntGauge::new` makes a gauge of this name and help text at zero. It fails only
/// without a help text or on a name that is no metric name.
#[verifier::external_body]
fn gauge_new(name: &str, help: &str) -> (r: Gauge)
    requires
        is_metric_name(name@),
        help@.len() > 0,
    ensures
        gauge_value(r) == 0,
        gauge_name(r) == name@,
        gauge_help(r) == help@,
{
    Gauge { inner: prometheus::IntGauge::new(name, help).unwrap() }
}

/// A counter after `n` more: 64 bits, which wrap around.
pub open spec fn raised(value: u64, n: u64) -> u64 {
    ((value + n) % 0x1_0000_0000_0000_0000) as u64
}

/// Labelled numbers after `n` more in a slot. A slot without a number has the
/// number zero.
pub open spec fn raised_at(values: Map<u64, u64>, slot: u64, n: u64) -> Map<u64, u64> {
    let before = match values.get(slot) {
        Some(value) => value,
        None => 0u64,
    };
    values.insert(slot, raised(before, n))
}

/// A gauge one higher: 64 bits, which wrap around.
pub open spec fn one_up(value: i64) -> i64 {
    if value == i64::MAX {
        i64::MIN
    } else {
        (value + 1) as i64
    }
}

/// A gauge one lower: 64 bits, which wrap around.
pub open spec fn one_down(value: i64) -> i64 {
    if value == i64::MIN {
        i64::MAX
    } else {
        (value - 1) as i64
    }
}

/// `GenericCounter::inc` adds one to a counter.
#[verifier::external_body]
fn counter_inc(counter: &mut Counter)
    ensures
        counter_value(*final(counter)) == raised(counter_value(*old(counter)), 1),
        counter_name(*final(counter)) == counter_name(*old(counter)),
        counter_help(*final(counter)) == counter_help(*old(counter)),
{
    counter.inner.inc();
}

/// `MetricVec::with_label_values` finds the counter of a label, or makes one at
/// zero, and `GenericCounter::inc_by` adds to it. The counters are kept by the
/// FNV-1a hash of the label. The number of labels is the one it was made with.
#[verifier::external_body]
fn labelled_add(counter: &mut LabelledCounter, label: &str, n: u64)
    ensures
        labelled_values(*final(counter)) == raised_at(
            labelled_values(*old(counter)),
            label_slot(label@),
            n,
        ),
        labelled_name(*final(counter)) == labelled_name(*old(counter)),
        labelled_help(*final(counter)) == labelled_help(*old(counter)),
        labelled_label(*final(counter)) == labelled_label(*old(counter)),
{
    counter.inner.with_label_values(&[label]).inc_by(n);
}

/// `GenericGauge::inc` adds one to a gauge.
#[verifier::external_body]
fn gauge_inc(gauge: &mut Gauge)
    ensures
        gauge_value(*final(gauge)) == one_up(gauge_value(*old(gauge))),
        gauge_name(*final(gauge)) == gauge_name(*old(gauge)),
        gauge_help(*final(gauge)) == gauge_help(*old(gauge)),
{
    gauge.inner.inc();
}

/// `GenericGauge::dec` takes one from a gauge.
#[verifier::external_body]
fn gauge_dec(gauge: &mut Gauge)
    ensures
        gauge_value(*final(gauge)) == one_down(gauge_value(*old(gauge))),
        gauge_name(*final(gauge)) == gauge_name(*old(gauge)),
        gauge_help(*final(gauge)) == gauge_help(*old(gauge)),
{
    gauge.inner.dec();
}

/// What has become of an attempt to show a counter.
#[derive(Debug)]
pub struct Registration {
    /// The name of the counter.
    pub name: String,
    /// Whether it is shown from now on.
    pub shown: bool,
}

/// `prometheus::register` puts a counter among those that are shown, and
/// `Collector::desc` tells the name that it is shown under, which is the one it
/// was made with. Whether it can be put there depends on what else the process
/// has put there, so nothing is said of `shown`.
#[verifier::external_body]
fn counter_register(counter: &Counter) -> (r: Registration)
    ensures
        r.name@ == counter_name(*counter),
{
    Registration {
        name: prometheus::core::Collector::desc(&counter.inner)[0].fq_name.clone(),
        shown: prometheus::register(Box::new(counter.inner.clone())).is_ok(),
    }
}

/// `prometheus::register` and `Collector::desc` for a labelled counter.
#[verifier::external_body]
fn labelled_register(counter: &LabelledCounter) -> (r: Registration)
    ensures
        r.name@ == labelled_name(*counter),
{
    Registration {
        name: prometheus::core::Collector::desc(&counter.inner)[0].fq_name.clone(),
        shown: prometheus::register(Box::new(counter.inner.clone())).is_ok(),
    }
}

/// `prometheus::register` and `Collector::desc` for a gauge.
#[verifier::external_body]
fn gauge_register(gauge: &Gauge) -> (r: Registration)
    ensures
        r.name@ == gauge_name(*gauge),
{
    Registration {
        name: prometheus::core::Collector::desc(&gauge.inner)[0].fq_name.clone(),
        shown: prometheus::register(Box::new(gauge.inner.clone())).is_ok(),
    }
}

// ---------- Metrics ----------

/// All the numbers that the proxy shows.
pub struct MetricsView {
    /// Blocked actions by reason.
    pub block_events: Map<u64, u64>,
    /// Failed handshakes by reason.
    pub handshake_failures: Map<u64, u64>,
    /// Failed connections to servers by reason.
    pub connection_failures: Map<u64, u64>,
    pub connection_attempts: u64,
    pub connections_established: u64,
    pub connections_closed: u64,
    pub ping_requests: u64,
    pub active_connections: i64,
    /// Forwarded bytes by direction.
    pub bytes_transferred: Map<u64, u64>,
    pub ip_blocks: u64,
    /// The names of the counters, in the order of the numbers above.
    pub names: Seq<Seq<char>>,
    /// The help texts of the counters, in the same order.
    pub helps: Seq<Seq<char>>,
    /// The label names of the labelled counters, in the same order.
    pub labels: Seq<Seq<char>>,
}

/// All the counters of the proxy.
pub struct Metrics {
    block_events: LabelledCounter,
    handshake_failures: LabelledCounter,
    connection_failures: LabelledCounter,
    connection_attempts: Counter,
    connections_established: Counter,
    connections_closed: Counter,
    ping_requests: Counter,
    active_connections: Gauge,
    bytes_transferred: LabelledCounter,
    ip_blocks: Counter,
}

impl View for Metrics {
    type V = MetricsView;

    closed spec fn view(&self) -> MetricsView {
        MetricsView {
            block_events: labelled_values(self.block_events),
            handshake_failures: labelled_values(self.handshake_failures),
            connection_failures: labelled_values(self.connection_failures),
            connection_attempts: counter_value(self.connection_attempts),
            connections_established: counter_value(self.connections_established),
            connections_closed: counter_value(self.connections_closed),
            ping_requests: counter_value(self.ping_requests),
            active_connections: gauge_value(self.active_connections),
            bytes_transferred: labelled_values(self.bytes_transferred),
            ip_blocks: counter_value(self.ip_blocks),
            names: seq![
                labelled_name(self.block_events),
                labelled_name(self.handshake_failures),
                labelled_name(self.connection_failures),
                counter_name(self.connection_attempts),
                counter_name(self.connections_established),
                counter_name(self.connections_closed),
                counter_name(self.ping_requests),
                gauge_name(self.active_connections),
                labelled_name(self.bytes_transferred),
                counter_name(self.ip_blocks),
            ],
            helps: seq![
                labelled_help(self.block_events),
                labelled_help(self.handshake_failures),
                labelled_help(self.connection_failures),
                counter_help(self.connection_attempts),
                counter_help(self.connections_established),
                counter_help(self.connections_closed),
                counter_help(self.ping_requests),
                gauge_help(self.active_connections),
                labelled_help(self.bytes_transferred),
                counter_help(self.ip_blocks),
            ],
            labels: seq![
                labelled_label(self.block_events),
                labelled_label(self.handshake_failures),
                labelled_label(self.connection_failures),
                labelled_label(self.bytes_transferred),
            ],
        }
    }
}

/// The names of all the counters.
pub open spec fn metric_names() -> Seq<Seq<char>> {
    seq![
        "mineshield_proxy_block_events_total"@,
        "mineshield_proxy_handshake_failures_total"@,
        "mineshield_proxy_connection_failures_total"@,
        "mineshield_proxy_connection_attempts_total"@,
        "mineshield_proxy_connections_established_total"@,
        "mineshield_proxy_connections_closed_total"@,
        "mineshield_proxy_ping_requests_total"@,
        "mineshield_proxy_active_connections"@,
        "mineshield_proxy_bytes_transferred_total"@,
        "mineshield_proxy_ip_blocks_total"@,
    ]
}

/// The help texts of all the counters.
pub open spec fn metric_helps() -> Seq<Seq<char>> {
    seq![
        "Total number of times the proxy blocked an action due to safety limits."@,
        "Total number of handshake failures encountered by the proxy."@,
        "Total number of backend connection failures."@,
        "Total number of player login connection attempts handled by the proxy."@,
        "Total number of backend connections successfully established."@,
        "Total number of proxied connections that have been closed."@,
        "Total number of ping/status requests handled."@,
        "Current number of proxied connections actively being forwarded."@,
        "Total number of bytes forwarded through the proxy."@,
        "Total number of times the proxy has blocked an IP address."@,
    ]
}

/// The label names of the labelled counters.
pub open spec fn metric_labels() -> Seq<Seq<char>> {
    seq!["reason"@, "reason"@, "reason"@, "direction"@]
}

/// Metrics in which nothing has been counted.
pub open spec fn nothing_counted() -> MetricsView {
    MetricsView {
        block_events: Map::empty(),
        handshake_failures: Map::empty(),
        connection_failures: Map::empty(),
        connection_attempts: 0,
        connections_established: 0,
        connections_closed: 0,
        ping_requests: 0,
        active_connections: 0,
        bytes_transferred: Map::empty(),
        ip_blocks: 0,
        names: metric_names(),
        helps: metric_helps(),
        labels: metric_labels(),
    }
}

fn new_block_events() -> (r: LabelledCounter)
    ensures
        labelled_values(r) == Map::<u64, u64>::empty(),
        labelled_name(r) == "mineshield_proxy_block_events_total"@,
        labelled_help(r) == "Total number of times the proxy blocked an action due to safety limits."@,
        labelled_label(r) == "reason"@,
{
    proof {
        reveal_strlit("mineshield_proxy_block_events_total");
        reveal_strlit("Total number of times the proxy blocked an action due to safety limits.");
        reveal_strlit("reason");
    }
    labelled_new(
        "mineshield_proxy_block_events_total",
        "Total number of times the proxy blocked an action due to safety limits.",
        "reason",
    )
}

fn new_handshake_failures() -> (r: LabelledCounter)
    ensures
        labelled_values(r) == Map::<u64, u64>::empty(),
        labelled_name(r) == "mineshield_proxy_handshake_failures_total"@,
        labelled_help(r) == "Total number of handshake failures encountered by the proxy."@,
        labelled_label(r) == "reason"@,
{
    proof {
        reveal_strlit("mineshield_proxy_handshake_failures_total");
        reveal_strlit("Total number of handshake failures encountered by the proxy.");
        reveal_strlit("reason");
    }
    labelled_new(
        "mineshield_proxy_handshake_failures_total",
        "Total number of handshake failures encountered by the proxy.",
        "reason",
    )
}

fn new_connection_failures() -> (r: LabelledCounter)
    ensures
        labelled_values(r) == Map::<u64, u64>::empty(),
        labelled_name(r) == "mineshield_proxy_connection_failures_total"@,
        labelled_help(r) == "Total number of backend connection failures."@,
        labelled_label(r) == "reason"@,
{
    proof {
        reveal_strlit("mineshield_proxy_connection_failures_total");
        reveal_strlit("Total number of backend connection failures.");
        reveal_strlit("reason");
    }
    labelled_new(
        "mineshield_proxy_connection_failures_total",
        "Total number of backend connection failures.",
        "reason",
    )
}

fn new_connection_attempts() -> (r: Counter)
    ensures
        counter_value(r) == 0,
        counter_name(r) == "mineshield_proxy_connection_attempts_total"@,
        counter_help(r) == "Total number of player login connection attempts handled by the proxy."@,
{
    proof {
        reveal_strlit("mineshield_proxy_connection_attempts_total");
        reveal_strlit("Total number of player login connection attempts handled by the proxy.");
    }
    counter_new(
        "mineshield_proxy_connection_attempts_total",
        "Total number of player login connection attempts handled by the proxy.",
    )
}

fn new_connections_established() -> (r: Counter)
    ensures
        counter_value(r) == 0,
        counter_name(r) == "mineshield_proxy_connections_established_total"@,
        counter_help(r) == "Total number of backend connections successfully established."@,
{
    proof {
        reveal_strlit("mineshield_proxy_connections_established_total");
        reveal_strlit("Total number of backend connections successfully established.");
    }
    counter_new(
        "mineshield_proxy_connections_established_total",
        "Total number of backend connections successfully established.",
    )
}

fn new_connections_closed() -> (r: Counter)
    ensures
        counter_value(r) == 0,
        counter_name(r) == "mineshield_proxy_connections_closed_total"@,
        counter_help(r) == "Total number of proxied connections that have been closed."@,
{
    proof {
        reveal_strlit("mineshield_proxy_connections_closed_total");
        reveal_strlit("Total number of proxied connections that have been closed.");
    }
    counter_new(
        "mineshield_proxy_connections_closed_total",
        "Total number of proxied connections that have been closed.",
    )
}

fn new_ping_requests() -> (r: Counter)
    ensures
        counter_value(r) == 0,
        counter_name(r) == "mineshield_proxy_ping_requests_total"@,
        counter_help(r) == "Total number of ping/status requests handled."@,
{
    proof {
        reveal_strlit("mineshield_proxy_ping_requests_total");
        reveal_strlit("Total number of ping/status requests handled.");
    }
    counter_new(
        "mineshield_proxy_ping_requests_total",
        "Total number of ping/status requests handled.",
    )
}

fn new_active_connections() -> (r: Gauge)
    ensures
        gauge_value(r) == 0,
        gauge_name(r) == "mineshield_proxy_active_connections"@,
        gauge_help(r) == "Current number of proxied connections actively being forwarded."@,
{
    proof {
        reveal_strlit("mineshield_proxy_active_connections");
        reveal_strlit("Current number of proxied connections actively being forwarded.");
    }
    gauge_new(
        "mineshield_proxy_active_connections",
        "Current number of proxied connections actively being forwarded.",
    )
}

fn new_bytes_transferred() -> (r: LabelledCounter)
    ensures
        labelled_values(r) == Map::<u64, u64>::empty(),
        labelled_name(r) == "mineshield_proxy_bytes_transferred_total"@,
        labelled_help(r) == "Total number of bytes forwarded through the proxy."@,
        labelled_label(r) == "direction"@,
{
    proof {
        reveal_strlit("mineshield_proxy_bytes_transferred_total");
        reveal_strlit("Total number of bytes forwarded through the proxy.");
        reveal_strlit("direction");
    }
    labelled_new(
        "mineshield_proxy_bytes_transferred_total",
        "Total number of bytes forwarded through the proxy.",
        "direction",
    )
}

fn new_ip_blocks() -> (r: Counter)
    ensures
        counter_value(r) == 0,
        counter_name(r) == "mineshield_proxy_ip_blocks_total"@,
        counter_help(r) == "Total number of times the proxy has blocked an IP address."@,
{
    proof {
        reveal_strlit("mineshield_proxy_ip_blocks_total");
        reveal_strlit("Total number of times the proxy has blocked an IP address.");
    }
    counter_new(
        "mineshield_proxy_ip_blocks_total",
        "Total number of times the proxy has blocked an IP address.",
    )
}

impl Metrics {
    /// Counters that have counted nothing.
    pub fn new() -> (r: Metrics)
        ensures
            r@ == nothing_counted(),
    {
        Metrics {
            block_events: new_block_events(),
            handshake_failures: new_handshake_failures(),
            connection_failures: new_connection_failures(),
            connection_attempts: new_connection_attempts(),
            connections_established: new_connections_established(),
            connections_closed: new_connections_closed(),
            ping_requests: new_ping_requests(),
            active_connections: new_active_connections(),
            bytes_transferred: new_bytes_transferred(),
            ip_blocks: new_ip_blocks(),
        }
    }

    /// Puts all the counters among those that are shown, and tells of each by
    /// name whether it could be, which depends on what else is shown.
    pub fn register(&self) -> (r: Vec<Registration>)
        ensures
            registered_names(r@) == self@.names,
    {
        let mut r: Vec<Registration> = Vec::new();
        r.push(labelled_register(&self.block_events));
        r.push(labelled_register(&self.handshake_failures));
        r.push(labelled_register(&self.connection_failures));
        r.push(counter_register(&self.connection_attempts));
        r.push(counter_register(&self.connections_established));
        r.push(counter_register(&self.connections_closed));
        r.push(counter_register(&self.ping_requests));
        r.push(gauge_register(&self.active_connections));
        r.push(labelled_register(&self.bytes_transferred));
        r.push(counter_register(&self.ip_blocks));
        assert(registered_names(r@) =~= self@.names);
        r
    }
}

/// The names that registrations tell of.
pub open spec fn registered_names(registrations: Seq<Registration>) -> Seq<Seq<char>> {
    registrations.map_values(|r: Registration| r.name@)
}

/// Whether every one of these counters is shown.
pub fn all_shown(registrations: &Vec<Registration>) -> (r: bool)
    ensures
        r == (forall|i: int| 0 <= i < registrations@.len() ==> (#[trigger] registrations@[i]).shown),
{
    let mut i: usize = 0;
    while i < registrations.len()
        invariant
            i <= registrations@.len(),
            forall|j: int| 0 <= j < i ==> (#[trigger] registrations@[j]).shown,
        decreases registrations@.len() - i,
    {
        if !registrations[i].shown {
            return false;
        }
        i = i + 1;
    }
    true
}

/// Something that is counted.
pub enum Counted {
    /// A blocked action, by reason.
    Block(Seq<char>),
    /// A failed handshake, by reason.
    HandshakeFailure(Seq<char>),
    /// A failed connection to a server, by reason.
    ConnectionFailure(Seq<char>),
    /// A login.
    Attempt,
    /// A connection that has been established.
    Established,
    /// A connection that has been closed.
    Closed,
    /// A ping.
    Ping,
    /// Forwarded bytes, by direction.
    Bytes(Seq<char>, usize),
    /// A blocked address.
    IpBlock,
}

/// The numbers after something has been counted.
pub open spec fn with_counted(view: MetricsView, what: Counted) -> MetricsView {
    match what {
        Counted::Block(reason) => MetricsView {
            block_events: raised_at(view.block_events, label_slot(reason), 1),
            ..view
        },
        Counted::HandshakeFailure(reason) => MetricsView {
            handshake_failures: raised_at(view.handshake_failures, label_slot(reason), 1),
            ..view
        },
        Counted::ConnectionFailure(reason) => MetricsView {
            connection_failures: raised_at(view.connection_failures, label_slot(reason), 1),
            ..view
        },
        Counted::Attempt => MetricsView {
            connection_attempts: raised(view.connection_attempts, 1),
            ..view
        },
        Counted::Established => MetricsView {
            connections_established: raised(view.connections_established, 1),
            active_connections: one_up(view.active_connections),
            ..view
        },
        Counted::Closed => MetricsView {
            connections_closed: raised(view.connections_closed, 1),
            active_connections: one_down(view.active_connections),
            ..view
        },
        Counted::Ping => MetricsView { ping_requests: raised(view.ping_requests, 1), ..view },
        Counted::Bytes(direction, bytes) => if bytes > 0 {
            MetricsView {
                bytes_transferred: raised_at(
                    view.bytes_transferred,
                    label_slot(direction),
                    bytes as u64,
                ),
                ..view
            }
        } else {
            view
        },
        Counted::IpBlock => MetricsView { ip_blocks: raised(view.ip_blocks, 1), ..view },
    }
}

/// Counting under one label leaves the number of every other label alone, unless
/// the two share a slot.
pub proof fn labels_are_counted_apart(
    values: Map<u64, u64>,
    label: Seq<char>,
    other: Seq<char>,
    n: u64,
)
    requires
        label_slot(label) != label_slot(other),
    ensures
        raised_at(values, label_slot(label), n).get(label_slot(other)) == values.get(
            label_slot(other),
        ),
{
}

/// Counts a blocked action.
pub fn record_block(metrics: &mut Metrics, reason: &'static str)
    ensures
        final(metrics)@ == with_counted(old(metrics)@, Counted::Block(reason@)),
{
    labelled_add(&mut metrics.block_events, reason, 1);
}

/// Counts a failed handshake.
pub fn record_handshake_failure(metrics: &mut Metrics, reason: &'static str)
    ensures
        final(metrics)@ == with_counted(old(metrics)@, Counted::HandshakeFailure(reason@)),
{
    labelled_add(&mut metrics.handshake_failures, reason, 1);
}

/// Counts a failed connection to a server.
pub fn record_connection_failure(metrics: &mut Metrics, reason: &'static str)
    ensures
        final(metrics)@ == with_counted(old(metrics)@, Counted::ConnectionFailure(reason@)),
{
    labelled_add(&mut metrics.connection_failures, reason, 1);
}

/// Counts a login.
pub fn record_connection_attempt(metrics: &mut Metrics)
    ensures
        final(metrics)@ == with_counted(old(metrics)@, Counted::Attempt),
{
    counter_inc(&mut metrics.connection_attempts);
}

/// Counts a connection that has been established.
pub fn record_connection_established(metrics: &mut Metrics)
    ensures
        final(metrics)@ == with_counted(old(metrics)@, Counted::Established),
{
    counter_inc(&mut metrics.connections_established);
    gauge_inc(&mut metrics.active_connections);
}

/// Counts a connection that has been closed.
pub fn record_connection_closed(metrics: &mut Metrics)
    ensures
        final(metrics)@ == with_counted(old(metrics)@, Counted::Closed),
{
    counter_inc(&mut metrics.connections_closed);
    gauge_dec(&mut metrics.active_connections);
}

/// Counts a ping.
pub fn record_ping_request(metrics: &mut Metrics)
    ensures
        final(metrics)@ == with_counted(old(metrics)@, Counted::Ping),
{
    counter_inc(&mut metrics.ping_requests);
}

/// Counts forwarded bytes. Where there were none, nothing is shown either.
pub fn record_bytes(metrics: &mut Metrics, direction: &'static str, bytes: usize)
    ensures
        final(metrics)@ == with_counted(old(metrics)@, Counted::Bytes(direction@, bytes)),
{
    if bytes > 0 {
        labelled_add(&mut metrics.bytes_transferred, direction, bytes as u64);
    }
}

/// Counts a blocked address.
pub fn record_ip_block(metrics: &mut Metrics)
    ensures
        final(metrics)@ == with_counted(old(metrics)@, Counted::IpBlock),
{
    counter_inc(&mut metrics.ip_blocks);
}

/// The numbers after all of this has been counted, one after the other.
pub open spec fn with_all_counted(view: MetricsView, events: Seq<Counted>) -> MetricsView
    decreases events.len(),
{
    if events.len() == 0 {
        view
    } else {
        with_counted(with_all_counted(view, events.drop_last()), events.last())
    }
}

/// How many connections have been established among the events.
pub open spec fn established_among(events: Seq<Counted>) -> nat
    decreases events.len(),
{
    if events.len() == 0 {
        0
    } else {
        established_among(events.drop_last()) + if events.last() is Established {
            1nat
        } else {
            0
        }
    }
}

/// How many connections have been closed among the events.
pub open spec fn closed_among(events: Seq<Counted>) -> nat
    decreases events.len(),
{
    if events.len() == 0 {
        0
    } else {
        closed_among(events.drop_last()) + if events.last() is Closed {
            1nat
        } else {
            0
        }
    }
}

/// A number as a gauge shows it: 64 bits, which wrap around.
pub open spec fn on_gauge(n: int) -> int {
    (n + 0x8000_0000_0000_0000) % 0x1_0000_0000_0000_0000 - 0x8000_0000_0000_0000
}

/// Whether the numbers are those of so many connections established and closed,
/// as 64 bits show them.
pub open spec fn shows_connections(view: MetricsView, opened: nat, closed: nat) -> bool {
    &&& view.connections_established == opened % 0x1_0000_0000_0000_0000
    &&& view.connections_closed == closed % 0x1_0000_0000_0000_0000
    &&& view.active_connections == on_gauge(opened - closed)
}

proof fn lemma_one_more(n: nat)
    ensures
        raised((n % 0x1_0000_0000_0000_0000) as u64, 1) == (n + 1) % 0x1_0000_0000_0000_0000,
{
}

proof fn lemma_gauge_steps(n: int)
    ensures
        i64::MIN <= on_gauge(n) <= i64::MAX,
        one_up(on_gauge(n) as i64) == on_gauge(n + 1),
        one_down(on_gauge(n) as i64) == on_gauge(n - 1),
{
}

proof fn lemma_connections_step(view: MetricsView, what: Counted, opened: nat, closed: nat)
    requires
        shows_connections(view, opened, closed),
    ensures
        shows_connections(
            with_counted(view, what),
            if what is Established {
                opened + 1
            } else {
                opened
            },
            if what is Closed {
                closed + 1
            } else {
                closed
            },
        ),
{
    lemma_one_more(opened);
    lemma_one_more(closed);
    lemma_gauge_steps(opened - closed);
    assert(opened + 1 - closed == opened - closed + 1);
    assert(opened - (closed + 1) == opened - closed - 1);
}

/// Since the start, whatever else has been counted in between: the connections
/// established and closed are as many as there were of each, and those shown as
/// active are the ones established less the ones closed, as 64 bits show them.
pub proof fn connections_are_counted_since_the_start(events: Seq<Counted>)
    ensures
        shows_connections(
            with_all_counted(nothing_counted(), events),
            established_among(events),
            closed_among(events),
        ),
    decreases events.len(),
{
    if events.len() > 0 {
        let before = events.drop_last();
        connections_are_counted_since_the_start(before);
        lemma_connections_step(
            with_all_counted(nothing_counted(), before),
            events.last(),
            established_among(before),
            closed_among(before),
        );
    }
}

/// The same, as long as 64 bits can hold the numbers: with `n` connections
/// established and `m` closed since the start, the counters show `n` and `m`, and
/// `n - m` are active.
pub proof fn active_connections_are_the_open_ones(events: Seq<Counted>)
    requires
        established_among(events) <= u64::MAX,
        closed_among(events) <= u64::MAX,
        i64::MIN <= established_among(events) - closed_among(events) <= i64::MAX,
    ensures
        ({
            let view = with_all_counted(nothing_counted(), events);
            let n = established_among(events);
            let m = closed_among(events);
            &&& view.connections_established == n
            &&& view.connections_closed == m
            &&& view.active_connections == n - m
        }),
{
    connections_are_counted_since_the_start(events);
}

// ---------- The endpoint ----------

/// What is sent back to whoever asks the endpoint.
#[derive(Debug)]
pub struct Reply {
    pub status: u16,
    pub content_type: Option<&'static str>,
    pub body: Vec<u8>,
}

/// Decides whether the endpoint is to be opened: only the first time.
pub fn spawn_metrics_server(started: &mut bool, addr: SocketAddr) -> (r: Option<SocketAddr>)
    ensures
        *final(started),
        r == (if *old(started) {
            None
        } else {
            Some(addr)
        }),
{
    if *started {
        return None;
    }
    *started = true;
    Some(addr)
}

/// `prometheus::proto::MetricFamily`, the numbers of one counter as they are
/// shown.
#[verifier::external_type_specification]
#[verifier::external_body]
pub struct ExMetricFamily(prometheus::proto::MetricFamily);

/// Whether a family says that its numbers are of no particular type.
pub uninterp spec fn is_untyped(family: prometheus::proto::MetricFamily) -> bool;

/// The text that families are written out as, where they can be.
pub uninterp spec fn families_text(families: Seq<prometheus::proto::MetricFamily>) -> Option<
    Seq<u8>,
>;

/// `prometheus::gather` collects what has been registered. What that is depends
/// on the state of the whole process.
#[verifier::external_body]
fn gathered() -> (r: Vec<prometheus::proto::MetricFamily>) {
    prometheus::gather()
}

/// `MetricFamily::get_field_type` tells whether a family is untyped.
#[verifier::external_body]
fn family_is_untyped(family: &prometheus::proto::MetricFamily) -> (r: bool)
    ensures
        r == is_untyped(*family),
{
    matches!(family.get_field_type(), prometheus::proto::MetricType::UNTYPED)
}

/// `TextEncoder::encode` writes families out. Whether it can, and what it writes,
/// depends on the families alone. It has no form for untyped ones.
#[verifier::external_body]
fn families_encode(families: &Vec<prometheus::proto::MetricFamily>) -> (r: Option<Vec<u8>>)
    requires
        forall|i: int| 0 <= i < families@.len() ==> !is_untyped(#[trigger] families@[i]),
    ensures
        match r {
            Some(text) => families_text(families@) == Some(text@),
            None => families_text(families@) is None,
        },
{
    let mut buffer = Vec::new();
    let encoder = prometheus::TextEncoder::new();
    match prometheus::Encoder::encode(&encoder, families, &mut buffer) {
        Ok(()) => Some(buffer),
        Err(_) => None,
    }
}

/// The text that families are shown as, if they can be. No counter of this crate
/// is untyped; what else is registered may be, and cannot be shown.
pub open spec fn shown_text(families: Seq<prometheus::proto::MetricFamily>) -> Option<Seq<u8>> {
    if exists|i: int| 0 <= i < families.len() && is_untyped(#[trigger] families[i]) {
        None
    } else {
        families_text(families)
    }
}

/// Whether `r` shows this text, or says that there is none.
pub open spec fn shows(encoded: Option<Seq<u8>>, r: Reply) -> bool {
    match encoded {
        Some(text) => r.status == 200 && r.body@ == text && (r.content_type matches Some(kind)
            && kind@ == "text/plain; version=0.0.4"@),
        None => r.status == 500 && r.content_type is None && r.body@
            == vstd::utf8::encode_utf8("unable to encode metrics"@),
    }
}

/// Answers a request for the numbers, given the text that they are shown as.
pub fn metrics_reply(encoded: Option<Vec<u8>>) -> (r: Reply)
    ensures
        match encoded {
            Some(text) => shows(Some(text@), r),
            None => shows(None, r),
        },
{
    match encoded {
        Some(text) => Reply {
            status: 200,
            content_type: Some("text/plain; version=0.0.4"),
            body: text,
        },
        None => Reply {
            status: 500,
            content_type: None,
            body: bytes_of("unable to encode metrics"),
        },
    }
}

/// Answers a request for the numbers, given what has been registered.
pub fn families_reply(families: &Vec<prometheus::proto::MetricFamily>) -> (r: Reply)
    ensures
        shows(shown_text(families@), r),
{
    let mut i: usize = 0;
    while i < families.len()
        invariant
            i <= families@.len(),
            forall|j: int| 0 <= j < i ==> !is_untyped(#[trigger] families@[j]),
        decreases families@.len() - i,
    {
        if family_is_untyped(&families[i]) {
            return metrics_reply(None);
        }
        i = i + 1;
    }
    metrics_reply(families_encode(families))
}

fn bytes_of(s: &str) -> (r: Vec<u8>)
    ensures
        r@ == vstd::utf8::encode_utf8(s@),
{
    let mut out: Vec<u8> = Vec::new();
    out.extend_from_slice(s.as_bytes());
    out
}

fn same(a: &str, b: &str) -> (r: bool)
    ensures
        r == (a@ == b@),
{
    a.to_owned() == b.to_owned()
}

/// Whether `r` is a plain reply.
pub open spec fn replies(r: Reply, status: u16, body: Seq<char>) -> bool {
    r.status == status && r.content_type is None && r.body@ == vstd::utf8::encode_utf8(body)
}

/// Whether `r` answers a request to the endpoint.
pub open spec fn served(method: Seq<char>, path: Seq<char>, r: Reply) -> bool {
    if method == "GET"@ && path == "/metrics"@ {
        exists|families: Seq<prometheus::proto::MetricFamily>|
            shows(#[trigger] shown_text(families), r)
    } else if method == "GET"@ && path == "/healthz"@ {
        replies(r, 200, "ok"@)
    } else if method == "HEAD"@ && path == "/metrics"@ {
        replies(r, 200, ""@)
    } else {
        replies(r, 404, "not found"@)
    }
}

/// Answers a request to the endpoint.
pub fn serve(method: &str, path: &str) -> (r: Reply)
    ensures
        served(method@, path@, r),
{
    if same(method, "GET") && same(path, "/metrics") {
        let families = gathered();
        families_reply(&families)
    } else if same(method, "GET") && same(path, "/healthz") {
        Reply { status: 200, content_type: None, body: bytes_of("ok") }
    } else if same(method, "HEAD") && same(path, "/metrics") {
        Reply { status: 200, content_type: None, body: bytes_of("") }
    } else {
        Reply { status: 404, content_type: None, body: bytes_of("not found") }
    }
}

// ---------- Laws ----------


/// How many of the events are such.
pub open spec fn among(events: Seq<Counted>, such: spec_fn(Counted) -> bool) -> nat
    decreases events.len(),
{
    if events.len() == 0 {
        0
    } else {
        among(events.drop_last(), such) + if such(events.last()) {
            1nat
        } else {
            0
        }
    }
}

/// How many bytes have been forwarded in directions of this slot.
pub open spec fn bytes_among(events: Seq<Counted>, slot: u64) -> nat
    decreases events.len(),
{
    if events.len() == 0 {
        0
    } else {
        bytes_among(events.drop_last(), slot) + match events.last() {
            Counted::Bytes(direction, bytes) => if label_slot(direction) == slot {
                bytes as nat
            } else {
                0
            },
            _ => 0,
        }
    }
}

/// The number in a slot; zero where there is none.
pub open spec fn number_at(values: Map<u64, u64>, slot: u64) -> nat {
    match values.get(slot) {
        Some(value) => value as nat,
        None => 0,
    }
}

/// Adding to a number: the sum, less 2 to the power of 64 where it no longer fits.
/// In a slot it is added to what is there, or to zero, and other slots stay.
pub proof fn what_adding_does(value: u64, n: u64, values: Map<u64, u64>, slot: u64, other: u64)
    ensures
        value + n <= u64::MAX ==> raised(value, n) == value + n,
        value + n > u64::MAX ==> raised(value, n) == value + n - 0x1_0000_0000_0000_0000,
        values.get(slot) is None ==> raised_at(values, slot, n).get(slot) == Some(n),
        values.get(slot) matches Some(v) ==> raised_at(values, slot, n).get(slot) == Some(
            raised(v, n),
        ),
        other != slot ==> raised_at(values, slot, n).get(other) == values.get(other),
{
}

/// A gauge goes up and down by one, and each undoes the other.
pub proof fn what_a_gauge_does(value: i64)
    ensures
        value < i64::MAX ==> one_up(value) == value + 1,
        value > i64::MIN ==> one_down(value) == value - 1,
        one_down(one_up(value)) == value,
        one_up(one_down(value)) == value,
{
}

/// The hash of labels, byte by byte: from the offset basis on, each byte is mixed
/// in by exclusive or, and the result multiplied by the prime, as 64 bits.
pub proof fn hashing_byte_by_byte(bytes: Seq<u8>, b: u8)
    ensures
        fnv1a(Seq::empty()) == 14695981039346656037,
        fnv1a(bytes.push(b)) == ((fnv1a(bytes) ^ (b as u64)) * 1099511628211)
            % 18446744073709551616,
{
    assert(bytes.push(b).drop_last() == bytes);
}

/// A block or a failure adds one under its reason to its own numbers, and moves
/// nothing else: names, help texts and labels stay too.
pub proof fn each_reason_moves_its_own_number(view: MetricsView, reason: Seq<char>)
    ensures
        ({
            let after = with_counted(view, Counted::Block(reason));
            &&& after == (MetricsView { block_events: after.block_events, ..view })
            &&& after.block_events == raised_at(view.block_events, label_slot(reason), 1)
        }),
        ({
            let after = with_counted(view, Counted::HandshakeFailure(reason));
            &&& after == (MetricsView { handshake_failures: after.handshake_failures, ..view })
            &&& after.handshake_failures == raised_at(view.handshake_failures, label_slot(reason), 1)
        }),
        ({
            let after = with_counted(view, Counted::ConnectionFailure(reason));
            &&& after == (MetricsView { connection_failures: after.connection_failures, ..view })
            &&& after.connection_failures == raised_at(view.connection_failures, label_slot(reason), 1)
        }),
{
}

/// Forwarded bytes are added under their direction, unless there were none, and
/// move nothing else.
pub proof fn forwarded_bytes_move_their_own_number(view: MetricsView, direction: Seq<char>, n: usize)
    ensures
        ({
            let after = with_counted(view, Counted::Bytes(direction, n));
            &&& after == (MetricsView { bytes_transferred: after.bytes_transferred, ..view })
            &&& n > 0 ==> after.bytes_transferred == raised_at(
                view.bytes_transferred,
                label_slot(direction),
                n as u64,
            )
            &&& n == 0 ==> after.bytes_transferred == view.bytes_transferred
        }),
{
}

/// A login, a ping and a blocked address each add one to their own number, and
/// move nothing else.
pub proof fn each_event_moves_its_own_number(view: MetricsView)
    ensures
        ({
            let after = with_counted(view, Counted::Attempt);
            &&& after == (MetricsView { connection_attempts: after.connection_attempts, ..view })
            &&& after.connection_attempts == raised(view.connection_attempts, 1)
        }),
        ({
            let after = with_counted(view, Counted::Ping);
            &&& after == (MetricsView { ping_requests: after.ping_requests, ..view })
            &&& after.ping_requests == raised(view.ping_requests, 1)
        }),
        ({
            let after = with_counted(view, Counted::IpBlock);
            &&& after == (MetricsView { ip_blocks: after.ip_blocks, ..view })
            &&& after.ip_blocks == raised(view.ip_blocks, 1)
        }),
{
}

/// A connection that is established or closed adds one to its own number, and
/// moves nothing else but how many are active.
pub proof fn each_connection_moves_two_numbers(view: MetricsView)
    ensures
        ({
            let after = with_counted(view, Counted::Established);
            &&& after == (MetricsView {
                connections_established: after.connections_established,
                active_connections: after.active_connections,
                ..view
            })
            &&& after.connections_established == raised(view.connections_established, 1)
            &&& after.active_connections == one_up(view.active_connections)
        }),
        ({
            let after = with_counted(view, Counted::Closed);
            &&& after == (MetricsView {
                connections_closed: after.connections_closed,
                active_connections: after.active_connections,
                ..view
            })
            &&& after.connections_closed == raised(view.connections_closed, 1)
            &&& after.active_connections == one_down(view.active_connections)
        }),
{
}

/// Since the start, whatever else has been counted in between: logins, pings and
/// blocked addresses are as many as there were of each, as 64 bits show them.
pub proof fn everything_is_counted_since_the_start(events: Seq<Counted>)
    ensures
        ({
            let view = with_all_counted(nothing_counted(), events);
            let all = 0x1_0000_0000_0000_0000nat;
            &&& view.connection_attempts == among(events, |e: Counted| e is Attempt) % all
            &&& view.ping_requests == among(events, |e: Counted| e is Ping) % all
            &&& view.ip_blocks == among(events, |e: Counted| e is IpBlock) % all
        }),
    decreases events.len(),
{
    if events.len() > 0 {
        everything_is_counted_since_the_start(events.drop_last());
        lemma_one_more(among(events.drop_last(), |e: Counted| e is Attempt));
        lemma_one_more(among(events.drop_last(), |e: Counted| e is Ping));
        lemma_one_more(among(events.drop_last(), |e: Counted| e is IpBlock));
    }
}

/// Since the start, whatever else has been counted in between: what each slot
/// shows is how many events of its labels there were, and how many bytes were
/// forwarded in its directions, as 64 bits show them.
pub proof fn labels_are_counted_since_the_start(events: Seq<Counted>, slot: u64)
    ensures
        ({
            let view = with_all_counted(nothing_counted(), events);
            let all = 0x1_0000_0000_0000_0000nat;
            &&& number_at(view.block_events, slot) == among(
                events,
                |e: Counted| e matches Counted::Block(reason) && label_slot(reason) == slot,
            ) % all
            &&& number_at(view.handshake_failures, slot) == among(
                events,
                |e: Counted|
                    e matches Counted::HandshakeFailure(reason) && label_slot(reason) == slot,
            ) % all
            &&& number_at(view.connection_failures, slot) == among(
                events,
                |e: Counted|
                    e matches Counted::ConnectionFailure(reason) && label_slot(reason) == slot,
            ) % all
            &&& number_at(view.bytes_transferred, slot) == bytes_among(events, slot) % all
        }),
    decreases events.len(),
{
    if events.len() > 0 {
        let before = events.drop_last();
        let view = with_all_counted(nothing_counted(), before);
        labels_are_counted_since_the_start(before, slot);
        match events.last() {
            Counted::Block(reason) => {
                lemma_slot(view.block_events, label_slot(reason), slot, 1);
                lemma_one_more(
                    among(
                        before,
                        |e: Counted| e matches Counted::Block(reason) && label_slot(reason) == slot,
                    ),
                );
            },
            Counted::HandshakeFailure(reason) => {
                lemma_slot(view.handshake_failures, label_slot(reason), slot, 1);
                lemma_one_more(
                    among(
                        before,
                        |e: Counted|
                            e matches Counted::HandshakeFailure(reason) && label_slot(reason)
                                == slot,
                    ),
                );
            },
            Counted::ConnectionFailure(reason) => {
                lemma_slot(view.connection_failures, label_slot(reason), slot, 1);
                lemma_one_more(
                    among(
                        before,
                        |e: Counted|
                            e matches Counted::ConnectionFailure(reason) && label_slot(reason)
                                == slot,
                    ),
                );
            },
            Counted::Bytes(direction, bytes) => {
                lemma_slot(view.bytes_transferred, label_slot(direction), slot, bytes as u64);
                lemma_sum(bytes_among(before, slot), bytes as nat);
            },
            _ => {},
        }
    }
}

proof fn lemma_slot(values: Map<u64, u64>, changed: u64, slot: u64, n: u64)
    ensures
        number_at(raised_at(values, changed, n), slot) == (if changed == slot {
            (number_at(values, slot) + n) % 0x1_0000_0000_0000_0000
        } else {
            number_at(values, slot) as int
        }),
{
}

proof fn lemma_sum(sum: nat, n: nat)
    ensures
        (sum % 0x1_0000_0000_0000_0000 + n) % 0x1_0000_0000_0000_0000 == (sum + n)
            % 0x1_0000_0000_0000_0000,
{
    vstd::arithmetic::div_mod::lemma_add_mod_noop_right(
        n as int,
        sum as int,
        0x1_0000_0000_0000_0000,
    );
}

/// What is shown: the text of the families with status 200, or an error with
/// status 500 where there is no text, and there is none as soon as one of the
/// families is of no type.
pub proof fn what_is_shown(
    families: Seq<prometheus::proto::MetricFamily>,
    i: int,
    text: Seq<u8>,
    r: Reply,
)
    ensures
        0 <= i < families.len() && is_untyped(families[i]) ==> shown_text(families) is None,
        (forall|j: int| 0 <= j < families.len() ==> !is_untyped(#[trigger] families[j]))
            ==> shown_text(families) == families_text(families),
        shows(Some(text), r) ==> r.status == 200 && r.body@ == text && (
        r.content_type matches Some(kind) && kind@ == "text/plain; version=0.0.4"@),
        shows(None, r) ==> r.status == 500 && r.content_type is None && r.body@
            == vstd::utf8::encode_utf8("unable to encode metrics"@),
{
}

/// At the start every number is zero, and there are ten counters, four of them
/// with a label.
pub proof fn nothing_is_counted_at_the_start(slot: u64)
    ensures
        ({
            let view = nothing_counted();
            &&& number_at(view.block_events, slot) == 0
            &&& number_at(view.handshake_failures, slot) == 0
            &&& number_at(view.connection_failures, slot) == 0
            &&& number_at(view.bytes_transferred, slot) == 0
            &&& view.connection_attempts == 0
            &&& view.connections_established == 0
            &&& view.connections_closed == 0
            &&& view.ping_requests == 0
            &&& view.active_connections == 0
            &&& view.ip_blocks == 0
            &&& view.names.len() == 10
            &&& view.helps.len() == 10
            &&& view.labels.len() == 4
        }),
{
}

/// What the endpoint answers: numbers only to a `GET` of `/metrics`, and these
/// with status 200 or 500; `ok` to a `GET` of `/healthz`; nothing to a `HEAD` of
/// `/metrics`; and that it was not found to every other request, whatever the
/// method and whatever the path.
pub proof fn what_the_endpoint_answers(method: Seq<char>, path: Seq<char>, r: Reply)
    requires
        served(method, path, r),
    ensures
        r.content_type is Some ==> method == "GET"@ && path == "/metrics"@ && r.status == 200,
        r.status == 500 ==> method == "GET"@ && path == "/metrics"@,
        path != "/metrics"@ && path != "/healthz"@ ==> r.status == 404,
        method != "GET"@ && method != "HEAD"@ ==> r.status == 404,
        path == "/healthz"@ && method != "GET"@ ==> r.status == 404,
        r.status == 404 ==> r.body@ == vstd::utf8::encode_utf8("not found"@),
        method == "GET"@ && path == "/metrics"@ ==> r.status == 200 || r.status == 500,
        method == "GET"@ && path == "/healthz"@ ==> r.status == 200 && r.body@
            == vstd::utf8::encode_utf8("ok"@),
        method == "HEAD"@ && path == "/metrics"@ ==> r.status == 200 && r.body@.len() == 0,
{
    reveal_strlit("GET");
    reveal_strlit("HEAD");
    reveal_strlit("/metrics");
    reveal_strlit("/healthz");
    reveal_strlit("");
    assert("GET"@.len() != "HEAD"@.len());
    assert("/metrics"@[1] != "/healthz"@[1]);
    assert(vstd::utf8::encode_utf8(Seq::<char>::empty()).len() == 0) by {
        reveal(vstd::utf8::encode_utf8);
    }
    assert(""@ == Seq::<char>::empty());
}

} // verus!
