//! A smaller service: domains lead to targets, and no target is overrun.

use std::sync::Arc;

use vstd::hash_map::StringHashMap;
use vstd::prelude::*;
use vstd::string::*;

use crate::addr::{IpAddr, Ipv4Addr, SocketAddr};
use crate::config_loader;
use crate::config_loader::{LoadStep, OpenOutcome};
use crate::target;
use crate::target::{split_target, Answer, TargetError};
use crate::window;
use crate::window::count_event;

verus! {

// ---------- The configuration file ----------

/// The configuration file.
#[derive(Debug)]
pub struct Config {
    /// Where the service listens for connections.
    pub bind_address: String,
    /// Whether and how targets are kept from being overrun.
    pub prevent_target_overload: PreventTargetOverloadConfig,
    /// How many threads the service uses. Only read at startup.
    pub proxy_threads: usize,
    /// Where incoming connections go.
    pub redirections: Vec<Redirection>,
}

/// How targets are kept from being overrun.
#[derive(Clone, Copy, Debug, PartialEq, Eq, Structural)]
pub struct PreventTargetOverloadConfig {
    /// Whether they are at all.
    pub enabled: bool,
    /// How many connection attempts per second a target gets.
    pub rate_limit_per_target: usize,
}

impl Default for PreventTargetOverloadConfig {
    /// No protection.
    fn default() -> (r: Self)
        ensures
            !r.enabled,
            r.rate_limit_per_target == 0,
    {
        PreventTargetOverloadConfig { enabled: false, rate_limit_per_target: 0 }
    }
}

/// One redirection of the configuration file.
#[derive(Debug)]
pub struct Redirection {
    pub incoming_domain: String,
    /// The server behind the domain, as `host:port`.
    pub target: String,
}

/// How many threads the service uses where the file does not say.
pub fn default_proxy_threads() -> (r: usize)
    ensures
        r == 4,
{
    4
}

/// How many connection attempts per second a target gets where the file turns
/// the protection on and does not say.
pub fn default_rate_limit() -> (r: usize)
    ensures
        r == 10,
{
    10
}

/// Where the service listens before a configuration has been loaded.
pub fn default_bind_address() -> (r: SocketAddr)
    ensures
        r == config_loader::any_address(25565),
{
    SocketAddr::new(IpAddr::V4(Ipv4Addr { a: 0, b: 0, c: 0, d: 0 }), 25565)
}

/// The file that is written where there is none.
pub open spec fn default_config_text() -> Seq<char> {
    "# Default configuration for proxy redirections.\n# Where should the proxy listen for connections?\nbind-address: \"0.0.0.0:25565\"\n\nprevent_target_overload:\n  # Set `enabled` to true to enable target overload prevention.\n  enabled: false\n  # The `rate_limit_per_target` field specifies the maximum number of connection attempts allowed per target per second.\n  rate_limit_per_target: 10\n\n# Number of threads to use for the proxy (only used at startup)\nproxy_threads: 4\n# Where should we route incoming connections?\nredirections:\n  - incoming_domain: \"example.com\"\n    target: \"192.168.1.100:8080\"\n  - incoming_domain: \"test.com\"\n    target: \"some.domain.com:9090\"\n"@
}

/// The file that is written where there is none.
pub fn default_config() -> (r: String)
    ensures
        r@ == default_config_text(),
{
    "# Default configuration for proxy redirections.\n# Where should the proxy listen for connections?\nbind-address: \"0.0.0.0:25565\"\n\nprevent_target_overload:\n  # Set `enabled` to true to enable target overload prevention.\n  enabled: false\n  # The `rate_limit_per_target` field specifies the maximum number of connection attempts allowed per target per second.\n  rate_limit_per_target: 10\n\n# Number of threads to use for the proxy (only used at startup)\nproxy_threads: 4\n# Where should we route incoming connections?\nredirections:\n  - incoming_domain: \"example.com\"\n    target: \"192.168.1.100:8080\"\n  - incoming_domain: \"test.com\"\n    target: \"some.domain.com:9090\"\n".to_owned()
}

/// Begins to load the configuration from a file.
pub fn update_proxies_from_config(config_path: &str) -> (r: LoadStep)
    ensures
        r matches LoadStep::Open(path) && path@ == config_path@,
{
    LoadStep::Open(config_path.to_owned())
}

/// Begins to load the configuration from `config.yml`.
pub fn update_proxies() -> (r: LoadStep)
    ensures
        r matches LoadStep::Open(path) && path@ == "config.yml"@,
{
    update_proxies_from_config("config.yml")
}

/// Goes on once the file has been opened, or could not be. A missing file is
/// created with the default configuration; any other failure is final.
pub fn config_opened(config_path: &str, outcome: OpenOutcome) -> (r: LoadStep)
    ensures
        match outcome {
            OpenOutcome::Read(contents) => r == LoadStep::Parse(contents),
            OpenOutcome::Unreadable(why) => r matches LoadStep::Abort(reason) && reason@
                == "Unable to read config file: "@ + why@,
            OpenOutcome::NotFound => r matches LoadStep::Create(path, contents) && path@
                == config_path@ && contents@ == default_config_text(),
            OpenOutcome::Failed(why) => r matches LoadStep::Abort(reason) && reason@
                == "Error opening config file: "@ + why@,
        },
{
    match outcome {
        OpenOutcome::Read(contents) => LoadStep::Parse(contents),
        OpenOutcome::Unreadable(why) => {
            let mut reason = "Unable to read config file: ".to_owned();
            reason.append(why.as_str());
            LoadStep::Abort(reason)
        },
        OpenOutcome::NotFound => LoadStep::Create(config_path.to_owned(), default_config()),
        OpenOutcome::Failed(why) => {
            let mut reason = "Error opening config file: ".to_owned();
            reason.append(why.as_str());
            LoadStep::Abort(reason)
        },
    }
}

// ---------- Targets ----------

/// The text of a target error.
pub open spec fn fault_text(fault: target::TargetFault) -> Seq<char> {
    match fault {
        target::TargetFault::Format => "Invalid target format"@,
        target::TargetFault::Port => "Invalid port"@,
        target::TargetFault::Lookup(why) => "Failed to resolve domain name: "@ + why,
        target::TargetFault::NoIpv4 => "No IPv4 address found for the domain"@,
    }
}

fn describe(error: TargetError) -> (r: String)
    ensures
        r@ == fault_text(error@),
{
    match error {
        TargetError::Format => "Invalid target format".to_owned(),
        TargetError::Port => "Invalid port".to_owned(),
        TargetError::Lookup(why) => {
            let mut out = "Failed to resolve domain name: ".to_owned();
            out.append(why.as_str());
            out
        },
        TargetError::NoIpv4 => "No IPv4 address found for the domain".to_owned(),
    }
}

/// Turns a host into an address, given what looking it up has brought. The
/// answer counts only where the host does not spell out an address itself.
pub fn convert_to_ipv4(addr: &str, answer: &Answer) -> (r: Result<Ipv4Addr, String>)
    ensures
        match (r, target::host_address(addr@, *answer)) {
            (Ok(ip), Ok(expected)) => ip == expected,
            (Err(why), Err(fault)) => why@ == fault_text(fault),
            _ => false,
        },
{
    match target::convert_to_ipv4(addr, answer) {
        Ok(ip) => Ok(ip),
        Err(e) => Err(describe(e)),
    }
}

/// Reads a target, given what looking up its host has brought.
pub fn parse_target(target: &str, answer: &Answer) -> (r: Result<(Ipv4Addr, u16), String>)
    ensures
        match (r, target::target_address(target@, *answer)) {
            (Ok(found), Ok(expected)) => found == expected,
            (Err(why), Err(fault)) => why@ == fault_text(fault),
            _ => false,
        },
{
    match split_target(target) {
        Err(e) => Err(describe(e)),
        Ok((host, port)) => match convert_to_ipv4(host.as_str(), answer) {
            Ok(ip) => Ok((ip, port)),
            Err(why) => Err(why),
        },
    }
}

// ---------- State ----------

/// What the service goes by, and what it has counted.
pub struct Service {
    /// Which target stands behind which domain.
    pub proxies: StringHashMap<(Ipv4Addr, u16)>,
    /// Connection attempts per second by target.
    pub connections: StringHashMap<(u64, usize)>,
    pub overload: PreventTargetOverloadConfig,
    pub proxy_threads: usize,
    pub bind_address: SocketAddr,
}

impl Service {
    /// The service before any configuration has been loaded.
    pub fn new() -> (r: Service)
        ensures
            r.proxies@ == Map::<Seq<char>, (Ipv4Addr, u16)>::empty(),
            r.connections@ == Map::<Seq<char>, (u64, usize)>::empty(),
            !r.overload.enabled,
            r.overload.rate_limit_per_target == 0,
            r.proxy_threads == 4,
            r.bind_address == config_loader::any_address(25565),
    {
        Service {
            proxies: StringHashMap::new(),
            connections: StringHashMap::new(),
            overload: PreventTargetOverloadConfig::default(),
            proxy_threads: default_proxy_threads(),
            bind_address: default_bind_address(),
        }
    }
}

/// Which target stands behind which domain, by the redirections of the file and
/// what looking up their hosts has brought. Of two redirections of one domain
/// the later counts.
pub open spec fn proxies_of(redirections: Seq<Redirection>, answers: Seq<Answer>) -> Map<
    Seq<char>,
    (Ipv4Addr, u16),
>
    decreases redirections.len(),
{
    if redirections.len() == 0 {
        Map::empty()
    } else {
        let n = redirections.len() - 1;
        let earlier = proxies_of(redirections.take(n), answers.take(n));
        match target::target_address(redirections[n].target@, answers[n]) {
            Ok(found) => earlier.insert(redirections[n].incoming_domain@, found),
            Err(_) => earlier,
        }
    }
}

/// What is printed about the redirections that cannot be used, in order.
pub open spec fn complaints_of(redirections: Seq<Redirection>, answers: Seq<Answer>) -> Seq<
    Seq<char>,
>
    decreases redirections.len(),
{
    if redirections.len() == 0 {
        Seq::empty()
    } else {
        let n = redirections.len() - 1;
        let earlier = complaints_of(redirections.take(n), answers.take(n));
        match target::target_address(redirections[n].target@, answers[n]) {
            Ok(_) => earlier,
            Err(fault) => earlier.push(
                "Error parsing target "@ + redirections[n].target@ + ": "@ + fault_text(fault),
            ),
        }
    }
}

/// Puts a configuration into effect. `bind_address` is the address that it
/// names, and `answers` holds, for each redirection, what looking up its host
/// has brought. Returned is what to print about redirections that cannot be
/// used. What has been counted stays counted.
pub fn apply_config(
    service: &mut Service,
    config: &Config,
    bind_address: SocketAddr,
    answers: &Vec<Answer>,
) -> (complaints: Vec<String>)
    requires
        answers@.len() == config.redirections@.len(),
    ensures
        final(service).bind_address == bind_address,
        final(service).overload == config.prevent_target_overload,
        final(service).proxy_threads == config.proxy_threads,
        final(service).connections == old(service).connections,
        final(service).proxies@ == proxies_of(config.redirections@, answers@),
        config_loader::texts(complaints@) == complaints_of(config.redirections@, answers@),
{
    service.bind_address = bind_address;
    service.overload = config.prevent_target_overload;
    service.proxy_threads = config.proxy_threads;
    let mut new_map: StringHashMap<(Ipv4Addr, u16)> = StringHashMap::new();
    let mut complaints: Vec<String> = Vec::new();
    let ghost redirections = config.redirections@;
    let mut i: usize = 0;
    assert(config_loader::texts(complaints@) == Seq::<Seq<char>>::empty());
    while i < config.redirections.len()
        invariant
            i <= redirections.len(),
            redirections == config.redirections@,
            answers@.len() == redirections.len(),
            new_map@ == proxies_of(redirections.take(i as int), answers@.take(i as int)),
            config_loader::texts(complaints@) == complaints_of(
                redirections.take(i as int),
                answers@.take(i as int),
            ),
        decreases redirections.len() - i,
    {
        let redirection = &config.redirections[i];
        proof {
            assert(redirections.take(i + 1).take(i as int) == redirections.take(i as int));
            assert(answers@.take(i + 1).take(i as int) == answers@.take(i as int));
        }
        match parse_target(redirection.target.as_str(), &answers[i]) {
            Ok(found) => {
                new_map.insert(redirection.incoming_domain.clone(), found);
            },
            Err(why) => {
                let mut line = "Error parsing target ".to_owned();
                line.append(redirection.target.as_str());
                line.append(": ");
                line.append(why.as_str());
                let ghost before = complaints@;
                complaints.push(line);
                assert(config_loader::texts(complaints@) == config_loader::texts(before).push(line@));
            },
        }
        i = i + 1;
    }
    proof {
        assert(redirections.take(i as int) == redirections);
        assert(answers@.take(i as int) == answers@);
    }
    service.proxies = new_map;
    complaints
}

/// Which target stands behind a domain.
pub fn resolve(service: &Service, domain: String) -> (r: Option<(Ipv4Addr, u16)>)
    ensures
        r == service.proxies@.get(domain@),
{
    match service.proxies.get(domain.as_str()) {
        Some(found) => Some(*found),
        None => None,
    }
}

/// The last usable redirection of a domain is the one that counts. Here
/// capitals make a difference.
pub proof fn last_redirection_counts(redirections: Seq<Redirection>, answers: Seq<Answer>, i: int)
    requires
        answers.len() == redirections.len(),
        0 <= i < redirections.len(),
        target::target_address(redirections[i].target@, answers[i]) is Ok,
        forall|j: int|
            i < j < redirections.len() && target::target_address(
                (#[trigger] redirections[j]).target@,
                answers[j],
            ) is Ok ==> redirections[j].incoming_domain@ != redirections[i].incoming_domain@,
    ensures
        proxies_of(redirections, answers).get(redirections[i].incoming_domain@) == Some(
            target::target_address(redirections[i].target@, answers[i])->Ok_0,
        ),
    decreases redirections.len(),
{
    let n = redirections.len() - 1;
    if i < n {
        let earlier = redirections.take(n);
        assert forall|j: int|
            i < j < earlier.len() && target::target_address(
                (#[trigger] earlier[j]).target@,
                answers.take(n)[j],
            ) is Ok implies earlier[j].incoming_domain@ != earlier[i].incoming_domain@ by {
            assert(earlier[j] == redirections[j]);
        }
        last_redirection_counts(earlier, answers.take(n), i);
        assert(redirections[n] == redirections.last());
    }
}

// ---------- Overload prevention ----------

/// A connection that was allowed. Letting go of it changes nothing: the
/// counters start afresh every second.
#[derive(Debug)]
pub struct ConnectionGuard {
    pub target: String,
}

/// How many connection attempts per second a target gets, if that is limited.
pub open spec fn target_limit(overload: PreventTargetOverloadConfig) -> Option<usize> {
    if overload.enabled {
        Some(overload.rate_limit_per_target)
    } else {
        None
    }
}

/// Whether one more connection to a target is allowed at second `now`, and the
/// counters afterwards. Without protection every connection is allowed and none
/// is counted. A limit of zero allows none.
pub open spec fn register_step(
    connections: Map<Seq<char>, (u64, usize)>,
    overload: PreventTargetOverloadConfig,
    target: Seq<char>,
    now: u64,
) -> (bool, Map<Seq<char>, (u64, usize)>) {
    window::keyed_step(connections, target, now, target_limit(overload))
}

/// Counts a connection to a target at second `now`, and hands out a guard if it
/// is allowed.
pub fn try_register_connection(service: &mut Service, target: &str, now: u64) -> (r: Option<
    Arc<ConnectionGuard>,
>)
    ensures
        (r is Some, final(service).connections@) == register_step(
            old(service).connections@,
            old(service).overload,
            target@,
            now,
        ),
        old(service).overload.enabled && old(service).overload.rate_limit_per_target == 0 ==> r
            is None,
        r matches Some(guard) ==> guard.target@ == target@,
        *final(service) == (Service { connections: final(service).connections, ..*old(service) }),
{
    if !service.overload.enabled {
        return Some(Arc::new(ConnectionGuard { target: target.to_owned() }));
    }
    let entry: (u64, usize) = match service.connections.get(target) {
        Some(entry) => *entry,
        None => (now, 0),
    };
    let (allowed, updated) = count_event(entry, now, service.overload.rate_limit_per_target);
    service.connections.insert(target.to_owned(), updated);
    if allowed {
        Some(Arc::new(ConnectionGuard { target: target.to_owned() }))
    } else {
        None
    }
}

/// No target is overrun: as long as time does not run backwards, of the
/// connections to it in any one second exactly as many are allowed as there
/// are, up to the limit, whatever goes to other targets in between.
pub proof fn target_is_not_overrun(
    connections: Map<Seq<char>, (u64, usize)>,
    overload: PreventTargetOverloadConfig,
    attempts: Seq<(Seq<char>, u64)>,
    target: Seq<char>,
    second: u64,
)
    requires
        overload.enabled,
        window::in_order(attempts),
        window::is_past(connections, target, attempts),
    ensures
        window::admitted_in(
            connections,
            attempts,
            |t: Seq<char>| target_limit(overload),
            target,
            second,
        ) == window::up_to(
            window::events_in(attempts, target, second),
            overload.rate_limit_per_target,
        ),
{
    window::keys_are_admitted_up_to_their_limits(
        connections,
        attempts,
        |t: Seq<char>| target_limit(overload),
        target,
        overload.rate_limit_per_target,
        second,
    );
}

/// Connections to one target take nothing away from another.
pub proof fn targets_are_counted_apart(
    connections: Map<Seq<char>, (u64, usize)>,
    overload: PreventTargetOverloadConfig,
    target: Seq<char>,
    other: Seq<char>,
    now: u64,
)
    requires
        target != other,
    ensures
        register_step(connections, overload, target, now).1.get(other) == connections.get(other),
{
}

// ---------- Laws ----------


/// What is counted of the connections to a target.
spec fn connections_of(connections: Map<Seq<char>, (u64, usize)>, target: Seq<char>) -> Option<
    (u64, nat),
> {
    match connections.get(target) {
        Some(c) => Some((c.0, c.1 as nat)),
        None => None,
    }
}

/// Overload prevention, over a history of decisions: as long as time does not
/// run backwards, of the connections to a target in any one second as many are
/// allowed as there are, up to the limit.
pub proof fn targets_keep_the_limit(
    history: Seq<window::Asked<Seq<char>>>,
    before: Seq<Map<Seq<char>, (u64, usize)>>,
    after: Seq<Map<Seq<char>, (u64, usize)>>,
    target: Seq<char>,
    limit: usize,
    second: u64,
)
    requires
        before.len() == history.len(),
        after.len() == history.len(),
        window::is_steady(history, target, limit),
        forall|i: int|
            0 <= i < history.len() ==> ((#[trigger] history[i]).admitted, after[i]) == register_step(
                before[i],
                PreventTargetOverloadConfig {
                    enabled: true,
                    rate_limit_per_target: history[i].limit,
                },
                history[i].key,
                history[i].now,
            ),
        forall|i: int| 0 < i < history.len() ==> #[trigger] before[i] == after[i - 1],
        history.len() > 0 ==> (before[0].get(target) matches Some(c) ==> c.0 < history[0].now),
    ensures
        window::asked_in(history, target, second) <= limit ==> window::granted_in(
            history,
            target,
            second,
        ) == window::asked_in(history, target, second),
        window::asked_in(history, target, second) > limit ==> window::granted_in(
            history,
            target,
            second,
        ) == limit,
{
    let b = before.map_values(|m: Map<Seq<char>, (u64, usize)>| connections_of(m, target));
    let a = after.map_values(|m: Map<Seq<char>, (u64, usize)>| connections_of(m, target));
    assert(window::counts_by_second(history, target, limit, b, a)) by {
        assert forall|i: int| 0 < i < history.len() implies #[trigger] b[i] == a[i - 1] by {
            assert(before[i] == after[i - 1]);
        }
        assert forall|i: int|
            0 <= i < history.len() && history[i].key != target implies #[trigger] b[i] == a[i] by {
            assert(history[i].key != target);
        }
    }
    window::counting_by_second_keeps_the_limit(history, target, limit, b, a, second);
}

/// A decision about a connection, in so many words. Without protection it is
/// allowed and not counted, whatever the limit says. With protection it is
/// allowed while the connections to its target in this second are below the
/// limit, never with a limit of zero, and one more is then counted.
pub proof fn one_more_connection(
    connections: Map<Seq<char>, (u64, usize)>,
    limit: usize,
    target: Seq<char>,
    now: u64,
)
    ensures
        register_step(
            connections,
            PreventTargetOverloadConfig { enabled: false, rate_limit_per_target: limit },
            target,
            now,
        ) == (true, connections),
        ({
            let overload = PreventTargetOverloadConfig {
                enabled: true,
                rate_limit_per_target: limit,
            };
            let (allowed, after) = register_step(connections, overload, target, now);
            let had = match connections.get(target) {
                Some(c) => if c.0 == now {
                    c.1 as nat
                } else {
                    0nat
                },
                None => 0nat,
            };
            &&& allowed <==> had < limit
            &&& after.get(target) matches Some(c)
            &&& c.0 == now
            &&& c.1 == had + (if allowed {
                1nat
            } else {
                0
            })
            &&& forall|other: Seq<char>|
                other != target ==> #[trigger] after.get(other) == connections.get(other)
        }),
{
}

/// One redirection more, in so many words: a usable one leads its domain, spelled
/// as it is, to its target and is not complained about; any other changes nothing
/// of where domains lead, and is complained about last.
pub proof fn one_more_redirection(
    redirections: Seq<Redirection>,
    answers: Seq<Answer>,
    redirection: Redirection,
    answer: Answer,
    other: Seq<char>,
)
    requires
        answers.len() == redirections.len(),
    ensures
        ({
            let proxies = proxies_of(redirections.push(redirection), answers.push(answer));
            let complaints = complaints_of(redirections.push(redirection), answers.push(answer));
            match target::target_address(redirection.target@, answer) {
                Ok((ip, port)) => {
                    &&& proxies.get(redirection.incoming_domain@) == Some((ip, port))
                    &&& other != redirection.incoming_domain@ ==> proxies.get(other) == proxies_of(
                        redirections,
                        answers,
                    ).get(other)
                    &&& complaints == complaints_of(redirections, answers)
                },
                Err(fault) => {
                    &&& proxies == proxies_of(redirections, answers)
                    &&& complaints.len() == complaints_of(redirections, answers).len() + 1
                    &&& complaints.drop_last() == complaints_of(redirections, answers)
                    &&& complaints.last() == "Error parsing target "@ + redirection.target@ + ": "@
                        + (match fault {
                        target::TargetFault::Format => "Invalid target format"@,
                        target::TargetFault::Port => "Invalid port"@,
                        target::TargetFault::Lookup(why) => "Failed to resolve domain name: "@
                            + why,
                        target::TargetFault::NoIpv4 => "No IPv4 address found for the domain"@,
                    })
                },
            }
        }),
        proxies_of(Seq::empty(), Seq::empty()) == Map::<Seq<char>, (Ipv4Addr, u16)>::empty(),
        complaints_of(Seq::empty(), Seq::empty()) == Seq::<Seq<char>>::empty(),
{
    let n = redirections.len() as int;
    assert(redirections.push(redirection).take(n) == redirections);
    assert(answers.push(answer).take(n) == answers);
    if target::target_address(redirection.target@, answer) is Err {
        assert(complaints_of(redirections.push(redirection), answers.push(answer)).drop_last()
            == complaints_of(redirections, answers));
    }
}

/// A domain leads somewhere only if some usable redirection names it, and then to
/// the target of one that does.
pub proof fn only_named_domains_are_served(
    redirections: Seq<Redirection>,
    answers: Seq<Answer>,
    domain: Seq<char>,
)
    requires
        answers.len() == redirections.len(),
        proxies_of(redirections, answers).contains_key(domain),
    ensures
        exists|i: int|
            0 <= i < redirections.len() && (#[trigger] redirections[i]).incoming_domain@ == domain
                && target::target_address(redirections[i].target@, answers[i]) == Ok::<
                (Ipv4Addr, u16),
                target::TargetFault,
            >(proxies_of(redirections, answers)[domain]),
    decreases redirections.len(),
{
    if redirections.len() > 0 {
        let n = redirections.len() - 1;
        let here = target::target_address(redirections[n].target@, answers[n]);
        if here is Ok && redirections[n].incoming_domain@ == domain {
            assert(redirections[n].incoming_domain@ == domain);
        } else {
            only_named_domains_are_served(redirections.take(n), answers.take(n), domain);
            let i = choose|i: int|
                0 <= i < n && (#[trigger] redirections.take(n)[i]).incoming_domain@ == domain
                    && target::target_address(
                    redirections.take(n)[i].target@,
                    answers.take(n)[i],
                ) == Ok::<(Ipv4Addr, u16), target::TargetFault>(
                    proxies_of(redirections.take(n), answers.take(n))[domain],
                );
            assert(redirections.take(n)[i] == redirections[i]);
        }
    }
}

} // verus!
