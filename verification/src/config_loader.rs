//! The configuration, and the settings that come of it.

use vstd::prelude::*;
use vstd::string::*;

use dashmap::DashMap;

use crate::addr;
use crate::addr::{IpAddr, Ipv4Addr, SocketAddr};
use crate::tables;
use crate::tables::{
    redirect_clear, redirect_get, redirect_insert, redirect_items, redirect_map,
};
use crate::target;
use crate::target::{split_target, Answer, TargetError};
use crate::text;
use crate::text::{to_ascii_lowercase, trim};

verus! {

// ---------- The configuration file ----------

/// The configuration file.
#[derive(Debug)]
pub struct Config {
    /// Where the proxy listens for connections.
    pub bind_address: String,
    /// How many threads the proxy uses. Only read at startup.
    pub proxy_threads: usize,
    /// The ntfy server that is told about blocks; blank for none.
    pub ntfy_server: String,
    /// The ntfy topic; blank for none.
    pub ntfy_topic: String,
    pub prometheus_exporter: PrometheusExporterConfig,
    /// Whether debug messages are logged.
    pub debug: bool,
    /// Where incoming connections go.
    pub redirections: Vec<Redirection>,
}

/// One redirection of the configuration file.
#[derive(Debug)]
pub struct Redirection {
    pub incoming_domain: String,
    /// The server behind the domain, as `host:port`.
    pub target: String,
    /// Connections per second from a single source; 0 for no limit.
    pub max_connections_per_second: usize,
    /// Packets per second before the client is kicked; 0 for no limit.
    pub max_packet_per_second: usize,
    /// Ping responses per second from the cache; 0 for no limit.
    pub max_ping_response_per_second: usize,
}

/// What is known about the server behind one domain.
#[derive(Clone, Copy, Debug, PartialEq, Eq, Structural)]
pub struct RedirectionConfig {
    pub ip: Ipv4Addr,
    pub port: u16,
    /// Connections per second from a single source; 0 for no limit.
    pub max_connections_per_second: usize,
    /// Packets per second before the client is kicked; 0 for no limit.
    pub max_packet_per_second: usize,
    /// Ping responses per second from the cache; 0 for no limit.
    pub max_ping_response_per_second: usize,
}

/// The part of the configuration file about the Prometheus exporter.
#[derive(Debug)]
pub struct PrometheusExporterConfig {
    pub enabled: bool,
    pub bind_address: String,
}

impl Default for PrometheusExporterConfig {
    /// No exporter, and where it would listen.
    fn default() -> (r: Self)
        ensures
            !r.enabled,
            r.bind_address@ == "0.0.0.0:9100"@,
    {
        PrometheusExporterConfig { enabled: false, bind_address: "0.0.0.0:9100".to_owned() }
    }
}

/// How many threads the proxy uses where the file does not say.
pub fn default_proxy_threads() -> (r: usize)
    ensures
        r == 4,
{
    4
}

/// The file that is written where there is none.
pub open spec fn default_config_text() -> Seq<char> {
    "# Default configuration for proxy redirections.\n# Where should the proxy listen for connections?\nbind-address: \"127.0.0.1:25565\"\n\n# Number of threads for listener and forwarding pools (only used at startup)\nproxy_threads: 4\n\n# ntfy integration \"ntfy.sh\" \"xy-topic\" leave blank if disabled.\nntfy_server: \"\"\nntfy_topic: \"\"\n\n# Prometheus exporter configuration\nprometheus_exporter:\n  enabled: false\n  bind-address: \"0.0.0.0:9100\"\n\n# Debug messages for proxy development\ndebug: false\n\n# Where should we route incoming connections?\nredirections:\n  - incoming_domain: \"localhost\"\n    target: \"127.0.0.1:25577\"\n    # Max packets/second before kicking. 0 = none\n    max_packet_per_second: 0\n    # Max ping responses/second from cache\n    max_ping_response_per_second: 0\n    # Maximum connections per second from a single source. 0 = unlimited\n    max_connections_per_second: 0\n\n  - incoming_domain: \"example.com\"\n    target: \"target.local:25678\"\n    # Max packets/second before kicking. 0 = none\n    max_packet_per_second: 100\n    # Max ping responses/second from cache\n    max_ping_response_per_second: 100\n    # Maximum connections per second from a single source. 0 = unlimited\n    max_connections_per_second: 5\n\n"@
}

/// The file that is written where there is none.
pub fn default_config() -> (r: String)
    ensures
        r@ == default_config_text(),
{
    "# Default configuration for proxy redirections.\n# Where should the proxy listen for connections?\nbind-address: \"127.0.0.1:25565\"\n\n# Number of threads for listener and forwarding pools (only used at startup)\nproxy_threads: 4\n\n# ntfy integration \"ntfy.sh\" \"xy-topic\" leave blank if disabled.\nntfy_server: \"\"\nntfy_topic: \"\"\n\n# Prometheus exporter configuration\nprometheus_exporter:\n  enabled: false\n  bind-address: \"0.0.0.0:9100\"\n\n# Debug messages for proxy development\ndebug: false\n\n# Where should we route incoming connections?\nredirections:\n  - incoming_domain: \"localhost\"\n    target: \"127.0.0.1:25577\"\n    # Max packets/second before kicking. 0 = none\n    max_packet_per_second: 0\n    # Max ping responses/second from cache\n    max_ping_response_per_second: 0\n    # Maximum connections per second from a single source. 0 = unlimited\n    max_connections_per_second: 0\n\n  - incoming_domain: \"example.com\"\n    target: \"target.local:25678\"\n    # Max packets/second before kicking. 0 = none\n    max_packet_per_second: 100\n    # Max ping responses/second from cache\n    max_ping_response_per_second: 100\n    # Maximum connections per second from a single source. 0 = unlimited\n    max_connections_per_second: 5\n\n".to_owned()
}

// ---------- Loading ----------

/// What there is to do next to load the configuration.
#[derive(Debug)]
pub enum LoadStep {
    /// Open and read this file.
    Open(String),
    /// Create this file with these contents, and take them for the
    /// configuration.
    Create(String, String),
    /// Take these contents for the configuration.
    Parse(String),
    /// Give up, for this reason.
    Abort(String),
}

/// How opening and reading the file went.
#[derive(Debug)]
pub enum OpenOutcome {
    /// It holds this text.
    Read(String),
    /// It was opened, but could not be read, for this reason.
    Unreadable(String),
    /// There is none.
    NotFound,
    /// It could not be opened, for this reason.
    Failed(String),
}

/// Begins to load the configuration from a file.
pub fn update_proxies_from_config(config_path: &str) -> (r: LoadStep)
    ensures
        r matches LoadStep::Open(path) && path@ == config_path@,
{
    LoadStep::Open(config_path.to_owned())
}

/// Begins to load the configuration from `config.yml`.
pub fn update_proxies() -> (r: LoadStep)
    ensures
        r matches LoadStep::Open(path) && path@ == "config.yml"@,
{
    update_proxies_from_config("config.yml")
}

/// Goes on once the file has been opened, or could not be. A missing file is
/// created with the default configuration; any other failure is final.
pub fn config_opened(config_path: &str, outcome: OpenOutcome) -> (r: LoadStep)
    ensures
        match outcome {
            OpenOutcome::Read(contents) => r == LoadStep::Parse(contents),
            OpenOutcome::Unreadable(why) => r matches LoadStep::Abort(reason) && reason@
                == "Failed to read config file: "@ + why@,
            OpenOutcome::NotFound => r matches LoadStep::Create(path, contents) && path@
                == config_path@ && contents@ == default_config_text(),
            OpenOutcome::Failed(why) => r matches LoadStep::Abort(reason) && reason@
                == "Error opening config file: "@ + why@,
        },
{
    match outcome {
        OpenOutcome::Read(contents) => LoadStep::Parse(contents),
        OpenOutcome::Unreadable(why) => {
            let mut reason = "Failed to read config file: ".to_owned();
            reason.append(why.as_str());
            LoadStep::Abort(reason)
        },
        OpenOutcome::NotFound => LoadStep::Create(config_path.to_owned(), default_config()),
        OpenOutcome::Failed(why) => {
            let mut reason = "Error opening config file: ".to_owned();
            reason.append(why.as_str());
            LoadStep::Abort(reason)
        },
    }
}

// ---------- Targets ----------

/// The text of a target error, for a target with this host.
pub open spec fn fault_text(host: Seq<char>, fault: target::TargetFault) -> Seq<char> {
    match fault {
        target::TargetFault::Format => "Invalid target format (expected host:port)"@,
        target::TargetFault::Port => "Invalid port in target"@,
        target::TargetFault::Lookup(why) => "Failed to resolve '"@ + host + "': "@ + why,
        target::TargetFault::NoIpv4 => "No IPv4 address found for '"@ + host + "'"@,
    }
}

fn describe(host: &str, error: TargetError) -> (r: String)
    ensures
        r@ == fault_text(host@, error@),
{
    match error {
        TargetError::Format => "Invalid target format (expected host:port)".to_owned(),
        TargetError::Port => "Invalid port in target".to_owned(),
        TargetError::Lookup(why) => {
            let mut out = "Failed to resolve '".to_owned();
            out.append(host);
            out.append("': ");
            out.append(why.as_str());
            out
        },
        TargetError::NoIpv4 => {
            let mut out = "No IPv4 address found for '".to_owned();
            out.append(host);
            out.append("'");
            out
        },
    }
}

/// Turns a host into an address, given what looking it up has brought. The
/// answer counts only where the host does not spell out an address itself.
pub fn convert_to_ipv4(addr: &str, answer: &Answer) -> (r: Result<Ipv4Addr, String>)
    ensures
        match (r, target::host_address(addr@, *answer)) {
            (Ok(ip), Ok(expected)) => ip == expected,
            (Err(why), Err(fault)) => why@ == fault_text(addr@, fault),
            _ => false,
        },
{
    match target::convert_to_ipv4(addr, answer) {
        Ok(ip) => Ok(ip),
        Err(e) => Err(describe(addr, e)),
    }
}

/// The host that a target names, where it has the form of one.
pub open spec fn host_of(target: Seq<char>) -> Seq<char> {
    match target::target_parts(target) {
        Some((host, _)) => host,
        None => Seq::empty(),
    }
}

/// Reads a target, given what looking up its host has brought.
pub fn parse_target(target: &str, answer: &Answer) -> (r: Result<(Ipv4Addr, u16), String>)
    ensures
        match (r, target::target_address(target@, *answer)) {
            (Ok(found), Ok(expected)) => found == expected,
            (Err(why), Err(fault)) => why@ == fault_text(host_of(target@), fault),
            _ => false,
        },
{
    match split_target(target) {
        Err(e) => Err(describe("", e)),
        Ok((host, port)) => match convert_to_ipv4(host.as_str(), answer) {
            Ok(ip) => Ok((ip, port)),
            Err(why) => Err(why),
        },
    }
}

// ---------- Settings ----------

/// Which server stands behind which domain.
pub struct RedirectionTable {
    map: DashMap<String, RedirectionConfig>,
}

impl View for RedirectionTable {
    type V = Map<Seq<char>, RedirectionConfig>;

    closed spec fn view(&self) -> Map<Seq<char>, RedirectionConfig> {
        tables::redirect_entries(self.map)
    }
}

impl RedirectionTable {
    /// A table without redirections.
    pub fn new() -> (r: RedirectionTable)
        ensures
            r@ == Map::<Seq<char>, RedirectionConfig>::empty(),
    {
        RedirectionTable { map: redirect_map() }
    }

    /// All redirections, in no particular order.
    pub fn items(&self) -> (r: Vec<(String, RedirectionConfig)>)
        ensures
            tables::lists_redirects(r@, self@),
    {
        redirect_items(&self.map)
    }
}

/// What the proxy goes by.
pub struct Settings {
    pub redirections: RedirectionTable,
    /// How many threads the proxy uses.
    pub proxy_threads: usize,
    /// Where the proxy listens.
    pub bind_address: SocketAddr,
    /// Where blocks are reported; empty for nowhere.
    pub ntfy_url: String,
    /// Whether there is a Prometheus exporter.
    pub exporter_enabled: bool,
    /// Where the Prometheus exporter listens.
    pub exporter_address: SocketAddr,
    /// Whether debug messages are logged.
    pub debug: bool,
}

impl Settings {
    /// The settings before any configuration has been loaded.
    pub fn new() -> (r: Settings)
        ensures
            r.redirections@ == Map::<Seq<char>, RedirectionConfig>::empty(),
            r.proxy_threads == 4,
            r.bind_address == any_address(25565),
            r.ntfy_url@ == ""@,
            !r.exporter_enabled,
            r.exporter_address == any_address(9100),
            !r.debug,
    {
        Settings {
            redirections: RedirectionTable::new(),
            proxy_threads: 4,
            bind_address: SocketAddr::new(
                IpAddr::V4(Ipv4Addr { a: 0, b: 0, c: 0, d: 0 }),
                25565,
            ),
            ntfy_url: "".to_owned(),
            exporter_enabled: false,
            exporter_address: SocketAddr::new(
                IpAddr::V4(Ipv4Addr { a: 0, b: 0, c: 0, d: 0 }),
                9100,
            ),
            debug: false,
        }
    }
}

/// A port on every IPv4 address of the machine.
pub open spec fn any_address(port: u16) -> SocketAddr {
    addr::plain_socket(IpAddr::V4(Ipv4Addr { a: 0, b: 0, c: 0, d: 0 }), port)
}

/// The URL that blocks are reported to: server and topic without the white
/// space around them, or nothing where either is blank.
pub open spec fn ntfy_url_of(server: Seq<char>, topic: Seq<char>) -> Seq<char> {
    if text::trimmed(server).len() == 0 || text::trimmed(topic).len() == 0 {
        ""@
    } else {
        text::trimmed(server) + "/"@ + text::trimmed(topic)
    }
}

/// Computes [`ntfy_url_of`].
pub fn ntfy_url(server: &str, topic: &str) -> (r: String)
    ensures
        r@ == ntfy_url_of(server@, topic@),
{
    let server = trim(server);
    let topic = trim(topic);
    if is_empty(server.as_str()) || is_empty(topic.as_str()) {
        return "".to_owned();
    }
    let mut url = server;
    url.append("/");
    url.append(topic.as_str());
    url
}

fn is_empty(s: &str) -> (r: bool)
    ensures
        r == (s@.len() == 0),
{
    s.unicode_len() == 0
}

/// What a redirection of the file comes to, given what looking up its host has
/// brought: nothing where its target cannot be used.
pub open spec fn redirect_of(redirection: Redirection, answer: Answer) -> Option<RedirectionConfig> {
    match target::target_address(redirection.target@, answer) {
        Ok((ip, port)) => Some(
            RedirectionConfig {
                ip,
                port,
                max_connections_per_second: redirection.max_connections_per_second,
                max_packet_per_second: redirection.max_packet_per_second,
                max_ping_response_per_second: redirection.max_ping_response_per_second,
            },
        ),
        Err(_) => None,
    }
}

/// Which server stands behind which domain, by the redirections of the file and
/// what looking up their hosts has brought. Domains are kept in lower case; of
/// two redirections of one domain the later counts.
pub open spec fn redirects_of(redirections: Seq<Redirection>, answers: Seq<Answer>) -> Map<
    Seq<char>,
    RedirectionConfig,
>
    decreases redirections.len(),
{
    if redirections.len() == 0 {
        Map::empty()
    } else {
        let n = redirections.len() - 1;
        let earlier = redirects_of(redirections.take(n), answers.take(n));
        match redirect_of(redirections[n], answers[n]) {
            Some(config) => earlier.insert(
                text::ascii_lower(redirections[n].incoming_domain@),
                config,
            ),
            None => earlier,
        }
    }
}

/// What is logged about the redirections that cannot be used, in order.
pub open spec fn complaints_of(redirections: Seq<Redirection>, answers: Seq<Answer>) -> Seq<
    Seq<char>,
>
    decreases redirections.len(),
{
    if redirections.len() == 0 {
        Seq::empty()
    } else {
        let n = redirections.len() - 1;
        let earlier = complaints_of(redirections.take(n), answers.take(n));
        match target::target_address(redirections[n].target@, answers[n]) {
            Ok(_) => earlier,
            Err(fault) => earlier.push(
                "Error parsing target '"@ + redirections[n].target@ + "': "@ + fault_text(
                    host_of(redirections[n].target@),
                    fault,
                ),
            ),
        }
    }
}

/// The texts of a list of strings.
pub open spec fn texts(strings: Seq<String>) -> Seq<Seq<char>> {
    strings.map_values(|s: String| s@)
}

/// Puts a configuration into effect. `bind_address` and `exporter_address` are
/// the two addresses that it names, and `answers` holds, for each redirection,
/// what looking up its host has brought. Returned is what to log about
/// redirections that cannot be used.
pub fn apply_config(
    settings: &mut Settings,
    config: &Config,
    bind_address: SocketAddr,
    exporter_address: SocketAddr,
    answers: &Vec<Answer>,
) -> (complaints: Vec<String>)
    requires
        answers@.len() == config.redirections@.len(),
    ensures
        final(settings).bind_address == bind_address,
        final(settings).proxy_threads == config.proxy_threads,
        final(settings).ntfy_url@ == ntfy_url_of(config.ntfy_server@, config.ntfy_topic@),
        final(settings).exporter_enabled == config.prometheus_exporter.enabled,
        final(settings).exporter_address == exporter_address,
        final(settings).debug == config.debug,
        final(settings).redirections@ == redirects_of(config.redirections@, answers@),
        texts(complaints@) == complaints_of(config.redirections@, answers@),
{
    settings.bind_address = bind_address;
    settings.proxy_threads = config.proxy_threads;
    settings.ntfy_url = ntfy_url(config.ntfy_server.as_str(), config.ntfy_topic.as_str());
    settings.exporter_enabled = config.prometheus_exporter.enabled;
    settings.exporter_address = exporter_address;
    settings.debug = config.debug;
    redirect_clear(&mut settings.redirections.map);
    let mut complaints: Vec<String> = Vec::new();
    let ghost redirections = config.redirections@;
    let ghost set = *settings;
    let mut i: usize = 0;
    assert(texts(complaints@) == Seq::<Seq<char>>::empty());
    while i < config.redirections.len()
        invariant
            i <= redirections.len(),
            redirections == config.redirections@,
            answers@.len() == redirections.len(),
            *settings == (Settings { redirections: settings.redirections, ..set }),
            settings.redirections@ == redirects_of(
                redirections.take(i as int),
                answers@.take(i as int),
            ),
            texts(complaints@) == complaints_of(redirections.take(i as int), answers@.take(i as int)),
        decreases redirections.len() - i,
    {
        let rd = &config.redirections[i];
        proof {
            let now = redirections.take(i + 1);
            assert(now.take(i as int) == redirections.take(i as int));
            assert(answers@.take(i + 1).take(i as int) == answers@.take(i as int));
        }
        match parse_target(rd.target.as_str(), &answers[i]) {
            Ok((ip, port)) => {
                let rcfg = RedirectionConfig {
                    ip,
                    port,
                    max_connections_per_second: rd.max_connections_per_second,
                    max_packet_per_second: rd.max_packet_per_second,
                    max_ping_response_per_second: rd.max_ping_response_per_second,
                };
                redirect_insert(
                    &mut settings.redirections.map,
                    to_ascii_lowercase(rd.incoming_domain.as_str()),
                    rcfg,
                );
            },
            Err(why) => {
                let mut line = "Error parsing target '".to_owned();
                line.append(rd.target.as_str());
                line.append("': ");
                line.append(why.as_str());
                let ghost before = complaints@;
                complaints.push(line);
                assert(texts(complaints@) == texts(before).push(line@));
            },
        }
        i = i + 1;
    }
    proof {
        assert(redirections.take(i as int) == redirections);
        assert(answers@.take(i as int) == answers@);
    }
    complaints
}

/// Which server stands behind a domain.
pub fn resolve(settings: &Settings, domain: &str) -> (r: Option<RedirectionConfig>)
    ensures
        r == settings.redirections@.get(domain@),
{
    redirect_get(&settings.redirections.map, domain)
}

/// The last usable redirection of a domain is the one that counts, and how the
/// domain is capitalised makes no difference.
pub proof fn last_redirection_counts(redirections: Seq<Redirection>, answers: Seq<Answer>, i: int)
    requires
        answers.len() == redirections.len(),
        0 <= i < redirections.len(),
        redirect_of(redirections[i], answers[i]) is Some,
        forall|j: int|
            i < j < redirections.len() && redirect_of(#[trigger] redirections[j], answers[j]) is Some
                ==> text::ascii_lower(redirections[j].incoming_domain@) != text::ascii_lower(
                redirections[i].incoming_domain@,
            ),
    ensures
        redirects_of(redirections, answers).get(
            text::ascii_lower(redirections[i].incoming_domain@),
        ) == redirect_of(redirections[i], answers[i]),
    decreases redirections.len(),
{
    let n = redirections.len() - 1;
    if i < n {
        let earlier = redirections.take(n);
        assert forall|j: int|
            i < j < earlier.len() && redirect_of(#[trigger] earlier[j], answers.take(n)[j]) is Some
            implies text::ascii_lower(earlier[j].incoming_domain@) != text::ascii_lower(
            earlier[i].incoming_domain@,
        ) by {
            assert(earlier[j] == redirections[j]);
        }
        last_redirection_counts(earlier, answers.take(n), i);
        assert(redirections[n] == redirections.last());
    }
}

/// A domain is served only if some usable redirection names it.
pub proof fn only_named_domains_are_served(
    redirections: Seq<Redirection>,
    answers: Seq<Answer>,
    domain: Seq<char>,
)
    requires
        answers.len() == redirections.len(),
        redirects_of(redirections, answers).contains_key(domain),
    ensures
        exists|i: int|
            0 <= i < redirections.len() && text::ascii_lower(
                (#[trigger] redirections[i]).incoming_domain@,
            ) == domain && redirect_of(redirections[i], answers[i]) == Some(
                redirects_of(redirections, answers)[domain],
            ),
    decreases redirections.len(),
{
    if redirections.len() > 0 {
        let n = redirections.len() - 1;
        let here = redirect_of(redirections[n], answers[n]);
        if here is Some && text::ascii_lower(redirections[n].incoming_domain@) == domain {
            assert(redirections[n].incoming_domain@ == redirections[n].incoming_domain@);
        } else {
            only_named_domains_are_served(redirections.take(n), answers.take(n), domain);
            let i = choose|i: int|
                0 <= i < n && text::ascii_lower(
                    (#[trigger] redirections.take(n)[i]).incoming_domain@,
                ) == domain && redirect_of(redirections.take(n)[i], answers.take(n)[i]) == Some(
                    redirects_of(redirections.take(n), answers.take(n))[domain],
                );
            assert(redirections.take(n)[i] == redirections[i]);
        }
    }
}

// ---------- Laws ----------


/// One redirection more, in so many words: a usable one sets where its domain
/// leads, in lower case, with the limits that it names, and is not complained
/// about; any other changes nothing of where domains lead, and is complained
/// about last, with its target as it was written.
pub proof fn one_more_redirection(
    redirections: Seq<Redirection>,
    answers: Seq<Answer>,
    redirection: Redirection,
    answer: Answer,
    other: Seq<char>,
)
    requires
        answers.len() == redirections.len(),
    ensures
        ({
            let redirects = redirects_of(redirections.push(redirection), answers.push(answer));
            let complaints = complaints_of(redirections.push(redirection), answers.push(answer));
            let domain = text::ascii_lower(redirection.incoming_domain@);
            match target::target_address(redirection.target@, answer) {
                Ok((ip, port)) => {
                    &&& redirects.get(domain) matches Some(config)
                    &&& config.ip == ip
                    &&& config.port == port
                    &&& config.max_connections_per_second == redirection.max_connections_per_second
                    &&& config.max_packet_per_second == redirection.max_packet_per_second
                    &&& config.max_ping_response_per_second
                        == redirection.max_ping_response_per_second
                    &&& other != domain ==> redirects.get(other) == redirects_of(
                        redirections,
                        answers,
                    ).get(other)
                    &&& complaints == complaints_of(redirections, answers)
                },
                Err(_) => {
                    &&& redirects == redirects_of(redirections, answers)
                    &&& complaints.len() == complaints_of(redirections, answers).len() + 1
                    &&& complaints.drop_last() == complaints_of(redirections, answers)
                },
            }
        }),
        redirects_of(Seq::empty(), Seq::empty()) == Map::<Seq<char>, RedirectionConfig>::empty(),
        complaints_of(Seq::empty(), Seq::empty()) == Seq::<Seq<char>>::empty(),
{
    let n = redirections.len() as int;
    assert(redirections.push(redirection).take(n) == redirections);
    assert(answers.push(answer).take(n) == answers);
    if target::target_address(redirection.target@, answer) is Err {
        assert(complaints_of(redirections.push(redirection), answers.push(answer)).drop_last()
            == complaints_of(redirections, answers));
    }
}

/// What a complaint says: the target as it was written, and what is wrong with
/// it. A fault of the host names the host.
pub proof fn what_a_complaint_says(
    redirections: Seq<Redirection>,
    answers: Seq<Answer>,
    redirection: Redirection,
    answer: Answer,
    host: Seq<char>,
    port: Seq<char>,
)
    requires
        answers.len() == redirections.len(),
        redirection.target@ == host + seq![':'] + port,
        !host.contains(':'),
        !port.contains(':'),
        target::target_address(redirection.target@, answer) is Err,
    ensures
        complaints_of(redirections.push(redirection), answers.push(answer)).last()
            == "Error parsing target '"@ + redirection.target@ + "': "@ + (match (
        target::target_address(redirection.target@, answer)->Err_0) {
            target::TargetFault::Format => "Invalid target format (expected host:port)"@,
            target::TargetFault::Port => "Invalid port in target"@,
            target::TargetFault::Lookup(why) => "Failed to resolve '"@ + host + "': "@ + why,
            target::TargetFault::NoIpv4 => "No IPv4 address found for '"@ + host + "'"@,
        }),
{
    let n = redirections.len() as int;
    assert(redirections.push(redirection).take(n) == redirections);
    assert(answers.push(answer).take(n) == answers);
    target::lemma_parts(host, port);
}

/// Text without a colon, or with two, is complained about as no target.
pub proof fn what_is_no_target(
    redirections: Seq<Redirection>,
    answers: Seq<Answer>,
    redirection: Redirection,
    answer: Answer,
)
    requires
        answers.len() == redirections.len(),
        !redirection.target@.contains(':') || exists|i: int, j: int|
            0 <= i < j < redirection.target@.len() && #[trigger] redirection.target@[i] == ':'
                && #[trigger] redirection.target@[j] == ':',
    ensures
        complaints_of(redirections.push(redirection), answers.push(answer)).last()
            == "Error parsing target '"@ + redirection.target@
            + "': "@ + "Invalid target format (expected host:port)"@,
{
    let n = redirections.len() as int;
    assert(redirections.push(redirection).take(n) == redirections);
    assert(answers.push(answer).take(n) == answers);
    target::what_no_target_is(redirection.target@, answer);
}

/// Where blocks are reported, whatever white space stands around server and
/// topic: to the topic on the server, and nowhere where one of them is blank.
pub proof fn where_blocks_are_reported(
    a: Seq<char>,
    server: Seq<char>,
    b: Seq<char>,
    c: Seq<char>,
    topic: Seq<char>,
    d: Seq<char>,
)
    requires
        forall|i: int| 0 <= i < a.len() ==> text::is_white(#[trigger] a[i]),
        forall|i: int| 0 <= i < b.len() ==> text::is_white(#[trigger] b[i]),
        forall|i: int| 0 <= i < c.len() ==> text::is_white(#[trigger] c[i]),
        forall|i: int| 0 <= i < d.len() ==> text::is_white(#[trigger] d[i]),
        server.len() > 0 ==> !text::is_white(server[0]) && !text::is_white(server.last()),
        topic.len() > 0 ==> !text::is_white(topic[0]) && !text::is_white(topic.last()),
    ensures
        server.len() > 0 && topic.len() > 0 ==> ntfy_url_of(a + server + b, c + topic + d) == server
            + seq!['/'] + topic,
        server.len() == 0 || topic.len() == 0 ==> ntfy_url_of(a + server + b, c + topic + d).len()
            == 0,
{
    text::what_trimming_leaves(a, server, b);
    text::what_trimming_leaves(c, topic, d);
    reveal_strlit("/");
    reveal_strlit("");
    assert("/"@ == seq!['/']);
}

/// Listening everywhere means the IPv4 address that is all zeros.
pub proof fn where_everywhere_is(port: u16)
    ensures
        any_address(port).ip == IpAddr::V4(Ipv4Addr { a: 0, b: 0, c: 0, d: 0 }),
        any_address(port).port == port,
        any_address(port).flowinfo == 0,
        any_address(port).scope_id == 0,
{
}

} // verus!
