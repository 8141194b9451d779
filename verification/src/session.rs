//! What becomes of a client, from its first bytes to a connection with a server.

use vstd::prelude::*;
use vstd::string::*;
use vstd::utf8::*;

use crate::addr;
use crate::addr::{IpAddr, Ipv4Addr, SocketAddr};
use crate::config_loader::{resolve, RedirectionConfig, Settings};
use crate::haproxy;
use crate::haproxy::encapsulate_with_proxy_protocol;
use crate::limbo;
use crate::limbo::{
    capture_handshake, capture_more, limbo_step, verify_client_stream, CaptureStep,
    HandshakeCapture, LimboError, LimboEvent, LimboSession, LimboStep,
};
use crate::pinger;
use crate::pinger::StatusCache;
use crate::proxy;
use crate::proxy::{
    begin_connection, block_ip, check_connection_limit, check_ping_limit, is_ip_blocked, record_ping,
    ProxyState, ProxyView,
};
use crate::status;
use crate::status::{send_fallback_status_response, send_status_response};
use crate::text;
use crate::text::to_ascii_lowercase;
use crate::wire;
use crate::wire::{read_string, read_varint, ByteReader, ReadError};

verus! {

// ---------- Handshakes ----------

/// What the bytes behind a domain in a handshake say: a port, which does not
/// matter, and the state that the client wants to enter.
pub open spec fn next_state_at(s: Seq<u8>) -> Result<u32, ReadError> {
    if s.len() < 2 {
        Err(ReadError::UnexpectedEof)
    } else {
        wire::varint_value(s.skip(2))
    }
}

/// What the bytes from the protocol version on say: the domain in lower case,
/// the state that the client wants to enter, and its protocol version.
pub open spec fn hello_at(s: Seq<u8>) -> Result<(Seq<char>, u32, u32), ReadError> {
    match wire::varint_at(s) {
        Err(e) => Err(e),
        Ok((protocol, n)) => match wire::string_at(s.skip(n as int)) {
            Err(e) => Err(e),
            Ok((domain, m)) => match next_state_at(s.skip(n as int).skip(m as int)) {
                Err(e) => Err(e),
                Ok(next_state) => Ok((text::ascii_lower(domain), next_state, protocol)),
            },
        },
    }
}

/// What a handshake packet says: behind its length and its id, which do not
/// matter, the domain in lower case, the state that the client wants to enter,
/// and its protocol version.
pub open spec fn handshake_of(s: Seq<u8>) -> Result<(Seq<char>, u32, u32), ReadError> {
    match wire::varint_at(s) {
        Err(e) => Err(e),
        Ok((_, n)) => match wire::varint_at(s.skip(n as int)) {
            Err(e) => Err(e),
            Ok((_, m)) => hello_at(s.skip(n as int).skip(m as int)),
        },
    }
}

/// Reads a handshake packet.
pub fn decode_handshake_packet_ext(buffer: &[u8]) -> (r: Result<(String, u32, u32), ReadError>)
    ensures
        match (r, handshake_of(buffer@)) {
            (Ok((domain, next_state, protocol)), Ok((name, next, version))) => domain@ == name
                && next_state == next && protocol == version,
            (Err(e), Err(f)) => e == f,
            _ => false,
        },
{
    let mut cursor = ByteReader::new(buffer);
    match read_varint(&mut cursor) {
        Err(e) => {
            return Err(e);
        },
        Ok(_) => {},
    }
    match read_varint(&mut cursor) {
        Err(e) => {
            return Err(e);
        },
        Ok(_) => {},
    }
    let protocol_version = match read_varint(&mut cursor) {
        Err(e) => {
            return Err(e);
        },
        Ok(v) => v,
    };
    let server_address = match read_string(&mut cursor) {
        Err(e) => {
            return Err(e);
        },
        Ok(s) => to_ascii_lowercase(s.as_str()),
    };
    match cursor.read_u16() {
        Err(e) => {
            return Err(e);
        },
        Ok(_) => {},
    }
    match read_varint(&mut cursor) {
        Err(e) => Err(e),
        Ok(next_state) => Ok((server_address, next_state, protocol_version)),
    }
}

proof fn lemma_next_state(port: u16, next_state: u32, rest: Seq<u8>)
    ensures
        next_state_at(wire::be16(port) + (wire::varint_bytes(next_state as nat) + rest)) == Ok::<
            u32,
            ReadError,
        >(next_state),
{
    let tail = wire::varint_bytes(next_state as nat) + rest;
    assert((wire::be16(port) + tail).skip(2) == tail);
    wire::varint_round_trip(next_state, rest);
}

proof fn lemma_hello(domain: Seq<char>, protocol: u32, port: u16, next_state: u32, rest: Seq<u8>)
    requires
        encode_utf8(domain).len() <= wire::MAX_STRING_LEN,
    ensures
        hello_at(
            wire::varint_bytes(protocol as nat) + (wire::string_bytes(domain) + (wire::be16(port) + (
            wire::varint_bytes(next_state as nat) + rest))),
        ) == Ok::<(Seq<char>, u32, u32), ReadError>(
            (text::ascii_lower(domain), next_state, protocol),
        ),
{
    let version = wire::varint_bytes(protocol as nat);
    let name = wire::string_bytes(domain);
    let after_name = wire::be16(port) + (wire::varint_bytes(next_state as nat) + rest);
    lemma_next_state(port, next_state, rest);
    wire::varint_round_trip(protocol, name + after_name);
    assert((version + (name + after_name)).skip(version.len() as int) == name + after_name);
    wire::string_round_trip(domain, after_name);
    assert((name + after_name).skip(name.len() as int) == after_name);
}

proof fn lemma_regroup(
    a: Seq<u8>,
    b: Seq<u8>,
    c: Seq<u8>,
    d: Seq<u8>,
    e: Seq<u8>,
    rest: Seq<u8>,
)
    ensures
        a + b + c + d + e + rest == a + (b + (c + (d + (e + rest)))),
{
    assert(d + e + rest == d + (e + rest));
    assert(c + d + e + rest == c + (d + (e + rest)));
    assert(b + c + d + e + rest == b + (c + (d + (e + rest))));
}

proof fn lemma_framed_hello(payload: Seq<u8>, rest: Seq<u8>, hello: Seq<u8>)
    requires
        payload + rest == wire::varint_bytes(0) + hello,
    ensures
        handshake_of(wire::frame_bytes(payload) + rest) == hello_at(hello),
{
    let length = wire::low32(payload.len()) as u32;
    let head = wire::varint_bytes(length as nat);
    let id = wire::varint_bytes(0);
    let all = wire::frame_bytes(payload) + rest;
    assert(all == head + (id + hello));
    wire::varint_round_trip(length, id + hello);
    assert((head + (id + hello)).skip(head.len() as int) == id + hello);
    wire::varint_round_trip(0, hello);
    assert((id + hello).skip(id.len() as int) == hello);
}

/// A handshake says what was put into it, but for capitals in the domain, as
/// long as the domain is no longer than a string may be.
pub proof fn handshake_round_trip(
    domain: Seq<char>,
    protocol: u32,
    port: u16,
    next_state: u32,
    rest: Seq<u8>,
)
    requires
        encode_utf8(domain).len() <= wire::MAX_STRING_LEN,
    ensures
        handshake_of(
            wire::frame_bytes(pinger::handshake_payload(domain, protocol, port, next_state)) + rest,
        ) == Ok::<(Seq<char>, u32, u32), ReadError>(
            (text::ascii_lower(domain), next_state, protocol),
        ),
{
    let payload = pinger::handshake_payload(domain, protocol, port, next_state);
    let hello = wire::varint_bytes(protocol as nat) + (wire::string_bytes(domain) + (wire::be16(port)
        + (wire::varint_bytes(next_state as nat) + rest)));
    lemma_regroup(
        wire::varint_bytes(0),
        wire::varint_bytes(protocol as nat),
        wire::string_bytes(domain),
        wire::be16(port),
        wire::varint_bytes(next_state as nat),
        rest,
    );
    lemma_framed_hello(payload, rest, hello);
    lemma_hello(domain, protocol, port, next_state, rest);
}

proof fn lemma_cut_varint(v: u32, rest: Seq<u8>, n: int)
    requires
        0 <= n <= wire::varint_bytes(v as nat).len() + rest.len(),
    ensures
        ({
            let head = wire::varint_bytes(v as nat);
            let s = (head + rest).take(n);
            if n < head.len() {
                wire::varint_at(s) == Err::<(u32, nat), ReadError>(ReadError::UnexpectedEof)
            } else {
                wire::varint_at(s) == Ok::<(u32, nat), ReadError>((v, head.len())) && s.skip(
                    head.len() as int,
                ) == rest.take(n - head.len())
            }
        }),
{
    let head = wire::varint_bytes(v as nat);
    let s = (head + rest).take(n);
    wire::lemma_varint_length(v as nat);
    if n < head.len() {
        wire::lemma_varint_cut(v as nat, n);
        assert(s == head.take(n));
    } else {
        assert(s == head + rest.take(n - head.len()));
        wire::varint_round_trip(v, rest.take(n - head.len()));
        assert(s.skip(head.len() as int) == rest.take(n - head.len()));
    }
}

proof fn lemma_cut_string(text: Seq<char>, rest: Seq<u8>, n: int)
    requires
        encode_utf8(text).len() <= wire::MAX_STRING_LEN,
        0 <= n <= wire::string_bytes(text).len() + rest.len(),
    ensures
        ({
            let whole = wire::string_bytes(text);
            let s = (whole + rest).take(n);
            if n < whole.len() {
                wire::string_at(s) == Err::<(Seq<char>, nat), ReadError>(ReadError::UnexpectedEof)
            } else {
                wire::string_at(s) == Ok::<(Seq<char>, nat), ReadError>((text, whole.len()))
                    && s.skip(whole.len() as int) == rest.take(n - whole.len())
            }
        }),
{
    let body = encode_utf8(text);
    let whole = wire::string_bytes(text);
    let s = (whole + rest).take(n);
    if n < whole.len() {
        assert(s == (wire::varint_bytes(body.len()) + (body + rest)).take(n));
        lemma_cut_varint(body.len() as u32, body + rest, n);
    } else {
        assert(s == whole + rest.take(n - whole.len()));
        wire::string_round_trip(text, rest.take(n - whole.len()));
        assert(s.skip(whole.len() as int) == rest.take(n - whole.len()));
    }
}

proof fn lemma_cut_hello(domain: Seq<char>, protocol: u32, port: u16, next_state: u32, n: int)
    requires
        encode_utf8(domain).len() <= wire::MAX_STRING_LEN,
        0 <= n < wire::varint_bytes(protocol as nat).len() + wire::string_bytes(domain).len() + 2
            + wire::varint_bytes(next_state as nat).len(),
    ensures
        hello_at(
            (wire::varint_bytes(protocol as nat) + (wire::string_bytes(domain) + (wire::be16(port)
                + wire::varint_bytes(next_state as nat)))).take(n),
        ) == Err::<(Seq<char>, u32, u32), ReadError>(ReadError::UnexpectedEof),
{
    let version = wire::varint_bytes(protocol as nat);
    let name = wire::string_bytes(domain);
    let next = wire::varint_bytes(next_state as nat);
    let tail = wire::be16(port) + next;
    lemma_cut_varint(protocol, name + tail, n);
    if n >= version.len() {
        let m = n - version.len();
        lemma_cut_string(domain, tail, m);
        if m >= name.len() {
            let k = m - name.len();
            if k >= 2 {
                assert(tail.take(k).skip(2) == (next + Seq::<u8>::empty()).take(k - 2));
                lemma_cut_varint(next_state, Seq::empty(), k - 2);
            }
        }
    }
}

/// A handshake counts only when it is complete: cut short anywhere, it is
/// refused because bytes are missing.
pub proof fn handshake_cut_short_is_refused(
    domain: Seq<char>,
    protocol: u32,
    port: u16,
    next_state: u32,
    n: int,
)
    requires
        encode_utf8(domain).len() <= wire::MAX_STRING_LEN,
        0 <= n < wire::frame_bytes(
            pinger::handshake_payload(domain, protocol, port, next_state),
        ).len(),
    ensures
        handshake_of(
            wire::frame_bytes(
                pinger::handshake_payload(domain, protocol, port, next_state),
            ).take(n),
        ) == Err::<(Seq<char>, u32, u32), ReadError>(ReadError::UnexpectedEof),
{
    let payload = pinger::handshake_payload(domain, protocol, port, next_state);
    let length = wire::low32(payload.len()) as u32;
    let head = wire::varint_bytes(length as nat);
    let id = wire::varint_bytes(0);
    let next = wire::varint_bytes(next_state as nat);
    let hello = wire::varint_bytes(protocol as nat) + (wire::string_bytes(domain) + (wire::be16(port)
        + next));
    lemma_regroup(
        id,
        wire::varint_bytes(protocol as nat),
        wire::string_bytes(domain),
        wire::be16(port),
        next,
        Seq::empty(),
    );
    assert(next + Seq::<u8>::empty() == next);
    assert(payload + Seq::<u8>::empty() == payload);
    assert(payload == id + hello);
    lemma_cut_varint(length, payload, n);
    if n >= head.len() {
        let m = n - head.len();
        lemma_cut_varint(0, hello, m);
        if m >= id.len() {
            lemma_cut_hello(domain, protocol, port, next_state, m - id.len());
        }
    }
}

// ---------- Blocked clients ----------

/// A client that was not blocked when it connected. Only [`greet`] hands one out.
#[derive(Debug, PartialEq, Eq, Structural)]
pub struct Admitted {
    ip: IpAddr,
}

impl Admitted {
    /// The address of the client.
    pub closed spec fn ip(self) -> IpAddr {
        self.ip
    }
}

/// What to do with a client that has just connected.
#[derive(Debug, PartialEq, Eq, Structural)]
pub enum GreetDecision {
    /// Close the connection without reading or writing a byte.
    Shutdown,
    /// Read its handshake.
    Read(Admitted),
}

/// Whether `r` and `after` are what comes of a client that connects in the state
/// `before`: it is turned away exactly while its address is blocked. A block
/// that has run out is forgotten on the way.
pub open spec fn greeting(
    before: ProxyView,
    ip: IpAddr,
    now: u64,
    r: GreetDecision,
    after: ProxyView,
) -> bool {
    &&& r is Shutdown <==> proxy::is_blocked(before.ips.get(ip.key()), now)
    &&& r matches GreetDecision::Read(admitted) ==> admitted.ip() == ip
    &&& after == proxy::without_spent_block(before, ip.key(), now)
}

/// Decides whether a client is listened to that connects at second `now`.
pub fn greet(state: &mut ProxyState, ip: &IpAddr, now: u64) -> (r: GreetDecision)
    ensures
        greeting(old(state)@, *ip, now, r, final(state)@),
{
    if is_ip_blocked(state, ip, now) {
        GreetDecision::Shutdown
    } else {
        GreetDecision::Read(Admitted { ip: *ip })
    }
}

// ---------- First bytes ----------

/// What reading from a client has brought.
#[derive(Debug)]
pub enum ReadOutcome {
    /// These bytes; none where the client has gone.
    Bytes(Vec<u8>),
    /// An error.
    Failed,
    /// Nothing in time.
    TimedOut,
}

/// What to do with a client whose handshake is still being read.
#[derive(Debug)]
pub enum GreetStep {
    /// Let go of it.
    Drop,
    /// Close the connection.
    Shutdown,
    /// Go on with its handshake.
    Capture(CaptureStep),
}

/// Whether `r` is what there is to do with a client that has sent the bytes
/// `s`: bytes that are no packet close the connection.
pub open spec fn greeted(s: Seq<u8>, r: GreetStep) -> bool {
    match r {
        GreetStep::Drop => false,
        GreetStep::Shutdown => limbo::header_at(s) is Err,
        GreetStep::Capture(step) => limbo::capture_of(s, Ok(step)),
    }
}

/// Whether `r` is what there is to do after the first read from a client: one
/// that has gone is let go of.
pub open spec fn first_heard(outcome: ReadOutcome, r: GreetStep) -> bool {
    match outcome {
        ReadOutcome::Bytes(bytes) => if bytes@.len() == 0 {
            r is Drop
        } else {
            greeted(bytes@, r)
        },
        _ => r is Shutdown,
    }
}

/// Goes on after the first read from a client.
pub fn first_read(outcome: ReadOutcome) -> (r: GreetStep)
    ensures
        first_heard(outcome, r),
{
    match outcome {
        ReadOutcome::Bytes(bytes) => {
            if bytes.len() == 0 {
                return GreetStep::Drop;
            }
            match capture_handshake(bytes) {
                Ok(step) => GreetStep::Capture(step),
                Err(_) => GreetStep::Shutdown,
            }
        },
        _ => GreetStep::Shutdown,
    }
}

/// The bytes that a capture has so far.
pub open spec fn captured_bytes(step: CaptureStep) -> Seq<u8> {
    match step {
        CaptureStep::Header(bytes) => bytes@,
        CaptureStep::Body(bytes, _) => bytes@,
        CaptureStep::Done(capture) => capture.bytes(),
    }
}

/// Whether `r` is what there is to do after another read from a client that had
/// sent `heard`.
pub open spec fn more_heard(heard: Seq<u8>, outcome: ReadOutcome, r: GreetStep) -> bool {
    match outcome {
        ReadOutcome::Bytes(bytes) => if bytes@.len() == 0 {
            r is Shutdown
        } else {
            greeted(heard + bytes@, r)
        },
        _ => r is Shutdown,
    }
}

/// Goes on after another read from a client whose handshake is incomplete.
pub fn next_read(step: CaptureStep, outcome: ReadOutcome) -> (r: GreetStep)
    requires
        !(step is Done),
    ensures
        more_heard(captured_bytes(step), outcome, r),
{
    match outcome {
        ReadOutcome::Bytes(bytes) => match capture_more(step, bytes.as_slice()) {
            Ok(step) => GreetStep::Capture(step),
            Err(_) => GreetStep::Shutdown,
        },
        _ => GreetStep::Shutdown,
    }
}

// ---------- Decisions ----------

/// A client that wants to play, and where.
#[derive(Debug)]
pub struct Login {
    pub domain: String,
    pub config: RedirectionConfig,
    pub protocol: u32,
}

/// What to do with a client.
#[derive(Debug)]
pub enum ClientAction {
    /// It has been blocked: report this, and close the connection.
    Block(String),
    /// Send it this packet, and answer its ping.
    SendStatus(Vec<u8>),
    /// Let go of it.
    Drop,
    /// Hold it, and read these bytes again before anything else.
    Hold(Login, LimboSession, Vec<u8>),
    /// Connect to its server, and begin with these bytes of the client.
    Dial(Login, Vec<u8>),
    /// It did not pass while it was held: close the connection.
    Reject(LimboError),
    /// Close the connection.
    Shutdown,
}

/// What is reported about a handshake that cannot be read.
pub open spec fn bad_handshake_text(ip_text: Seq<char>, error: ReadError) -> Seq<char> {
    "Handshake decoding error from "@ + ip_text + ": "@ + wire::read_error_text(error)
        + ". Mitigating potential attack, blocking ip for 300 secs"@
}

/// What is reported about too many pings or connections.
pub open spec fn flood_text(what: Seq<char>, domain: Seq<char>, ip_text: Seq<char>) -> Seq<char> {
    "Too many incoming "@ + what + " to domain '"@ + domain + "' from IP '"@ + ip_text
        + "' mitigating DoS attack, blocking ip for 300 secs"@
}

fn report_bad_handshake(ip_text: &str, error: ReadError) -> (r: String)
    ensures
        r@ == bad_handshake_text(ip_text@, error),
{
    let mut out = "Handshake decoding error from ".to_owned();
    out.append(ip_text);
    out.append(": ");
    let why = error.message();
    out.append(why.as_str());
    out.append(". Mitigating potential attack, blocking ip for 300 secs");
    out
}

fn report_flood(what: &str, domain: &str, ip_text: &str) -> (r: String)
    ensures
        r@ == flood_text(what@, domain@, ip_text@),
{
    let mut out = "Too many incoming ".to_owned();
    out.append(what);
    out.append(" to domain '");
    out.append(domain);
    out.append("' from IP '");
    out.append(ip_text);
    out.append("' mitigating DoS attack, blocking ip for 300 secs");
    out
}

/// A client that was let in: its address as text, and the second at which its
/// handshake is dealt with.
pub struct Caller {
    pub admitted: Admitted,
    pub ip_text: String,
    pub now: u64,
}

/// Whether `r` sends the status of an unknown domain.
pub open spec fn sends_fallback(r: ClientAction) -> bool {
    r matches ClientAction::SendStatus(packet) && packet@ == wire::frame_bytes(
        pinger::status_payload(status::fallback_json()),
    )
}

/// Whether `r` and `after` are what comes of a status request in the state
/// `before`: a source that asks too often is blocked, any other has pinged and
/// gets the status that is known of the domain.
pub open spec fn status_requested(
    before: ProxyView,
    redirects: Map<Seq<char>, RedirectionConfig>,
    statuses: Map<Seq<char>, Seq<char>>,
    domain: Seq<char>,
    protocol: u32,
    caller: Caller,
    r: ClientAction,
    after: ProxyView,
) -> bool {
    let ip = caller.admitted.ip().key();
    let (allowed, counted) = match redirects.get(domain) {
        Some(config) => proxy::ping_limit_step(
            before,
            domain,
            ip,
            config.max_ping_response_per_second,
            caller.now,
        ),
        None => (true, before),
    };
    if !allowed {
        &&& after == proxy::with_block(counted, ip, caller.now)
        &&& r matches ClientAction::Block(why) && why@ == flood_text(
            "pings"@,
            domain,
            caller.ip_text@,
        )
    } else {
        &&& after == proxy::with_ping(counted, ip)
        &&& match statuses.get(domain) {
            None => sends_fallback(r),
            Some(json) => match status::status_reply(json, protocol) {
                Some(reply) => r matches ClientAction::SendStatus(packet) && packet@ == reply,
                None => r is Drop,
            },
        }
    }
}

/// Deals with a status request.
pub fn answer_status(
    state: &mut ProxyState,
    settings: &Settings,
    cache: &StatusCache,
    domain: &str,
    protocol: u32,
    caller: &Caller,
) -> (r: ClientAction)
    requires
        caller.now + proxy::BLOCK_SECS <= u64::MAX,
    ensures
        status_requested(
            old(state)@,
            settings.redirections@,
            cache@,
            domain@,
            protocol,
            *caller,
            r,
            final(state)@,
        ),
{
    if let Some(config) = resolve(settings, domain) {
        if !check_ping_limit(state, domain, &caller.admitted.ip, &config, caller.now) {
            block_ip(state, &caller.admitted.ip, caller.now);
            return ClientAction::Block(report_flood("pings", domain, caller.ip_text.as_str()));
        }
    }
    record_ping(state, &caller.admitted.ip);
    match cache.get(domain) {
        None => ClientAction::SendStatus(send_fallback_status_response()),
        Some(json) => match send_status_response(json.as_str(), protocol) {
            Some(packet) => ClientAction::SendStatus(packet),
            None => ClientAction::Drop,
        },
    }
}

/// Whether `login` is of a client that wants to play on this domain.
pub open spec fn is_login(
    login: Login,
    domain: Seq<char>,
    config: RedirectionConfig,
    protocol: u32,
) -> bool {
    login.domain@ == domain && login.config == config && login.protocol == protocol
}

/// Whether `r` and `after` are what comes of a login in the state `before`: on
/// an unknown domain the status of one, and otherwise a block for a source that
/// connects too often, and a server for any other, which is held first where
/// `hold` says so.
pub open spec fn login_requested(
    before: ProxyView,
    redirects: Map<Seq<char>, RedirectionConfig>,
    hold: bool,
    domain: Seq<char>,
    protocol: u32,
    capture: HandshakeCapture,
    caller: Caller,
    r: ClientAction,
    after: ProxyView,
) -> bool {
    let ip = caller.admitted.ip().key();
    match redirects.get(domain) {
        None => after == before && sends_fallback(r),
        Some(config) => {
            let (allowed, counted) = proxy::conn_limit_step(
                before,
                domain,
                ip,
                config.max_connections_per_second,
                caller.now,
            );
            let end = capture.header() + capture.packet();
            if !allowed {
                &&& after == proxy::with_block(counted, ip, caller.now)
                &&& r matches ClientAction::Block(why) && why@ == flood_text(
                    "connections"@,
                    domain,
                    caller.ip_text@,
                )
            } else if hold {
                &&& after == counted
                &&& r matches ClientAction::Hold(login, session, again) && is_login(
                    login,
                    domain,
                    config,
                    protocol,
                ) && session.captured@ == capture.bytes().take(end) && !session.logged_in && again@
                    == capture.bytes().skip(end)
            } else {
                &&& after == counted
                &&& r matches ClientAction::Dial(login, bytes) && is_login(
                    login,
                    domain,
                    config,
                    protocol,
                ) && bytes@ == capture.bytes()
            }
        },
    }
}

/// Deals with a login.
pub fn admit_login(
    state: &mut ProxyState,
    settings: &Settings,
    hold: bool,
    domain: String,
    protocol: u32,
    capture: HandshakeCapture,
    caller: &Caller,
) -> (r: ClientAction)
    requires
        caller.now + proxy::BLOCK_SECS <= u64::MAX,
    ensures
        login_requested(
            old(state)@,
            settings.redirections@,
            hold,
            domain@,
            protocol,
            capture,
            *caller,
            r,
            final(state)@,
        ),
{
    match resolve(settings, domain.as_str()) {
        None => ClientAction::SendStatus(send_fallback_status_response()),
        Some(config) => {
            if !check_connection_limit(state, domain.as_str(), &caller.admitted.ip, &config, caller.now) {
                block_ip(state, &caller.admitted.ip, caller.now);
                return ClientAction::Block(
                    report_flood("connections", domain.as_str(), caller.ip_text.as_str()),
                );
            }
            let login = Login { domain, config, protocol };
            if hold {
                let (session, again) = verify_client_stream(capture);
                ClientAction::Hold(login, session, again)
            } else {
                ClientAction::Dial(login, capture.into_buffer())
            }
        },
    }
}

/// Whether `r` and `after` are what comes of a handshake in the state `before`.
pub open spec fn client_handled(
    before: ProxyView,
    redirects: Map<Seq<char>, RedirectionConfig>,
    statuses: Map<Seq<char>, Seq<char>>,
    hold: bool,
    capture: HandshakeCapture,
    caller: Caller,
    r: ClientAction,
    after: ProxyView,
) -> bool {
    match handshake_of(capture.bytes()) {
        Err(e) => {
            &&& after == proxy::with_block(before, caller.admitted.ip().key(), caller.now)
            &&& r matches ClientAction::Block(why) && why@ == bad_handshake_text(caller.ip_text@, e)
        },
        Ok((domain, next_state, protocol)) => if next_state == 1 {
            status_requested(before, redirects, statuses, domain, protocol, caller, r, after)
        } else if next_state == 2 {
            login_requested(before, redirects, hold, domain, protocol, capture, caller, r, after)
        } else {
            after == before && r is Shutdown
        },
    }
}

/// Decides by its handshake what becomes of a client that was let in.
pub fn handle_client(
    state: &mut ProxyState,
    settings: &Settings,
    cache: &StatusCache,
    hold: bool,
    capture: HandshakeCapture,
    caller: &Caller,
) -> (r: ClientAction)
    requires
        caller.now + proxy::BLOCK_SECS <= u64::MAX,
    ensures
        client_handled(
            old(state)@,
            settings.redirections@,
            cache@,
            hold,
            capture,
            *caller,
            r,
            final(state)@,
        ),
{
    match decode_handshake_packet_ext(capture.buffer()) {
        Err(e) => {
            block_ip(state, &caller.admitted.ip, caller.now);
            ClientAction::Block(report_bad_handshake(caller.ip_text.as_str(), e))
        },
        Ok((domain, next_state, protocol)) => {
            if next_state == 1 {
                answer_status(state, settings, cache, domain.as_str(), protocol, caller)
            } else if next_state == 2 {
                admit_login(state, settings, hold, domain, protocol, capture, caller)
            } else {
                ClientAction::Shutdown
            }
        },
    }
}

/// Whether `r` is what there is to do with a client that is being held.
pub open spec fn held_on(
    login: Login,
    session: LimboSession,
    event: LimboEvent,
    r: ClientAction,
) -> bool {
    match r {
        ClientAction::Hold(l, next, again) => l == login && again@.len() == 0
            && limbo::limbo_stepped(session, event, LimboStep::Wait(next)),
        ClientAction::Dial(l, bytes) => l == login && limbo::limbo_stepped(
            session,
            event,
            LimboStep::Pass(bytes),
        ),
        ClientAction::Reject(e) => limbo::limbo_stepped(session, event, LimboStep::Fail(e)),
        _ => false,
    }
}

/// Goes on with a client that is being held.
pub fn verify_with_limbo(login: Login, session: LimboSession, event: LimboEvent) -> (r: ClientAction)
    ensures
        held_on(login, session, event, r),
{
    match limbo_step(session, event) {
        LimboStep::Wait(next) => ClientAction::Hold(login, next, Vec::new()),
        LimboStep::Pass(bytes) => ClientAction::Dial(login, bytes),
        LimboStep::Fail(e) => ClientAction::Reject(e),
    }
}

/// Whether `r` is what a server is sent first: who the client is, then what it
/// has sent, where the addresses at both ends of the connections are known.
pub open spec fn server_greeted(
    ends: Option<(SocketAddr, SocketAddr)>,
    heard: Seq<u8>,
    r: Option<Vec<u8>>,
) -> bool {
    match (ends, r) {
        (Some((src, dst)), Some(bytes)) => bytes@ == haproxy::header_between(src, dst) + heard,
        (None, None) => true,
        _ => false,
    }
}

/// Notes that a client is connected to its server since nanosecond `now`.
/// Returned is what to send to the server first, where the addresses at both
/// ends of the connections are known: who the client is, then what it has sent.
pub fn server_reached(
    state: &mut ProxyState,
    client: &SocketAddr,
    ends: Option<(SocketAddr, SocketAddr)>,
    initial_buffer: &Vec<u8>,
    now: u64,
) -> (r: Option<Vec<u8>>)
    requires
        ends matches Some((src, dst)) ==> src.ip is V4 && dst.ip is V4,
    ensures
        server_greeted(ends, initial_buffer@, r),
        final(state)@ == proxy::with_connection(old(state)@, client.key(), now),
{
    let first = match ends {
        Some((src, dst)) => Some(
            encapsulate_with_proxy_protocol(&src, &dst, initial_buffer.as_slice()),
        ),
        None => None,
    };
    begin_connection(state, client, now);
    first
}

// ---------- Laws ----------

/// A client that is turned away for misbehaving is blocked from then on, for as
/// long as a block lasts.
pub proof fn misbehaviour_is_blocked(
    before: ProxyView,
    redirects: Map<Seq<char>, RedirectionConfig>,
    statuses: Map<Seq<char>, Seq<char>>,
    hold: bool,
    capture: HandshakeCapture,
    caller: Caller,
    r: ClientAction,
    after: ProxyView,
    later: u64,
)
    requires
        caller.now + proxy::BLOCK_SECS <= u64::MAX,
        client_handled(before, redirects, statuses, hold, capture, caller, r, after),
        r is Block,
    ensures
        proxy::is_blocked(after.ips.get(caller.admitted.ip().key()), later) <==> later < caller.now
            + proxy::BLOCK_SECS,
{
    proxy::block_lasts_its_time(caller.now, later);
}

/// A client that has misbehaved is shut out: as long as its block lasts, and
/// whatever happens to others meanwhile, it is turned away when it connects, and
/// that changes nothing.
pub proof fn misbehaviour_shuts_the_client_out(
    before: ProxyView,
    redirects: Map<Seq<char>, RedirectionConfig>,
    statuses: Map<Seq<char>, Seq<char>>,
    hold: bool,
    capture: HandshakeCapture,
    caller: Caller,
    r: ClientAction,
    after: ProxyView,
    later: ProxyView,
    now: u64,
    decision: GreetDecision,
    later_after: ProxyView,
)
    requires
        caller.now + proxy::BLOCK_SECS <= u64::MAX,
        client_handled(before, redirects, statuses, hold, capture, caller, r, after),
        r is Block,
        later.ips.get(caller.admitted.ip().key()) == after.ips.get(caller.admitted.ip().key()),
        now < caller.now + proxy::BLOCK_SECS,
        greeting(later, caller.admitted.ip(), now, decision, later_after),
    ensures
        decision is Shutdown,
        later_after == later,
{
    proxy::block_lasts_its_time(caller.now, now);
}

/// A client affects nobody but itself: the standing and the counters of every
/// other address stay what they were, and so do the connections being
/// forwarded.
pub proof fn clients_do_not_affect_each_other(
    before: ProxyView,
    redirects: Map<Seq<char>, RedirectionConfig>,
    statuses: Map<Seq<char>, Seq<char>>,
    hold: bool,
    capture: HandshakeCapture,
    caller: Caller,
    r: ClientAction,
    after: ProxyView,
    other: IpAddr,
    domain: Seq<char>,
)
    requires
        client_handled(before, redirects, statuses, hold, capture, caller, r, after),
        other != caller.admitted.ip(),
    ensures
        after.ips.get(other.key()) == before.ips.get(other.key()),
        after.pings.get((domain, other.key())) == before.pings.get((domain, other.key())),
        after.conns.get((domain, other.key())) == before.conns.get((domain, other.key())),
        after.active == before.active,
{
    if other.key() == caller.admitted.ip().key() {
        addr::address_keys_are_distinct(other, caller.admitted.ip());
    }
}

/// A client reaches no server but the one behind the domain it has named, and
/// only within that domain's connection limit.
pub proof fn only_named_servers_are_dialled(
    before: ProxyView,
    redirects: Map<Seq<char>, RedirectionConfig>,
    statuses: Map<Seq<char>, Seq<char>>,
    hold: bool,
    capture: HandshakeCapture,
    caller: Caller,
    r: ClientAction,
    after: ProxyView,
)
    requires
        client_handled(before, redirects, statuses, hold, capture, caller, r, after),
    ensures
        r matches ClientAction::Dial(login, _) ==> !hold && redirects.get(login.domain@) == Some(
            login.config,
        ) && proxy::conn_limit_step(
            before,
            login.domain@,
            caller.admitted.ip().key(),
            login.config.max_connections_per_second,
            caller.now,
        ).0,
        r matches ClientAction::Hold(login, _, _) ==> hold && redirects.get(login.domain@) == Some(
            login.config,
        ) && proxy::conn_limit_step(
            before,
            login.domain@,
            caller.admitted.ip().key(),
            login.config.max_connections_per_second,
            caller.now,
        ).0,
{
}

/// Holding a client changes nothing of what its server gets to see: where the
/// packets that were taken in are what the client has sent behind its
/// handshake, the bytes captured in the end are all that the client has sent.
pub proof fn holding_keeps_the_conversation(
    capture: HandshakeCapture,
    more: Seq<u8>,
    sessions: Seq<LimboSession>,
    packets: Seq<Vec<u8>>,
)
    requires
        capture.header() + capture.packet() <= capture.bytes().len(),
        limbo::is_limbo_run(sessions, packets),
        sessions[0].captured@ == capture.bytes().take(capture.header() + capture.packet()),
        limbo::framed_all(packets.map_values(|p: Vec<u8>| p@)) == capture.bytes().skip(
            capture.header() + capture.packet(),
        ) + more,
    ensures
        sessions.last().captured@ == capture.bytes() + more,
{
    limbo::limbo_keeps_every_packet(sessions, packets);
    let end = capture.header() + capture.packet();
    assert(capture.bytes().take(end) + (capture.bytes().skip(end) + more) == capture.bytes() + more);
}

/// A handshake is read by position alone: whatever length and id it begins with
/// and whatever port it names, it says the domain in lower case, the state and
/// the protocol that stand in it. A domain that announces more than 255 bytes
/// makes it unreadable.
pub proof fn what_a_handshake_says(
    length: u32,
    id: u32,
    protocol: u32,
    domain: Seq<char>,
    port: u16,
    next_state: u32,
    rest: Seq<u8>,
    announced: u32,
)
    ensures
        encode_utf8(domain).len() <= 255 ==> handshake_of(
            wire::varint_bytes(length as nat) + (wire::varint_bytes(id as nat) + (
            wire::varint_bytes(protocol as nat) + (wire::string_bytes(domain) + (wire::be16(port) + (
            wire::varint_bytes(next_state as nat) + rest))))),
        ) == Ok::<(Seq<char>, u32, u32), ReadError>(
            (text::ascii_lower(domain), next_state, protocol),
        ),
        announced > 255 ==> handshake_of(
            wire::varint_bytes(length as nat) + (wire::varint_bytes(id as nat) + (
            wire::varint_bytes(protocol as nat) + (wire::varint_bytes(announced as nat) + rest))),
        ) == Err::<(Seq<char>, u32, u32), ReadError>(ReadError::StringTooLong),
{
    let after = wire::varint_bytes(protocol as nat) + (wire::string_bytes(domain) + (wire::be16(
        port,
    ) + (wire::varint_bytes(next_state as nat) + rest)));
    lemma_two_numbers(length, id, after);
    if encode_utf8(domain).len() <= 255 {
        lemma_hello(domain, protocol, port, next_state, rest);
    }
    let version = wire::varint_bytes(protocol as nat);
    let long = wire::varint_bytes(announced as nat) + rest;
    lemma_two_numbers(length, id, version + long);
    wire::varint_round_trip(protocol, long);
    assert((version + long).skip(version.len() as int) == long);
    wire::what_a_string_reads_as(announced, rest);
}

proof fn lemma_two_numbers(length: u32, id: u32, after: Seq<u8>)
    ensures
        handshake_of(
            wire::varint_bytes(length as nat) + (wire::varint_bytes(id as nat) + after),
        ) == hello_at(after),
{
    let head = wire::varint_bytes(length as nat);
    let next = wire::varint_bytes(id as nat);
    wire::varint_round_trip(length, next + after);
    assert((head + (next + after)).skip(head.len() as int) == next + after);
    wire::varint_round_trip(id, after);
    assert((next + after).skip(next.len() as int) == after);
}

/// A handshake of which a number is missing or does not end is refused for that
/// reason, whichever of its first three numbers it is.
pub proof fn a_handshake_needs_its_numbers(length: u32, id: u32, s: Seq<u8>)
    requires
        forall|i: int| 0 <= i < s.len() ==> #[trigger] s[i] >= 128,
    ensures
        ({
            let why = if s.len() <= 5 {
                ReadError::UnexpectedEof
            } else {
                ReadError::VarIntTooLong
            };
            let head = wire::varint_bytes(length as nat);
            let next = wire::varint_bytes(id as nat);
            &&& handshake_of(s) == Err::<(Seq<char>, u32, u32), ReadError>(why)
            &&& handshake_of(head + s) == Err::<(Seq<char>, u32, u32), ReadError>(why)
            &&& handshake_of(head + (next + s)) == Err::<(Seq<char>, u32, u32), ReadError>(why)
        }),
{
    let head = wire::varint_bytes(length as nat);
    wire::numbers_that_do_not_end(s);
    wire::varint_round_trip(length, s);
    assert((head + s).skip(head.len() as int) == s);
    lemma_two_numbers(length, id, s);
}

/// Who is listened to, in so many words: everybody but an address that is listed
/// with standing 0 and an end that has not come. One whose block has ended, or
/// has no end, is no longer listed afterwards; nothing else changes.
pub proof fn who_is_listened_to(
    before: ProxyView,
    ip: IpAddr,
    now: u64,
    r: GreetDecision,
    after: ProxyView,
)
    requires
        greeting(before, ip, now, r, after),
    ensures
        r is Shutdown <==> (before.ips.get(ip.key()) matches Some(info) && info.status == 0 && (
        info.expiry matches Some(end) && now < end)),
        r matches GreetDecision::Read(admitted) ==> admitted.ip() == ip,
        r is Shutdown ==> after == before,
        r is Read ==> (match before.ips.get(ip.key()) {
            Some(info) => if info.status == 0 {
                after.ips == before.ips.remove(ip.key())
            } else {
                after.ips == before.ips
            },
            None => after.ips == before.ips,
        }),
        after.pings == before.pings,
        after.conns == before.conns,
        after.active == before.active,
{
}

/// The first read, in so many words: a client that has gone is let go of, one
/// that cannot be read or says nothing in time is closed, and so is one whose
/// first six bytes are no length. Otherwise its handshake is captured as far as it
/// is there.
pub proof fn what_the_first_read_does(bytes: Vec<u8>, len: u32, rest: Seq<u8>, r: GreetStep)
    requires
        len <= usize::MAX,
    ensures
        first_heard(ReadOutcome::Failed, r) <==> r is Shutdown,
        first_heard(ReadOutcome::TimedOut, r) <==> r is Shutdown,
        bytes@.len() == 0 ==> (first_heard(ReadOutcome::Bytes(bytes), r) <==> r is Drop),
        bytes@.len() >= 6 && (forall|i: int| 0 <= i < bytes@.len() ==> #[trigger] bytes@[i] >= 128)
            && first_heard(ReadOutcome::Bytes(bytes), r) ==> r is Shutdown,
        1 <= bytes@.len() <= 5 && (forall|i: int|
            0 <= i < bytes@.len() ==> #[trigger] bytes@[i] >= 128) && first_heard(
            ReadOutcome::Bytes(bytes),
            r,
        ) ==> (r matches GreetStep::Capture(CaptureStep::Header(b)) && b@ == bytes@),
        bytes@ == wire::varint_bytes(len as nat) + rest && first_heard(
            ReadOutcome::Bytes(bytes),
            r,
        ) ==> is_captured(bytes@, len, rest, r),
{
    lemma_greeted(len, rest, bytes@, r);
    wire::lemma_varint_length(len as nat);
}

/// Whether `r` goes on with a packet of `len` bytes of which `rest` is there.
pub open spec fn is_captured(s: Seq<u8>, len: u32, rest: Seq<u8>, r: GreetStep) -> bool {
    if rest.len() < len {
        r matches GreetStep::Capture(CaptureStep::Body(b, missing)) && b@ == s && missing == len
            - rest.len()
    } else {
        r matches GreetStep::Capture(CaptureStep::Done(c)) && c.bytes() == s && c.packet() == len
    }
}

proof fn lemma_greeted(len: u32, rest: Seq<u8>, s: Seq<u8>, r: GreetStep)
    requires
        len <= usize::MAX,
    ensures
        s == wire::varint_bytes(len as nat) + rest && greeted(s, r) ==> is_captured(
            s,
            len,
            rest,
            r,
        ),
        (forall|i: int| 0 <= i < s.len() ==> #[trigger] s[i] >= 128) && greeted(s, r) ==> if s.len()
            <= 5 {
            r matches GreetStep::Capture(CaptureStep::Header(b)) && b@ == s
        } else {
            r is Shutdown
        },
{
    let none = Seq::<u8>::empty();
    limbo::a_header_says_the_length(len, rest);
    if let GreetStep::Capture(step) = r {
        limbo::how_far_a_capture_is(len, rest, none, Ok(step));
        if forall|i: int| 0 <= i < s.len() ==> #[trigger] s[i] >= 128 {
            limbo::how_far_a_capture_is(len, rest, s, Ok(step));
        }
    }
    limbo::a_header_byte_by_byte(s);
}

/// Any later read, in so many words: a client that has gone, cannot be read or
/// says nothing in time is closed. Otherwise what counts is all that it has sent:
/// as if it had come in one piece.
pub proof fn what_a_later_read_does(heard: Seq<u8>, bytes: Vec<u8>, whole: Vec<u8>, r: GreetStep)
    requires
        whole@ == heard + bytes@,
    ensures
        more_heard(heard, ReadOutcome::Failed, r) <==> r is Shutdown,
        more_heard(heard, ReadOutcome::TimedOut, r) <==> r is Shutdown,
        bytes@.len() == 0 ==> (more_heard(heard, ReadOutcome::Bytes(bytes), r) <==> r is Shutdown),
        bytes@.len() > 0 ==> (more_heard(heard, ReadOutcome::Bytes(bytes), r) <==> first_heard(
            ReadOutcome::Bytes(whole),
            r,
        )),
{
}

/// A handshake that cannot be read costs its sender 300 seconds: that address is
/// listed as blocked until then, whatever it was, the report names it and the
/// reason, and nothing else changes.
pub proof fn a_bad_handshake_costs_a_block(
    before: ProxyView,
    redirects: Map<Seq<char>, RedirectionConfig>,
    statuses: Map<Seq<char>, Seq<char>>,
    hold: bool,
    capture: HandshakeCapture,
    caller: Caller,
    r: ClientAction,
    after: ProxyView,
)
    requires
        caller.now + 300 <= u64::MAX,
        client_handled(before, redirects, statuses, hold, capture, caller, r, after),
        handshake_of(capture.bytes()) is Err,
    ensures
        after.ips == before.ips.insert(
            caller.admitted.ip().key(),
            proxy::IpInfo { status: 0, expiry: Some((caller.now + 300) as u64) },
        ),
        after.pings == before.pings,
        after.conns == before.conns,
        after.active == before.active,
        r matches ClientAction::Block(why) && why@ == "Handshake decoding error from "@
            + caller.ip_text@ + ": "@ + wire::read_error_text(
            handshake_of(capture.bytes())->Err_0,
        ) + ". Mitigating potential attack, blocking ip for 300 secs"@,
{
}

/// A client that wants to enter any state but 1 and 2 is closed, and nothing
/// changes.
pub proof fn other_states_are_closed(
    before: ProxyView,
    redirects: Map<Seq<char>, RedirectionConfig>,
    statuses: Map<Seq<char>, Seq<char>>,
    hold: bool,
    capture: HandshakeCapture,
    caller: Caller,
    r: ClientAction,
    after: ProxyView,
)
    requires
        client_handled(before, redirects, statuses, hold, capture, caller, r, after),
        handshake_of(capture.bytes()) matches Ok((_, state, _)) && state != 1 && state != 2,
    ensures
        r is Shutdown,
        after == before,
{
}

/// A status request, in so many words. With a limit on the domain, the pings of
/// this source in this second decide: from the limit on the source is blocked for
/// 300 seconds and reported. Any other request counts as a ping and gets the status that is
/// known of the domain for the client's protocol, or that of an unknown domain;
/// it is dropped only where the known status cannot be answered with.
pub proof fn what_a_status_request_gets(
    before: ProxyView,
    redirects: Map<Seq<char>, RedirectionConfig>,
    statuses: Map<Seq<char>, Seq<char>>,
    hold: bool,
    capture: HandshakeCapture,
    caller: Caller,
    r: ClientAction,
    after: ProxyView,
    domain: Seq<char>,
    protocol: u32,
)
    requires
        caller.now + 300 <= u64::MAX,
        client_handled(before, redirects, statuses, hold, capture, caller, r, after),
        handshake_of(capture.bytes()) == Ok::<(Seq<char>, u32, u32), ReadError>(
            (domain, 1, protocol),
        ),
    ensures
        ({
            let ip = caller.admitted.ip().key();
            let limit = match redirects.get(domain) {
                Some(config) => config.max_ping_response_per_second,
                None => 0,
            };
            let had = match before.pings.get((domain, ip)) {
                Some(c) => if c.0 == caller.now {
                    c.1 as nat
                } else {
                    0nat
                },
                None => 0nat,
            };
            &&& limit > 0 && had >= limit ==> {
                &&& after.ips == before.ips.insert(
                    ip,
                    proxy::IpInfo { status: 0, expiry: Some((caller.now + 300) as u64) },
                )
                &&& after.pings == before.pings.insert((domain, ip), (caller.now, had as usize))
                &&& r matches ClientAction::Block(why) && why@ == "Too many incoming pings"@
                    + " to domain '"@ + domain + "' from IP '"@ + caller.ip_text@
                    + "' mitigating DoS attack, blocking ip for 300 secs"@
            }
            &&& limit == 0 || had < limit ==> {
                &&& after.ips == before.ips.insert(
                    ip,
                    match before.ips.get(ip) {
                        Some(info) => if info.status == 1 {
                            proxy::IpInfo { status: 2, expiry: None }
                        } else {
                            info
                        },
                        None => proxy::IpInfo { status: 2, expiry: None },
                    },
                )
                &&& after.pings == (if limit == 0 {
                    before.pings
                } else {
                    before.pings.insert((domain, ip), (caller.now, (had + 1) as usize))
                })
                &&& match statuses.get(domain) {
                    None => r matches ClientAction::SendStatus(packet) && packet@
                        == wire::frame_bytes(seq![0u8] + wire::string_bytes(status::fallback_json())),
                    Some(json) => match status::status_reply(json, protocol) {
                        Some(reply) => r matches ClientAction::SendStatus(packet) && packet@ == reply,
                        None => r is Drop,
                    },
                }
            }
            &&& after.conns == before.conns
            &&& after.active == before.active
        }),
{
    reveal_strlit("Too many incoming pings");
    reveal_strlit("Too many incoming ");
    reveal_strlit("pings");
    assert("Too many incoming "@ + "pings"@ == "Too many incoming pings"@);
}

/// A login, in so many words. On a domain without a server it gets the status of
/// an unknown one and nothing changes. With a limit on the domain, the connections
/// of this source in this second, of whatever standing, decide: from the limit on
/// the source is blocked for 300 seconds and reported. Any other client is
/// connected to the domain's server with all that it has sent, or held first, with
/// what stands behind its handshake to be read again.
pub proof fn what_a_login_gets(
    before: ProxyView,
    redirects: Map<Seq<char>, RedirectionConfig>,
    statuses: Map<Seq<char>, Seq<char>>,
    hold: bool,
    capture: HandshakeCapture,
    caller: Caller,
    r: ClientAction,
    after: ProxyView,
    domain: Seq<char>,
    protocol: u32,
)
    requires
        caller.now + 300 <= u64::MAX,
        client_handled(before, redirects, statuses, hold, capture, caller, r, after),
        handshake_of(capture.bytes()) == Ok::<(Seq<char>, u32, u32), ReadError>(
            (domain, 2, protocol),
        ),
    ensures
        redirects.get(domain) is None ==> after == before && (r matches ClientAction::SendStatus(
            packet,
        ) && packet@ == wire::frame_bytes(
            seq![0u8] + wire::string_bytes(status::fallback_json()),
        )),
        redirects.get(domain) matches Some(config) ==> {
            let ip = caller.admitted.ip().key();
            let limit = config.max_connections_per_second;
            let had = match before.conns.get((domain, ip)) {
                Some(c) => if c.0 == caller.now {
                    c.1 + c.2 + c.3 + c.4
                } else {
                    0
                },
                None => 0,
            };
            &&& limit > 0 && had >= limit ==> {
                &&& after.ips == before.ips.insert(
                    ip,
                    proxy::IpInfo { status: 0, expiry: Some((caller.now + 300) as u64) },
                )
                &&& r matches ClientAction::Block(why) && why@ == "Too many incoming connections"@
                    + " to domain '"@ + domain + "' from IP '"@ + caller.ip_text@
                    + "' mitigating DoS attack, blocking ip for 300 secs"@
            }
            &&& limit == 0 || had < limit ==> {
                &&& after.ips == before.ips
                &&& !hold ==> (r matches ClientAction::Dial(login, bytes) && login.domain@ == domain
                    && login.config == config && login.protocol == protocol && bytes@
                    == capture.bytes())
                &&& hold ==> (r matches ClientAction::Hold(login, session, again) && login.domain@
                    == domain && login.config == config && login.protocol == protocol
                    && session.captured@ == capture.bytes().take(capture.header() + capture.packet())
                    && again@ == capture.bytes().skip(capture.header() + capture.packet())
                    && !session.logged_in)
            }
            &&& limit == 0 ==> after.conns == before.conns
            &&& limit > 0 ==> (after.conns.get((domain, ip)) matches Some(c) && c.0 == caller.now
                && c.1 + c.2 + c.3 + c.4 == (if had < limit {
                had + 1
            } else {
                had
            }))
            &&& forall|other: (Seq<char>, (u8, u128))|
                other != (domain, ip) ==> #[trigger] after.conns.get(other) == before.conns.get(other)
            &&& after.pings == before.pings
            &&& after.active == before.active
        },
{
    reveal_strlit("Too many incoming connections");
    reveal_strlit("Too many incoming ");
    reveal_strlit("connections");
    assert("Too many incoming "@ + "connections"@ == "Too many incoming connections"@);
}

/// A client that is held reaches its server once its time is over, if it has
/// announced its login by then, and with all that was kept of it; it is rejected
/// otherwise. Its login is the one that it came with throughout.
pub proof fn what_becomes_of_a_held_client(
    login: Login,
    session: LimboSession,
    p: Vec<u8>,
    r: ClientAction,
)
    ensures
        held_on(login, session, LimboEvent::TimeOver, r) && session.logged_in ==> (
        r matches ClientAction::Dial(l, bytes) && l == login && bytes@ == session.captured@),
        held_on(login, session, LimboEvent::TimeOver, r) && !session.logged_in ==> r
            == ClientAction::Reject(LimboError::TimedOut),
        held_on(login, session, LimboEvent::StreamFailed, r) ==> r == ClientAction::Reject(
            LimboError::StreamFailed,
        ),
        held_on(login, session, LimboEvent::Packet(p), r) && session.logged_in ==> (
        r matches ClientAction::Hold(l, next, again) && l == login && again@.len() == 0
            && next.logged_in && next.captured@ == session.captured@ + wire::frame_bytes(p@)),
        held_on(login, session, LimboEvent::Packet(p), r) && !session.logged_in && p@.len() > 0
            && p@[0] < 128 ==> (r matches ClientAction::Hold(l, next, again) && l == login
            && again@.len() == 0 && (next.logged_in <==> p@[0] == 0) && next.captured@
            == session.captured@ + wire::frame_bytes(p@)),
        held_on(login, session, LimboEvent::Packet(p), r) && !session.logged_in && p@.len() == 0
            ==> r == ClientAction::Reject(LimboError::BadPacket(ReadError::UnexpectedEof)),
{
    wire::reading_byte_by_byte(p@);
    wire::numbers_that_do_not_end(Seq::empty());
    if p@.len() == 0 {
        assert(p@ == Seq::<u8>::empty());
    } else if p@[0] < 128 {
        let v = p@[0] as u32;
        assert((v as i32 == 0) <==> v == 0);
    }
}

/// A server learns who its client is before anything the client has sent: the
/// address and the port of the client stand at fixed places of a header of 28
/// bytes, and everything that the client has sent follows unchanged.
pub proof fn what_a_server_hears_first(
    src: SocketAddr,
    dst: SocketAddr,
    s: Ipv4Addr,
    d: Ipv4Addr,
    heard: Seq<u8>,
    r: Option<Vec<u8>>,
)
    requires
        src.ip == IpAddr::V4(s),
        dst.ip == IpAddr::V4(d),
    ensures
        server_greeted(Some((src, dst)), heard, r) ==> (r matches Some(bytes) && bytes@.len() == 28
            + heard.len() && bytes@.skip(28) == heard && bytes@.subrange(16, 20) == seq![
            s.a,
            s.b,
            s.c,
            s.d,
        ] && bytes@.subrange(20, 24) == seq![d.a, d.b, d.c, d.d] && bytes@[24] * 256 + bytes@[25]
            == src.port && bytes@[26] * 256 + bytes@[27] == dst.port),
        server_greeted(None, heard, r) ==> r is None,
{
    haproxy::the_header_byte_by_byte(src, dst, s, d);
    if server_greeted(Some((src, dst)), heard, r) {
        let bytes = r->0@;
        assert(bytes.skip(28) == heard);
        assert(bytes.subrange(16, 20) == seq![s.a, s.b, s.c, s.d]);
        assert(bytes.subrange(20, 24) == seq![d.a, d.b, d.c, d.d]);
    }
}

} // verus!
