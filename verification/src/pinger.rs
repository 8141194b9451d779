//! Asking the servers behind the proxy for their status, and remembering it.

use vstd::hash_map::StringHashMap;
use vstd::prelude::*;
use vstd::utf8::*;

use crate::addr::{IpAddr, Ipv4Addr, SocketAddr};
use crate::config_loader::{RedirectionConfig, Settings};
use crate::haproxy;
use crate::haproxy::encode_proxy_protocol_v2_header;
use crate::tables;
use crate::text;
use crate::wire;
use crate::wire::{frame, utf8_string, ByteReader, ReadError};

pub use crate::wire::{read_varint, write_string, write_varint};

verus! {

/// The protocol version that servers are asked with.
pub const PING_PROTOCOL: u32 = 754;

/// Builds the header that a status request to a server begins with.
pub fn build_proxy_protocol_header(src_addr: &SocketAddr, dst_addr: &SocketAddr) -> (r: Vec<u8>)
    requires
        src_addr.ip is V4,
        dst_addr.ip is V4,
    ensures
        r@ == haproxy::header_between(*src_addr, *dst_addr),
{
    encode_proxy_protocol_v2_header(src_addr, dst_addr)
}

/// The payload of a handshake: packet id 0, the protocol version, the address
/// and the port that the client has dialled, and the state it wants to enter.
pub open spec fn handshake_payload(
    server_address: Seq<char>,
    protocol_version: u32,
    port: u16,
    next_state: u32,
) -> Seq<u8> {
    wire::varint_bytes(0) + wire::varint_bytes(protocol_version as nat) + wire::string_bytes(
        server_address,
    ) + wire::be16(port) + wire::varint_bytes(next_state as nat)
}

/// Builds the handshake that announces a status request.
pub fn build_handshake_packet(server_address: &str, protocol_version: u32, port: u16) -> (r: Vec<
    u8,
>)
    ensures
        r@ == wire::frame_bytes(handshake_payload(server_address@, protocol_version, port, 1)),
{
    let mut packet_data: Vec<u8> = Vec::new();
    write_varint(0x00, &mut packet_data);
    write_varint(protocol_version, &mut packet_data);
    write_string(server_address, &mut packet_data);
    assert(port >> 8 == port / 256) by (bit_vector);
    assert(port & 0xFF == port % 256) by (bit_vector);
    packet_data.push((port >> 8) as u8);
    packet_data.push((port & 0xFF) as u8);
    write_varint(1, &mut packet_data);
    assert(packet_data@ == handshake_payload(server_address@, protocol_version, port, 1));
    frame(&packet_data)
}

/// Builds the status request: a packet of nothing but the id 0.
pub fn build_status_request_packet() -> (r: Vec<u8>)
    ensures
        r@ == seq![1u8, 0u8],
{
    let mut data: Vec<u8> = Vec::new();
    write_varint(0x00, &mut data);
    let packet = frame(&data);
    proof {
        assert(wire::varint_bytes(0) == seq![0u8]);
        assert(wire::varint_bytes(1) == seq![1u8]);
        assert(packet@ == seq![1u8, 0u8]);
    }
    packet
}

/// The payload of a status response: packet id 0 and the status as a string.
pub open spec fn status_payload(json: Seq<char>) -> Seq<u8> {
    seq![0u8] + wire::string_bytes(json)
}

/// The status in the payload of a status response.
pub open spec fn status_of(packet: Seq<u8>) -> Result<Seq<char>, ReadError> {
    match wire::varint_value(packet) {
        Err(e) => Err(e),
        Ok(id) => if id != 0 {
            Err(ReadError::WrongPacketId)
        } else {
            let rest = wire::after_varint(packet);
            match wire::varint_at(rest) {
                Err(e) => Err(e),
                Ok((len, n)) => if rest.len() < n + len {
                    Err(ReadError::UnexpectedEof)
                } else {
                    let body = rest.subrange(n as int, n + len);
                    if valid_utf8(body) {
                        Ok(decode_utf8(body))
                    } else {
                        Err(
                            ReadError::InvalidUtf8(
                                text::utf8_fault(body).0,
                                text::utf8_fault(body).1,
                            ),
                        )
                    }
                },
            }
        },
    }
}

/// Reads the status out of the payload of a status response.
pub fn read_status_packet(packet: &[u8]) -> (r: Result<String, ReadError>)
    ensures
        match (r, status_of(packet@)) {
            (Ok(s), Ok(t)) => s@ == t,
            (Err(e), Err(f)) => e == f,
            _ => false,
        },
{
    let mut cursor = ByteReader::new(packet);
    let packet_id = read_varint(&mut cursor)?;
    if packet_id != 0x00 {
        return Err(ReadError::WrongPacketId);
    }
    let ghost rest = cursor@;
    proof {
        wire::lemma_varint_at_bounds(rest);
    }
    let json_length = read_varint(&mut cursor)?;
    match cursor.take(json_length as usize) {
        None => Err(ReadError::UnexpectedEof),
        Some(body) => {
            proof {
                let n = wire::varint_at(rest)->Ok_0.1 as int;
                assert(body@ == rest.subrange(n, n + json_length));
            }
            utf8_string(body)
        },
    }
}

/// The status in what a server has sent: a status response in its frame.
pub open spec fn response_of(stream: Seq<u8>) -> Result<Seq<char>, ReadError> {
    match wire::varint_at(stream) {
        Err(e) => Err(e),
        Ok((len, n)) => if stream.len() < n + len {
            Err(ReadError::UnexpectedEof)
        } else {
            status_of(stream.subrange(n as int, n + len))
        },
    }
}

/// Reads the status out of what a server has sent.
pub fn read_status_response(stream: &[u8]) -> (r: Result<String, ReadError>)
    ensures
        match (r, response_of(stream@)) {
            (Ok(s), Ok(t)) => s@ == t,
            (Err(e), Err(f)) => e == f,
            _ => false,
        },
{
    proof {
        wire::lemma_varint_at_bounds(stream@);
    }
    let mut cursor = ByteReader::new(stream);
    let packet_length = read_varint(&mut cursor)?;
    match cursor.take(packet_length as usize) {
        None => Err(ReadError::UnexpectedEof),
        Some(packet) => {
            proof {
                let n = wire::varint_at(stream@)->Ok_0.1 as int;
                assert(packet@ == stream@.subrange(n, n + packet_length));
            }
            read_status_packet(packet.as_slice())
        },
    }
}

/// How many bytes to wait for before a status response can be read: one while
/// its length is incomplete, then what is missing of it. Nothing is missing of
/// one whose length goes on for too long.
pub open spec fn missing_of(stream: Seq<u8>) -> nat {
    match wire::varint_at(stream) {
        Err(ReadError::VarIntTooLong) => 0,
        Err(_) => 1,
        Ok((len, n)) => if stream.len() < n + len {
            (n + len - stream.len()) as nat
        } else {
            0
        },
    }
}

/// Computes [`missing_of`].
pub fn missing_bytes(stream: &[u8]) -> (r: usize)
    ensures
        r == missing_of(stream@),
{
    proof {
        wire::lemma_varint_at_bounds(stream@);
    }
    let mut cursor = ByteReader::new(stream);
    match read_varint(&mut cursor) {
        Err(ReadError::VarIntTooLong) => 0,
        Err(_) => 1,
        Ok(len) => {
            let have: usize = cursor.remaining();
            let need: usize = len as usize;
            if have < need {
                need - have
            } else {
                0
            }
        },
    }
}

/// Waiting for the missing bytes loses nothing: a response of which nothing is
/// missing is read the same whatever follows it.
pub proof fn complete_response_is_final(stream: Seq<u8>, more: Seq<u8>)
    requires
        missing_of(stream) == 0,
    ensures
        response_of(stream + more) == response_of(stream),
{
    wire::varint_is_stable(stream, more);
    wire::lemma_varint_at_bounds(stream);
    if let Ok((len, n)) = wire::varint_at(stream) {
        assert((stream + more).subrange(n as int, n + len) == stream.subrange(n as int, n + len));
    }
}

/// A status packet says what was put into it: a status whose encoding is
/// shorter than four gibibytes is read back as it was.
pub proof fn status_round_trip(json: Seq<char>)
    requires
        encode_utf8(json).len() < 0x1_0000_0000,
    ensures
        status_of(status_payload(json)) == Ok::<Seq<char>, ReadError>(json),
{
    let body = encode_utf8(json);
    let head = wire::varint_bytes(body.len());
    let packet = status_payload(json);
    assert(wire::varint_bytes(0) == seq![0u8]);
    wire::varint_round_trip(0, wire::string_bytes(json));
    let rest = packet.skip(1);
    assert(rest == wire::string_bytes(json));
    assert(rest == head + body);
    wire::varint_round_trip(body.len() as u32, body);
    assert(rest.subrange(head.len() as int, rest.len() as int) == body);
    encode_utf8_valid_utf8(json);
    encode_utf8_decode_utf8(json);
}

/// A status response says what was put into it, whatever follows it, as long as
/// it is shorter than four gibibytes.
pub proof fn response_round_trip(json: Seq<char>, rest: Seq<u8>)
    requires
        status_payload(json).len() < 0x1_0000_0000,
    ensures
        response_of(wire::frame_bytes(status_payload(json)) + rest) == Ok::<Seq<char>, ReadError>(
            json,
        ),
{
    let payload = status_payload(json);
    let head = wire::varint_bytes(payload.len());
    let all = wire::frame_bytes(payload) + rest;
    assert(all == head + (payload + rest));
    wire::varint_round_trip(payload.len() as u32, payload + rest);
    assert(all.subrange(head.len() as int, (head.len() + payload.len()) as int) == payload);
    status_round_trip(json);
}

// ---------- Asking ----------

/// What a server is sent to ask for its status, from an IPv4 address.
pub open spec fn status_question(
    server_address: Seq<char>,
    local_addr: SocketAddr,
    ip: Ipv4Addr,
    port: u16,
    protocol_version: u32,
) -> Seq<u8> {
    haproxy::v2_header(local_addr.ip->V4_0, local_addr.port, ip, port) + wire::frame_bytes(
        handshake_payload(server_address, protocol_version, port, 1),
    ) + seq![1u8, 0u8]
}

/// What a server is sent to ask for its status: who is asking, a handshake, and
/// the request.
pub fn ping_target(
    server_address: &str,
    local_addr: &SocketAddr,
    ip: Ipv4Addr,
    port: u16,
    protocol_version: u32,
) -> (r: Vec<u8>)
    requires
        local_addr.ip is V4,
    ensures
        r@ == status_question(server_address@, *local_addr, ip, port, protocol_version),
{
    let target_addr = SocketAddr::new(IpAddr::V4(ip), port);
    let mut request = build_proxy_protocol_header(local_addr, &target_addr);
    let mut handshake = build_handshake_packet(server_address, protocol_version, port);
    request.append(&mut handshake);
    let mut status_request = build_status_request_packet();
    request.append(&mut status_request);
    request
}

/// A server to ask for its status.
#[derive(Debug)]
pub struct PingJob {
    pub domain: String,
    pub ip: Ipv4Addr,
    pub port: u16,
    pub protocol_version: u32,
}

/// Whether `jobs` asks the server behind every domain, each once.
pub open spec fn asks_all(jobs: Seq<PingJob>, redirects: Map<Seq<char>, RedirectionConfig>) -> bool {
    &&& forall|i: int, j: int|
        0 <= i < j < jobs.len() ==> (#[trigger] jobs[i]).domain@ != (#[trigger] jobs[j]).domain@
    &&& forall|i: int|
        0 <= i < jobs.len() ==> redirects.contains_key((#[trigger] jobs[i]).domain@) && jobs[i].ip
            == redirects[jobs[i].domain@].ip && jobs[i].port == redirects[jobs[i].domain@].port
            && jobs[i].protocol_version == PING_PROTOCOL
    &&& forall|k: Seq<char>| #[trigger]
        redirects.contains_key(k) ==> exists|i: int|
            0 <= i < jobs.len() && (#[trigger] jobs[i]).domain@ == k
}

/// One round of asking: every server behind a domain.
pub fn background_pinger(settings: &Settings) -> (jobs: Vec<PingJob>)
    ensures
        asks_all(jobs@, settings.redirections@),
{
    let items = settings.redirections.items();
    let mut jobs: Vec<PingJob> = Vec::new();
    let mut i: usize = 0;
    while i < items.len()
        invariant
            i <= items@.len(),
            jobs@.len() == i,
            tables::lists_redirects(items@, settings.redirections@),
            forall|a: int|
                0 <= a < i ==> (#[trigger] jobs@[a]).domain@ == items@[a].0@ && jobs@[a].ip
                    == items@[a].1.ip && jobs@[a].port == items@[a].1.port
                    && jobs@[a].protocol_version == PING_PROTOCOL,
        decreases items@.len() - i,
    {
        let (domain, config) = &items[i];
        jobs.push(
            PingJob {
                domain: domain.clone(),
                ip: config.ip,
                port: config.port,
                protocol_version: PING_PROTOCOL,
            },
        );
        i = i + 1;
    }
    proof {
        assert forall|a: int, b: int| 0 <= a < b < jobs@.len() implies (
        #[trigger] jobs@[a]).domain@ != (#[trigger] jobs@[b]).domain@ by {
            assert(items@[a].0@ != items@[b].0@);
        }
        assert forall|k: Seq<char>| #[trigger]
            settings.redirections@.contains_key(k) implies exists|a: int|
            0 <= a < jobs@.len() && (#[trigger] jobs@[a]).domain@ == k by {
            let a = choose|a: int| 0 <= a < items@.len() && (#[trigger] items@[a]).0@ == k;
            assert(jobs@[a].domain@ == k);
        }
    }
    jobs
}

// ---------- Cache ----------

/// What is known of every domain after a server has answered, or has not.
pub open spec fn with_answer(
    statuses: Map<Seq<char>, Seq<char>>,
    domain: Seq<char>,
    answer: Option<String>,
) -> Map<Seq<char>, Seq<char>> {
    match answer {
        Some(json) => statuses.insert(domain, json@),
        None => statuses,
    }
}

/// The latest status of every domain.
pub struct StatusCache {
    map: StringHashMap<String>,
}

impl View for StatusCache {
    type V = Map<Seq<char>, Seq<char>>;

    closed spec fn view(&self) -> Map<Seq<char>, Seq<char>> {
        self.map@.map_values(|json: String| json@)
    }
}

impl StatusCache {
    /// A cache that knows no status.
    pub fn new() -> (r: StatusCache)
        ensures
            r@ == Map::<Seq<char>, Seq<char>>::empty(),
    {
        let r = StatusCache { map: StringHashMap::new() };
        assert(r@ =~= Map::<Seq<char>, Seq<char>>::empty());
        r
    }

    /// The latest status of a domain.
    pub fn get(&self, domain: &str) -> (r: Option<String>)
        ensures
            match r {
                Some(json) => self@.contains_key(domain@) && json@ == self@[domain@],
                None => !self@.contains_key(domain@),
            },
    {
        match self.map.get(domain) {
            Some(json) => Some(json.clone()),
            None => None,
        }
    }

    /// Notes how a server answered. A failed request leaves the latest status in
    /// place.
    pub fn record(&mut self, domain: &str, answer: Option<String>)
        ensures
            final(self)@ == with_answer(old(self)@, domain@, answer),
    {
        if let Some(json) = answer {
            let ghost text = json@;
            self.map.insert(domain.to_owned(), json);
            assert(self@ =~= old(self)@.insert(domain@, text));
        }
    }
}

// ---------- Laws ----------


/// A handshake byte by byte, for an address and a protocol of ordinary length:
/// the id 0, two bytes of protocol, the length of the address, the address, two
/// bytes of port, most significant first, and the state.
pub proof fn a_handshake_byte_by_byte(
    server_address: Seq<char>,
    protocol: u32,
    port: u16,
    next_state: u32,
)
    requires
        encode_utf8(server_address).len() < 128,
        128 <= protocol < 16384,
        next_state < 128,
    ensures
        handshake_payload(server_address, protocol, port, next_state) == seq![
            0u8,
            (128 + protocol % 128) as u8,
            (protocol / 128) as u8,
            encode_utf8(server_address).len() as u8,
        ] + encode_utf8(server_address) + seq![
            (port / 256) as u8,
            (port % 256) as u8,
            next_state as u8,
        ],
{
    wire::varint_byte_by_byte(0);
    wire::varint_byte_by_byte(protocol);
    wire::varint_byte_by_byte(next_state);
    wire::a_frame_byte_by_byte(Seq::empty(), server_address);
    assert(handshake_payload(server_address, protocol, port, next_state) == seq![
        0u8,
        (128 + protocol % 128) as u8,
        (protocol / 128) as u8,
        encode_utf8(server_address).len() as u8,
    ] + encode_utf8(server_address) + seq![
        (port / 256) as u8,
        (port % 256) as u8,
        next_state as u8,
    ]);
}

/// What a handshake holds, whatever the lengths: the id, the protocol, the
/// address, the port and the state stand one behind the other.
pub proof fn what_a_handshake_holds(
    server_address: Seq<char>,
    protocol: u32,
    port: u16,
    next_state: u32,
)
    ensures
        ({
            let s = handshake_payload(server_address, protocol, port, next_state);
            let p = wire::varint_bytes(protocol as nat);
            let a = wire::string_bytes(server_address);
            let n = wire::varint_bytes(next_state as nat);
            let i = 1 + p.len() as int;
            let j = i + a.len();
            &&& s.len() == j + 2 + n.len()
            &&& s[0] == 0
            &&& s.subrange(1, i) == p
            &&& s.subrange(i, j) == a
            &&& s[j] * 256 + s[j + 1] == port
            &&& s.skip(j + 2) == n
        }),
{
    let s = handshake_payload(server_address, protocol, port, next_state);
    let p = wire::varint_bytes(protocol as nat);
    let a = wire::string_bytes(server_address);
    let n = wire::varint_bytes(next_state as nat);
    let i = 1 + p.len() as int;
    let j = i + a.len();
    wire::varint_byte_by_byte(0);
    assert(s.subrange(1, i) == p);
    assert(s.subrange(i, j) == a);
    assert(s.skip(j + 2) == n);
}

/// A status packet is read for what its numbers say: one with another id is
/// refused, one that announces more bytes than there are is cut short, and of any
/// other exactly the announced bytes are the status, however many they are, if
/// they are UTF-8.
pub proof fn what_a_status_packet_reads_as(id: u32, len: u32, rest: Seq<u8>)
    ensures
        ({
            let read = status_of(
                wire::varint_bytes(id as nat) + (wire::varint_bytes(len as nat) + rest),
            );
            &&& id != 0 ==> read == Err::<Seq<char>, ReadError>(ReadError::WrongPacketId)
            &&& id == 0 && rest.len() < len ==> read == Err::<Seq<char>, ReadError>(
                ReadError::UnexpectedEof,
            )
            &&& id == 0 && rest.len() >= len && valid_utf8(rest.take(len as int)) ==> read == Ok::<
                Seq<char>,
                ReadError,
            >(decode_utf8(rest.take(len as int)))
            &&& id == 0 && rest.len() >= len && !valid_utf8(rest.take(len as int)) ==> read == Err::<
                Seq<char>,
                ReadError,
            >(
                ReadError::InvalidUtf8(
                    text::utf8_fault(rest.take(len as int)).0,
                    text::utf8_fault(rest.take(len as int)).1,
                ),
            )
        }),
{
    let head = wire::varint_bytes(id as nat);
    let next = wire::varint_bytes(len as nat);
    wire::varint_round_trip(id, next + rest);
    assert((head + (next + rest)).skip(head.len() as int) == next + rest);
    wire::varint_round_trip(len, rest);
    if rest.len() >= len {
        assert((next + rest).subrange(next.len() as int, next.len() + len) == rest.take(len as int));
    }
}

/// A response is its length and so many bytes of packet: it is read as just these
/// bytes once they are there, whatever follows, and before that is cut short, with
/// exactly the rest missing. While the length itself is incomplete one byte is
/// missing, and one that does not end is refused.
pub proof fn what_a_response_reads_as(len: u32, rest: Seq<u8>, s: Seq<u8>)
    requires
        forall|i: int| 0 <= i < s.len() ==> #[trigger] s[i] >= 128,
    ensures
        ({
            let stream = wire::varint_bytes(len as nat) + rest;
            &&& rest.len() >= len ==> response_of(stream) == status_of(rest.take(len as int))
                && missing_of(stream) == 0
            &&& rest.len() < len ==> response_of(stream) == Err::<Seq<char>, ReadError>(
                ReadError::UnexpectedEof,
            ) && missing_of(stream) == len - rest.len()
        }),
        s.len() <= 5 ==> missing_of(s) == 1 && response_of(s) == Err::<Seq<char>, ReadError>(
            ReadError::UnexpectedEof,
        ),
        s.len() >= 6 ==> missing_of(s) == 0 && response_of(s) == Err::<Seq<char>, ReadError>(
            ReadError::VarIntTooLong,
        ),
{
    let head = wire::varint_bytes(len as nat);
    wire::varint_round_trip(len, rest);
    wire::numbers_that_do_not_end(s);
    if rest.len() >= len {
        assert((head + rest).subrange(head.len() as int, head.len() + len) == rest.take(len as int));
    }
}

/// Every server is asked once a round, at its own address and port, with the
/// protocol 754, and nothing else is.
pub proof fn every_server_is_asked_once(
    jobs: Seq<PingJob>,
    redirects: Map<Seq<char>, RedirectionConfig>,
    domain: Seq<char>,
)
    requires
        asks_all(jobs, redirects),
    ensures
        redirects.contains_key(domain) <==> exists|i: int|
            0 <= i < jobs.len() && (#[trigger] jobs[i]).domain@ == domain,
        forall|i: int, j: int|
            0 <= i < jobs.len() && 0 <= j < jobs.len() && (#[trigger] jobs[i]).domain@ == domain && (
            #[trigger] jobs[j]).domain@ == domain ==> i == j,
        forall|i: int|
            0 <= i < jobs.len() && (#[trigger] jobs[i]).domain@ == domain ==> jobs[i].ip
                == redirects[domain].ip && jobs[i].port == redirects[domain].port
                && jobs[i].protocol_version == 754,
{
    assert forall|i: int, j: int|
        0 <= i < jobs.len() && 0 <= j < jobs.len() && (#[trigger] jobs[i]).domain@ == domain && (
        #[trigger] jobs[j]).domain@ == domain implies i == j by {
        if i < j {
            assert(jobs[i].domain@ != jobs[j].domain@);
        } else if j < i {
            assert(jobs[j].domain@ != jobs[i].domain@);
        }
    }
}

/// What a server is asked with: a header that names both ends, a handshake that
/// announces a status request with the server's name, port and the protocol, and
/// the request, one behind the other.
pub proof fn what_a_server_is_asked(
    server_address: Seq<char>,
    local: SocketAddr,
    s: Ipv4Addr,
    ip: Ipv4Addr,
    port: u16,
    protocol: u32,
)
    requires
        local.ip == IpAddr::V4(s),
    ensures
        ({
            let asked = status_question(server_address, local, ip, port, protocol);
            let hello = wire::varint_bytes(0) + wire::varint_bytes(protocol as nat)
                + wire::string_bytes(server_address) + seq![
                (port / 256) as u8,
                (port % 256) as u8,
            ] + seq![1u8];
            &&& asked.len() == 28 + wire::frame_bytes(hello).len() + 2
            &&& asked.subrange(16, 20) == seq![s.a, s.b, s.c, s.d]
            &&& asked.subrange(20, 24) == seq![ip.a, ip.b, ip.c, ip.d]
            &&& asked[24] * 256 + asked[25] == local.port
            &&& asked[26] * 256 + asked[27] == port
            &&& asked.subrange(28, asked.len() - 2) == wire::frame_bytes(hello)
            &&& asked[asked.len() - 2] == 1
            &&& asked[asked.len() - 1] == 0
        }),
{
    let asked = status_question(server_address, local, ip, port, protocol);
    let target = SocketAddr { ip: IpAddr::V4(ip), port, flowinfo: 0, scope_id: 0 };
    wire::varint_byte_by_byte(1);
    haproxy::the_header_byte_by_byte(local, target, s, ip);
    let header = haproxy::header_between(local, target);
    let hello = handshake_payload(server_address, protocol, port, 1);
    assert(asked == header + wire::frame_bytes(hello) + seq![1u8, 0u8]);
    assert(asked.subrange(16, 20) == seq![s.a, s.b, s.c, s.d]);
    assert(asked.subrange(20, 24) == seq![ip.a, ip.b, ip.c, ip.d]);
    assert(asked.subrange(28, asked.len() - 2) == wire::frame_bytes(hello));
}

/// An answer replaces what is known of its domain and of no other; no answer
/// leaves everything as it is.
pub proof fn what_an_answer_changes(
    statuses: Map<Seq<char>, Seq<char>>,
    domain: Seq<char>,
    other: Seq<char>,
    json: String,
)
    requires
        other != domain,
    ensures
        with_answer(statuses, domain, Some(json)).get(domain) == Some(json@),
        with_answer(statuses, domain, Some(json)).get(other) == statuses.get(other),
        with_answer(statuses, domain, None) == statuses,
{
}

} // verus!
