//! Answers to status requests.

use vstd::prelude::*;
use vstd::string::*;

use serde_json::Value;

use crate::pinger;
use crate::text;
use crate::text::push_hex;
use crate::wire;
use crate::wire::{frame, read_varint, write_string, ByteReader, ReadError};

verus! {

// ---------- JSON ----------

/// A JSON document. A number is the text it is printed as.
pub enum JsonTree {
    Null,
    Bool(bool),
    Number(Seq<char>),
    Text(Seq<char>),
    List(Seq<JsonTree>),
    Object(Map<Seq<char>, JsonTree>),
}

/// `serde_json::Value`, a JSON document in memory.
#[verifier::external_type_specification]
#[verifier::external_body]
pub struct ExJsonValue(serde_json::Value);

/// `serde_json::Error`, carried but never looked into.
#[verifier::external_type_specification]
#[verifier::external_body]
pub struct ExJsonError(serde_json::Error);

/// The document that a value holds.
pub uninterp spec fn json_tree(value: Value) -> JsonTree;

/// The document that a text denotes, where it denotes one.
pub uninterp spec fn json_parsed(json: Seq<char>) -> Option<JsonTree>;

/// The text that a document is printed as.
pub uninterp spec fn json_printed(tree: JsonTree) -> Seq<char>;

/// `serde_json::from_str` reads a document. Whether it can, and what it reads,
/// depends on the text alone.
#[verifier::external_body]
fn json_read(json: &str) -> (r: Result<Value, serde_json::Error>)
    ensures
        match r {
            Ok(value) => json_parsed(json@) == Some(json_tree(value)),
            Err(_) => json_parsed(json@) is None,
        },
{
    serde_json::from_str(json)
}

/// `serde_json::to_string` prints a document without spaces. It does not fail
/// on a `Value`, and what it prints depends on the document alone: the members
/// of an object are printed in the order of their names.
#[verifier::external_body]
fn json_print(value: &Value) -> (r: Result<String, serde_json::Error>)
    ensures
        match r {
            Ok(json) => json@ == json_printed(json_tree(*value)),
            Err(_) => false,
        },
{
    serde_json::to_string(value)
}

/// The member of an object under a name, where the document is an object and
/// has one.
pub open spec fn member(tree: JsonTree, name: Seq<char>) -> Option<JsonTree> {
    match tree {
        JsonTree::Object(members) => members.get(name),
        _ => None,
    }
}

/// The document with a member of it replaced or added. A null counts as an
/// object without members.
pub open spec fn with_member(tree: JsonTree, name: Seq<char>, value: JsonTree) -> JsonTree {
    match tree {
        JsonTree::Object(members) => JsonTree::Object(members.insert(name, value)),
        _ => JsonTree::Object(Map::<Seq<char>, JsonTree>::empty().insert(name, value)),
    }
}

/// `Value::get_mut` with a string: the member under that name, if the document
/// is an object that has one. What is written to the member is written to the
/// document.
#[verifier::external_body]
fn json_member<'a>(value: &'a mut Value, name: &str) -> (r: Option<&'a mut Value>)
    ensures
        match r {
            Some(m) => member(json_tree(*old(value)), name@) == Some(json_tree(*m)) && json_tree(
                *final(value),
            ) == with_member(json_tree(*old(value)), name@, json_tree(*final(m))),
            None => member(json_tree(*old(value)), name@) is None && *final(value) == *old(value),
        },
{
    value.get_mut(name)
}

/// Assignment to an index of a `Value`, where the index is a string and the new
/// value a number: the member is replaced or added, and a null becomes an
/// object first. Any other document cannot be indexed so.
#[verifier::external_body]
fn json_set_number(value: &mut Value, name: &str, number: u32)
    requires
        json_tree(*old(value)) is Object || json_tree(*old(value)) is Null,
    ensures
        json_tree(*final(value)) == with_member(
            json_tree(*old(value)),
            name@,
            JsonTree::Number(text::decimal(number as nat)),
        ),
{
    value[name] = Value::from(number);
}

/// `Value::is_object`.
#[verifier::external_body]
fn json_is_object(value: &Value) -> (r: bool)
    ensures
        r == json_tree(*value) is Object,
{
    value.is_object()
}

/// `Value::is_null`.
#[verifier::external_body]
fn json_is_null(value: &Value) -> (r: bool)
    ensures
        r == json_tree(*value) is Null,
{
    value.is_null()
}

// ---------- Protocol versions ----------

/// Whether a status can be given a protocol version: one without version
/// information needs none, any other needs it to be an object or null.
pub open spec fn takes_protocol(status: JsonTree) -> bool {
    match member(status, "version"@) {
        Some(version) => version is Object || version is Null,
        None => true,
    }
}

/// The status with its protocol version replaced. A status without version
/// information stays as it is.
pub open spec fn with_protocol(status: JsonTree, protocol: u32) -> JsonTree {
    match member(status, "version"@) {
        Some(version) => with_member(
            status,
            "version"@,
            with_member(
                version,
                "protocol"@,
                JsonTree::Number(text::decimal(protocol as nat)),
            ),
        ),
        None => status,
    }
}

/// Replaces the protocol version of a status.
pub fn set_protocol(status: &mut Value, client_protocol: u32)
    requires
        takes_protocol(json_tree(*old(status))),
    ensures
        json_tree(*final(status)) == with_protocol(json_tree(*old(status)), client_protocol),
{
    if let Some(version) = json_member(status, "version") {
        json_set_number(version, "protocol", client_protocol);
    }
}

/// Whether [`set_protocol`] may be called on the status.
pub fn can_set_protocol(status: &mut Value) -> (r: bool)
    ensures
        r == takes_protocol(json_tree(*old(status))),
        json_tree(*final(status)) == json_tree(*old(status)),
{
    let r = match json_member(status, "version") {
        Some(version) => json_is_object(version) || json_is_null(version),
        None => true,
    };
    proof {
        if let JsonTree::Object(members) = json_tree(*old(status)) {
            if let Some(version) = members.get("version"@) {
                assert(members.insert("version"@, version) =~= members);
            }
        }
    }
    r
}

/// Why a status could not be adjusted.
#[derive(Clone, Copy, Debug, PartialEq, Eq, Structural)]
pub enum StatusError {
    /// The status is no JSON document.
    NotJson,
}

/// Rewrites a status so that it claims to speak the protocol of the client.
pub fn adjust_status_response_for_client(status_json: &str, client_protocol: u32) -> (r: Result<
    String,
    StatusError,
>)
    requires
        json_parsed(status_json@) matches Some(status) ==> takes_protocol(status),
    ensures
        match json_parsed(status_json@) {
            Some(status) => r matches Ok(json) && json@ == json_printed(
                with_protocol(status, client_protocol),
            ),
            None => r == Err::<String, StatusError>(StatusError::NotJson),
        },
{
    match json_read(status_json) {
        Ok(mut value) => {
            set_protocol(&mut value, client_protocol);
            match json_print(&value) {
                Ok(json) => Ok(json),
                Err(_) => Err(StatusError::NotJson),
            }
        },
        Err(_) => Err(StatusError::NotJson),
    }
}

/// The status as the client is to see it: adjusted to its protocol, or as it is
/// where it is no JSON document. Nothing where it cannot be given a protocol
/// version.
pub fn status_for_client(status_json: &str, client_protocol: u32) -> (r: Option<String>)
    ensures
        match json_parsed(status_json@) {
            Some(status) => if takes_protocol(status) {
                r matches Some(json) && json@ == json_printed(
                    with_protocol(status, client_protocol),
                )
            } else {
                r is None
            },
            None => r matches Some(json) && json@ == status_json@,
        },
{
    if let Ok(mut value) = json_read(status_json) {
        if !can_set_protocol(&mut value) {
            return None;
        }
    }
    match adjust_status_response_for_client(status_json, client_protocol) {
        Ok(json) => Some(json),
        Err(_) => Some(status_json.to_owned()),
    }
}

/// The protocol version is the only thing that changes: a status adjusted twice
/// is the status adjusted to the later protocol, and every member beside the
/// version information stays what it was.
pub proof fn later_protocol_wins(status: JsonTree, first: u32, second: u32, other: Seq<char>)
    requires
        takes_protocol(status),
        other != "version"@,
    ensures
        takes_protocol(with_protocol(status, first)),
        with_protocol(with_protocol(status, first), second) == with_protocol(status, second),
        member(with_protocol(status, first), other) == member(status, other),
{
    match (status, member(status, "version"@)) {
        (JsonTree::Object(members), Some(version)) => {
            let number1 = JsonTree::Number(text::decimal(first as nat));
            let number2 = JsonTree::Number(text::decimal(second as nat));
            let v1 = with_member(version, "protocol"@, number1);
            let v2 = with_member(version, "protocol"@, number2);
            match version {
                JsonTree::Object(vm) => {
                    assert(vm.insert("protocol"@, number1).insert("protocol"@, number2)
                        =~= vm.insert("protocol"@, number2));
                },
                _ => {
                    let none = Map::<Seq<char>, JsonTree>::empty();
                    assert(none.insert("protocol"@, number1).insert("protocol"@, number2)
                        =~= none.insert("protocol"@, number2));
                },
            }
            assert(with_member(v1, "protocol"@, number2) == v2);
            assert(members.insert("version"@, v1).insert("version"@, v2) =~= members.insert(
                "version"@,
                v2,
            ));
        },
        _ => {},
    }
}

// ---------- Packets ----------

/// Builds the packet that carries a status.
pub fn build_status_response(json: &str) -> (r: Vec<u8>)
    ensures
        r@ == wire::frame_bytes(pinger::status_payload(json@)),
{
    let mut resp: Vec<u8> = Vec::new();
    resp.push(0x00);
    write_string(json, &mut resp);
    assert(resp@ == pinger::status_payload(json@));
    frame(&resp)
}

/// The status of a domain that the proxy does not know.
pub open spec fn fallback_json() -> Seq<char> {
    "{\n  \"version\": {\"name\": \"1.21.1\", \"protocol\": 754},\n  \"players\": {\"max\": 0, \"online\": 0, \"sample\": []},\n  \"description\": {\"text\": \"Unknown domain / server not found!\"}\n}"@
}

/// Builds the packet that carries the status of an unknown domain.
pub fn send_fallback_status_response() -> (r: Vec<u8>)
    ensures
        r@ == wire::frame_bytes(pinger::status_payload(fallback_json())),
{
    build_status_response(
        "{\n  \"version\": {\"name\": \"1.21.1\", \"protocol\": 754},\n  \"players\": {\"max\": 0, \"online\": 0, \"sample\": []},\n  \"description\": {\"text\": \"Unknown domain / server not found!\"}\n}",
    )
}

/// The packet that answers a status request with a known status: adjusted to
/// the client, or as it is where it is no JSON document. There is none where the
/// status cannot be given a protocol version.
pub open spec fn status_reply(status_json: Seq<char>, client_protocol: u32) -> Option<Seq<u8>> {
    match json_parsed(status_json) {
        Some(status) => if takes_protocol(status) {
            Some(
                wire::frame_bytes(
                    pinger::status_payload(json_printed(with_protocol(status, client_protocol))),
                ),
            )
        } else {
            None
        },
        None => Some(wire::frame_bytes(pinger::status_payload(status_json))),
    }
}

/// Builds the packet that answers a status request with a known status.
pub fn send_status_response(status_json: &str, client_protocol: u32) -> (r: Option<Vec<u8>>)
    ensures
        match (r, status_reply(status_json@, client_protocol)) {
            (Some(packet), Some(reply)) => packet@ == reply,
            (None, None) => true,
            _ => false,
        },
{
    match status_for_client(status_json, client_protocol) {
        Some(json) => Some(build_status_response(json.as_str())),
        None => None,
    }
}

// ---------- Pings ----------

/// Where the conversation stands after a status has been sent.
pub enum PingOutcome {
    /// More bytes of the client are needed.
    Pending,
    /// The client has pinged with these eight bytes.
    Ping(Seq<u8>),
    /// The client has sent a packet with another id.
    Unexpected(u32),
    /// The client has sent a VarInt that goes on for too long.
    Broken,
}

/// Where the conversation stands once the client has sent `s`: packets that
/// request the status again are passed over until there is a ping.
pub open spec fn ping_outcome(s: Seq<u8>) -> PingOutcome
    decreases s.len(),
{
    proof {
        wire::lemma_varint_at_bounds(s);
        match wire::varint_at(s) {
            Ok((_, n)) => {
                wire::lemma_varint_at_bounds(s.skip(n as int));
            },
            Err(_) => {},
        }
    }
    match wire::varint_at(s) {
        Err(ReadError::VarIntTooLong) => PingOutcome::Broken,
        Err(_) => PingOutcome::Pending,
        Ok((_, n)) => match wire::varint_at(s.skip(n as int)) {
            Err(ReadError::VarIntTooLong) => PingOutcome::Broken,
            Err(_) => PingOutcome::Pending,
            Ok((id, m)) => {
                let rest = s.skip(n as int).skip(m as int);
                if id == 0 {
                    ping_outcome(rest)
                } else if id != 1 {
                    PingOutcome::Unexpected(id)
                } else if rest.len() < 8 {
                    PingOutcome::Pending
                } else {
                    PingOutcome::Ping(rest.take(8))
                }
            },
        },
    }
}

/// Whether nothing is lost by going on from `held` in place of `heard`.
pub open spec fn resumes(held: Seq<u8>, heard: Seq<u8>) -> bool {
    forall|more: Seq<u8>| #[trigger] ping_outcome(held + more) == ping_outcome(heard + more)
}

/// Passing over a packet that requests the status again loses nothing.
proof fn lemma_pass_over(s: Seq<u8>, n: nat, m: nat)
    requires
        wire::varint_at(s) matches Ok((_, k)) && k == n,
        wire::varint_at(s.skip(n as int)) matches Ok((id, k)) && k == m && id == 0,
    ensures
        n + m <= s.len(),
        resumes(s.skip(n as int + m), s),
{
    wire::lemma_varint_at_bounds(s);
    wire::lemma_varint_at_bounds(s.skip(n as int));
    assert forall|more: Seq<u8>| #[trigger]
        ping_outcome(s.skip(n as int + m) + more) == ping_outcome(s + more) by {
        wire::varint_is_stable(s, more);
        wire::varint_is_stable(s.skip(n as int), more);
        assert((s + more).skip(n as int) == s.skip(n as int) + more);
        assert((s + more).skip(n as int).skip(m as int) == s.skip(n as int + m) + more);
    }
}

/// What to do next in a conversation after a status has been sent.
pub enum PingStep {
    /// Read another byte.
    Read,
    /// Send this packet and end the conversation.
    Answer(Vec<u8>),
    /// End the conversation for this reason.
    Fail(String),
}

/// The text that says why a packet was not accepted.
pub open spec fn unexpected_text(packet_id: u32) -> Seq<char> {
    "Unexpected packet in ping: 0x"@ + text::hex_pair_text(packet_id as nat)
}

fn unexpected_packet(packet_id: u32) -> (r: String)
    ensures
        r@ == unexpected_text(packet_id),
{
    let mut out = "Unexpected packet in ping: 0x".to_owned();
    push_hex(&mut out, packet_id);
    out
}

/// The packet that answers a ping: the same eight bytes behind the id 1.
pub open spec fn pong(payload: Seq<u8>) -> Seq<u8> {
    wire::frame_bytes(seq![1u8] + payload)
}

fn build_pong(payload: &Vec<u8>) -> (r: Vec<u8>)
    ensures
        r@ == pong(payload@),
{
    let mut reply: Vec<u8> = Vec::new();
    reply.push(0x01);
    reply.extend_from_slice(payload.as_slice());
    assert(reply@ == seq![1u8] + payload@);
    frame(&reply)
}

/// Whether `r` is the step that follows from where the conversation stands.
pub open spec fn is_ping_step(outcome: PingOutcome, r: PingStep) -> bool {
    match outcome {
        PingOutcome::Pending => r is Read,
        PingOutcome::Ping(payload) => r matches PingStep::Answer(packet) && packet@ == pong(payload),
        PingOutcome::Unexpected(id) => r matches PingStep::Fail(why) && why@ == unexpected_text(id),
        PingOutcome::Broken => r matches PingStep::Fail(why) && why@ == wire::read_error_text(
            ReadError::VarIntTooLong,
        ),
    }
}

/// A conversation after a status has been sent, as far as it matters: the bytes
/// of the client from the packet on that is not complete yet.
pub struct PingSession {
    held: Vec<u8>,
}

impl View for PingSession {
    type V = Seq<u8>;

    closed spec fn view(&self) -> Seq<u8> {
        self.held@
    }
}

impl PingSession {
    /// A conversation in which the client has said nothing yet.
    pub fn new() -> (r: PingSession)
        ensures
            r@ == Seq::<u8>::empty(),
    {
        PingSession { held: Vec::new() }
    }

    /// Takes the next byte of the client.
    pub fn handle_ping(&mut self, byte: u8) -> (r: PingStep)
        ensures
            is_ping_step(ping_outcome(old(self)@.push(byte)), r),
            resumes(final(self)@, old(self)@.push(byte)),
    {
        self.held.push(byte);
        let ghost heard = self@;
        assert(heard == old(self)@.push(byte));
        loop
            invariant
                resumes(self@, heard),
                ping_outcome(heard) == ping_outcome(self@),
                heard == old(self)@.push(byte),
            decreases self@.len(),
        {
            let ghost s = self@;
            proof {
                wire::lemma_varint_at_bounds(s);
            }
            let mut reader = ByteReader::new(self.held.as_slice());
            match read_varint(&mut reader) {
                Err(ReadError::VarIntTooLong) => {
                    return PingStep::Fail(ReadError::VarIntTooLong.message());
                },
                Err(_) => {
                    return PingStep::Read;
                },
                Ok(_) => {},
            }
            let ghost n = wire::varint_at(s)->Ok_0.1;
            proof {
                wire::lemma_varint_at_bounds(s.skip(n as int));
            }
            let packet_id = match read_varint(&mut reader) {
                Err(ReadError::VarIntTooLong) => {
                    return PingStep::Fail(ReadError::VarIntTooLong.message());
                },
                Err(_) => {
                    return PingStep::Read;
                },
                Ok(id) => id,
            };
            let ghost m = wire::varint_at(s.skip(n as int))->Ok_0.1;
            if packet_id == 0x00 {
                let left: usize = reader.remaining();
                let rest = match reader.take(left) {
                    Some(rest) => rest,
                    None => Vec::new(),
                };
                proof {
                    lemma_pass_over(s, n, m);
                    assert(rest@ == s.skip(n as int).skip(m as int));
                    assert(s.skip(n as int).skip(m as int) == s.skip(n as int + m));
                    assert(s + Seq::<u8>::empty() == s);
                    assert(rest@ + Seq::<u8>::empty() == rest@);
                }
                self.held = rest;
            } else if packet_id == 0x01 {
                match reader.take(8) {
                    Some(payload) => {
                        return PingStep::Answer(build_pong(&payload));
                    },
                    None => {
                        return PingStep::Read;
                    },
                }
            } else {
                return PingStep::Fail(unexpected_packet(packet_id));
            }
        }
    }
}

/// Whether `held` is what a session holds after each of the bytes of `s`.
pub open spec fn is_ping_run(held: Seq<Seq<u8>>, s: Seq<u8>) -> bool {
    &&& held.len() == s.len() + 1
    &&& held[0] == Seq::<u8>::empty()
    &&& forall|i: int| 0 <= i < s.len() ==> resumes(#[trigger] held[i + 1], held[i].push(s[i]))
}

/// A conversation goes by everything that the client has said, not by how it
/// was cut up: fed byte by byte, a session takes with the last byte the step
/// that follows from all of them.
pub proof fn ping_goes_by_the_whole_conversation(held: Seq<Seq<u8>>, s: Seq<u8>)
    requires
        is_ping_run(held, s),
    ensures
        resumes(held[s.len() as int], s),
        s.len() > 0 ==> ping_outcome(held[s.len() - 1].push(s.last())) == ping_outcome(s),
    decreases s.len(),
{
    if s.len() == 0 {
        assert(held[0] == s);
    } else {
        let n = s.len() - 1;
        let t = s.drop_last();
        let earlier = held.drop_last();
        assert forall|i: int| 0 <= i < t.len() implies resumes(
            #[trigger] earlier[i + 1],
            earlier[i].push(t[i]),
        ) by {
            assert(resumes(held[i + 1], held[i].push(s[i])));
        }
        ping_goes_by_the_whole_conversation(earlier, t);
        assert(earlier[n] == held[n]);
        let last = seq![s.last()];
        assert(held[n] + last == held[n].push(s.last()));
        assert(t + last == s);
        assert(ping_outcome(held[n] + last) == ping_outcome(t + last));
        assert(resumes(held[n + 1], held[n].push(s[n])));
        assert forall|more: Seq<u8>| #[trigger]
            ping_outcome(held[n + 1] + more) == ping_outcome(s + more) by {
            assert(held[n].push(s[n]) + more == held[n] + (last + more));
            assert(t + (last + more) == s + more);
            assert(ping_outcome(held[n] + (last + more)) == ping_outcome(t + (last + more)));
        }
    }
}

// ---------- Laws ----------


/// A status whose version information is an object or null gets exactly the
/// client's protocol: that number in decimal, whichever it is, becomes the
/// `protocol` of its `version`. Every other member of the version, and of the
/// status, is what it was; a version that was null has no other.
pub proof fn the_client_sees_its_own_protocol(
    members: Map<Seq<char>, JsonTree>,
    protocol: u32,
    name: Seq<char>,
)
    requires
        members.get("version"@) matches Some(version) && (version is Object || version is Null),
    ensures
        ({
            let status = JsonTree::Object(members);
            let adjusted = with_protocol(status, protocol);
            &&& takes_protocol(status)
            &&& adjusted matches JsonTree::Object(after)
            &&& name != "version"@ ==> after.get(name) == members.get(name)
            &&& after.get("version"@) matches Some(JsonTree::Object(told))
            &&& told.get("protocol"@) == Some(JsonTree::Number(text::decimal(protocol as nat)))
            &&& name != "protocol"@ ==> told.get(name) == (match members.get("version"@) {
                Some(JsonTree::Object(was)) => was.get(name),
                _ => None,
            })
        }),
{
    let version = members["version"@];
    let number = JsonTree::Number(text::decimal(protocol as nat));
    let told = with_member(version, "protocol"@, number);
    assert(with_protocol(JsonTree::Object(members), protocol) == JsonTree::Object(
        members.insert("version"@, told),
    ));
    assert(members.insert("version"@, told).get("version"@) == Some(told));
}

/// Version information of any other kind takes no protocol. A status without
/// any, or that is no object at all, takes every protocol and stays as it is.
pub proof fn a_status_without_version_stays(
    status: JsonTree,
    members: Map<Seq<char>, JsonTree>,
    protocol: u32,
)
    ensures
        !(status is Object) ==> takes_protocol(status) && with_protocol(status, protocol) == status,
        members.get("version"@) is None ==> takes_protocol(JsonTree::Object(members))
            && with_protocol(JsonTree::Object(members), protocol) == JsonTree::Object(members),
        (members.get("version"@) matches Some(version) && !(version is Object)
            && !(version is Null)) ==> !takes_protocol(JsonTree::Object(members)),
{
}

/// Two clients are told apart by their protocols alone: the statuses that they
/// see are equal exactly if the protocols are, as long as there is a version to
/// carry them.
pub proof fn protocols_are_told_apart(members: Map<Seq<char>, JsonTree>, one: u32, other: u32)
    requires
        members.get("version"@) matches Some(version) && (version is Object || version is Null),
        with_protocol(JsonTree::Object(members), one) == with_protocol(
            JsonTree::Object(members),
            other,
        ),
    ensures
        one == other,
{
    the_client_sees_its_own_protocol(members, one, "protocol"@);
    the_client_sees_its_own_protocol(members, other, "protocol"@);
    text::lemma_decimal(one as nat);
    text::lemma_decimal(other as nat);
}

/// A status reply is one packet with the id 0 and the text behind it: the text
/// that the server gave where it is no JSON document, the adjusted document
/// where it is one that takes a protocol. Only a document that takes none is
/// not answered.
pub proof fn what_a_status_reply_carries(json: Seq<char>, protocol: u32)
    ensures
        json_parsed(json) is None ==> status_reply(json, protocol) == Some(
            wire::frame_bytes(seq![0u8] + wire::string_bytes(json)),
        ),
        json_parsed(json) matches Some(JsonTree::Object(members)) ==> (match members.get(
            "version"@,
        ) {
            None => status_reply(json, protocol) == Some(
                wire::frame_bytes(
                    seq![0u8] + wire::string_bytes(json_printed(JsonTree::Object(members))),
                ),
            ),
            Some(JsonTree::Object(was)) => status_reply(json, protocol) == Some(
                wire::frame_bytes(
                    seq![0u8] + wire::string_bytes(
                        json_printed(
                            JsonTree::Object(
                                members.insert(
                                    "version"@,
                                    JsonTree::Object(
                                        was.insert(
                                            "protocol"@,
                                            JsonTree::Number(text::decimal(protocol as nat)),
                                        ),
                                    ),
                                ),
                            ),
                        ),
                    ),
                ),
            ),
            Some(JsonTree::Null) => status_reply(json, protocol) == Some(
                wire::frame_bytes(
                    seq![0u8] + wire::string_bytes(
                        json_printed(
                            JsonTree::Object(
                                members.insert(
                                    "version"@,
                                    JsonTree::Object(
                                        map![
                                            "protocol"@ => JsonTree::Number(
                                                text::decimal(protocol as nat),
                                            ),
                                        ],
                                    ),
                                ),
                            ),
                        ),
                    ),
                ),
            ),
            Some(_) => status_reply(json, protocol) is None,
        }),
        (json_parsed(json) matches Some(status) && !(status is Object)) ==> status_reply(
            json,
            protocol,
        ) == Some(
            wire::frame_bytes(
                seq![0u8] + wire::string_bytes(json_printed(json_parsed(json)->0)),
            ),
        ),
{
}

/// What a client says after it has its status, packet by packet, whatever
/// length each announces: a packet with the id 0 is passed over, one with the id
/// 1 pings once its eight bytes are there, and any other is unexpected.
pub proof fn what_a_ping_packet_does(len: u32, id: u32, rest: Seq<u8>)
    ensures
        ({
            let said = wire::varint_bytes(len as nat) + wire::varint_bytes(id as nat) + rest;
            &&& id == 0 ==> ping_outcome(said) == ping_outcome(rest)
            &&& id == 1 && rest.len() >= 8 ==> ping_outcome(said) == PingOutcome::Ping(rest.take(8))
            &&& id == 1 && rest.len() < 8 ==> ping_outcome(said) is Pending
            &&& id >= 2 ==> ping_outcome(said) == PingOutcome::Unexpected(id)
        }),
{
    let head = wire::varint_bytes(len as nat);
    let next = wire::varint_bytes(id as nat);
    let said = head + next + rest;
    assert(said == head + (next + rest));
    wire::varint_round_trip(len, next + rest);
    assert(said.skip(head.len() as int) == next + rest);
    wire::varint_round_trip(id, rest);
    assert((next + rest).skip(next.len() as int) == rest);
}

/// A conversation of which a number is still incomplete goes on, and one with a
/// number that does not end is broken off.
pub proof fn an_unfinished_number_is_waited_for(len: u32, s: Seq<u8>)
    requires
        forall|i: int| 0 <= i < s.len() ==> #[trigger] s[i] >= 128,
    ensures
        s.len() <= 5 ==> ping_outcome(s) is Pending && ping_outcome(
            wire::varint_bytes(len as nat) + s,
        ) is Pending,
        s.len() >= 6 ==> ping_outcome(s) is Broken && ping_outcome(
            wire::varint_bytes(len as nat) + s,
        ) is Broken,
{
    let head = wire::varint_bytes(len as nat);
    wire::numbers_that_do_not_end(s);
    wire::varint_round_trip(len, s);
    assert((head + s).skip(head.len() as int) == s);
}

/// A ping is answered with one packet of nine bytes, the id 1 and the eight
/// bytes of the ping: what an ordinary client sends is sent back to it as it is.
pub proof fn a_ping_is_answered_in_kind(payload: Seq<u8>, r: PingStep)
    requires
        payload.len() == 8,
        is_ping_step(ping_outcome(seq![9u8, 1u8] + payload), r),
    ensures
        r matches PingStep::Answer(packet) && packet@ == seq![9u8, 1u8] + payload,
{
    wire::varint_byte_by_byte(9);
    wire::varint_byte_by_byte(1);
    what_a_ping_packet_does(9, 1, payload);
    assert(seq![9u8] + seq![1u8] + payload == seq![9u8, 1u8] + payload);
    assert(payload.take(8) == payload);
    assert(pong(payload) == seq![9u8, 1u8] + payload);
}

/// What follows from each standing of the conversation: nothing is sent and
/// nothing fails while more is needed, and each failure is told in its own
/// words, an unexpected packet with its id in hexadecimal.
pub proof fn what_each_ping_step_says(high: nat, low: nat, payload: Seq<u8>, r: PingStep)
    requires
        high < 16,
        low < 16,
    ensures
        is_ping_step(PingOutcome::Pending, r) <==> r is Read,
        is_ping_step(PingOutcome::Unexpected((16 * high + low) as u32), r) <==> (
        r matches PingStep::Fail(why) && why@ == "Unexpected packet in ping: 0x"@ + seq![
            "0123456789ABCDEF"@[high as int],
            "0123456789ABCDEF"@[low as int],
        ]),
        is_ping_step(PingOutcome::Broken, r) <==> (r matches PingStep::Fail(why) && why@
            == "VarInt too long"@),
        is_ping_step(PingOutcome::Ping(payload), r) <==> (r matches PingStep::Answer(packet)
            && packet@ == wire::frame_bytes(seq![1u8] + payload)),
{
    text::hexadecimal_digit_by_digit(high, low);
}

} // verus!
