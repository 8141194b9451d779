//! Capture of the handshake packet, and the holding area in which a client has
//! to prove itself before it reaches a server.

use vstd::prelude::*;
use vstd::string::*;

use crate::wire;
use crate::wire::{length32, read_varint, write_varint, ByteReader, ReadError};

verus! {

// ---------- Packet headers ----------

/// The length that a packet begins with: the length of what follows, cut to
/// the width of `usize`, and the number of bytes that the length itself takes.
/// Nothing while the length is still incomplete. A sixth byte makes it invalid.
pub open spec fn header_at(s: Seq<u8>) -> Result<Option<(usize, usize)>, CaptureError> {
    let n = wire::continuation_run(s);
    if n >= 5 && s.len() >= 6 {
        Err(CaptureError::LengthTooLong)
    } else if n >= 5 || n == s.len() {
        Ok(None)
    } else {
        Ok(
            Some(
                (
                    (wire::septets_value(s.take(n + 1int)) % (usize::MAX + 1) as nat) as usize,
                    (n + 1) as usize,
                ),
            ),
        )
    }
}

/// Reads the length that a packet begins with.
pub fn try_parse_packet_header(data: &[u8]) -> (r: Result<Option<(usize, usize)>, CaptureError>)
    ensures
        r == header_at(data@),
{
    let mut num_read: usize = 0;
    let mut length: u64 = 0;
    let mut scale: u64 = 1;
    let ghost s = data@;
    assert(s.take(0) == Seq::<u8>::empty());
    while num_read < data.len()
        invariant
            num_read <= 5,
            num_read <= s.len(),
            s == data@,
            forall|i: int| 0 <= i < num_read ==> #[trigger] s[i] >= 128,
            length == wire::septets_value(s.take(num_read as int)),
            length < scale,
            scale == wire::pow128(num_read as nat),
        decreases 6 - num_read,
    {
        proof {
            reveal_with_fuel(wire::pow128, 6);
            wire::lemma_continuation_run(s, num_read as nat);
        }
        if num_read == 5 {
            return Err(CaptureError::LengthTooLong);
        }
        let byte = data[num_read];
        assert((byte & 0x7F) == byte % 128) by (bit_vector);
        assert((byte & 0x80 == 0) == (byte < 128)) by (bit_vector);
        proof {
            wire::lemma_septets_push(s.take(num_read as int), byte);
            assert(s.take(num_read as int).push(byte) == s.take(num_read + 1));
            assert(scale * ((byte % 128) as u64) <= scale * 127) by (nonlinear_arith)
                requires
                    (byte % 128) <= 127,
            ;
        }
        length = length + scale * ((byte & 0x7F) as u64);
        scale = scale * 128;
        num_read = num_read + 1;
        if byte & 0x80 == 0 {
            proof {
                wire::lemma_continuation_run(s, (num_read - 1) as nat);
            }
            let cut: usize = (length as u128 % (usize::MAX as u128 + 1)) as usize;
            return Ok(Some((cut, num_read)));
        }
    }
    proof {
        wire::lemma_continuation_run(s, num_read as nat);
    }
    Ok(None)
}

/// What more bytes do to a header: nothing, once it is complete or invalid.
pub proof fn header_is_stable(s: Seq<u8>, more: Seq<u8>)
    ensures
        header_at(s) matches Ok(Some(h)) ==> header_at(s + more) == Ok::<
            Option<(usize, usize)>,
            CaptureError,
        >(Some(h)),
        header_at(s) is Err ==> header_at(s + more) == header_at(s),
{
    let n = wire::continuation_run(s);
    wire::lemma_run_of_prefix(s, more);
    wire::lemma_continuation_run(s, 0);
    if n < s.len() {
        assert((s + more).take(n + 1int) == s.take(n + 1int));
    }
}

// ---------- Handshake capture ----------

/// Why a packet could not be captured.
#[derive(Clone, Copy, Debug, PartialEq, Eq, Structural)]
pub enum CaptureError {
    LengthTooLong,
    ClosedInHeader,
    ClosedInBody,
    TimedOut,
}

/// The text of a capture error.
pub open spec fn capture_error_text(e: CaptureError) -> Seq<char> {
    match e {
        CaptureError::LengthTooLong => "Handshake length varint too long"@,
        CaptureError::ClosedInHeader => "Client disconnected before handshake finished"@,
        CaptureError::ClosedInBody => "Client disconnected before handshake body finished"@,
        CaptureError::TimedOut => "Timed out waiting for handshake data"@,
    }
}

impl CaptureError {
    /// Says in words what went wrong.
    pub fn message(&self) -> (r: &'static str)
        ensures
            r@ == capture_error_text(*self),
    {
        match self {
            CaptureError::LengthTooLong => "Handshake length varint too long",
            CaptureError::ClosedInHeader => "Client disconnected before handshake finished",
            CaptureError::ClosedInBody => "Client disconnected before handshake body finished",
            CaptureError::TimedOut => "Timed out waiting for handshake data",
        }
    }
}

/// A complete packet at the front of the bytes that a client has sent.
#[derive(Debug)]
pub struct HandshakeCapture {
    buffer: Vec<u8>,
    header_len: usize,
    packet_len: usize,
}

impl HandshakeCapture {
    /// The packet is whole, and its lengths are those that it begins with.
    #[verifier::type_invariant]
    spec fn is_whole(self) -> bool {
        &&& header_at(self.buffer@) == Ok::<Option<(usize, usize)>, CaptureError>(
            Some((self.packet_len, self.header_len)),
        )
        &&& self.header_len + self.packet_len <= self.buffer@.len()
    }

    /// The bytes that the client has sent.
    pub closed spec fn bytes(self) -> Seq<u8> {
        self.buffer@
    }

    /// The length of the packet's length.
    pub closed spec fn header(self) -> usize {
        self.header_len
    }

    /// The length of the packet behind its length.
    pub closed spec fn packet(self) -> usize {
        self.packet_len
    }

    /// The bytes that the client has sent.
    pub fn buffer(&self) -> (r: &[u8])
        ensures
            r@ == self.bytes(),
    {
        self.buffer.as_slice()
    }

    /// The bytes that the client has sent, the length of the packet's length,
    /// and the length of the packet behind it. The bytes hold the whole packet.
    pub fn into_parts(self) -> (r: (Vec<u8>, usize, usize))
        ensures
            r.0@ == self.bytes(),
            r.1 == self.header(),
            r.2 == self.packet(),
            header_at(r.0@) == Ok::<Option<(usize, usize)>, CaptureError>(Some((r.2, r.1))),
            r.1 + r.2 <= r.0@.len(),
    {
        proof {
            use_type_invariant(&self);
        }
        (self.buffer, self.header_len, self.packet_len)
    }

    /// The bytes that the client has sent.
    pub fn into_buffer(self) -> (r: Vec<u8>)
        ensures
            r@ == self.bytes(),
    {
        self.buffer
    }

    /// The packet without its length and without what follows it.
    pub fn payload(&self) -> (r: Vec<u8>)
        ensures
            r@ == self.bytes().subrange(self.header() as int, self.header() + self.packet()),
    {
        proof {
            use_type_invariant(self);
        }
        let all = self.buffer.as_slice();
        let len: usize = all.len();
        assert(len == self.buffer@.len());
        let mut out: Vec<u8> = Vec::new();
        out.extend_from_slice(&all[self.header_len..self.header_len + self.packet_len]);
        out
    }
}

/// How far a capture has come, with the bytes so far.
#[derive(Debug)]
pub enum CaptureStep {
    /// The length is incomplete: one more byte is needed.
    Header(Vec<u8>),
    /// So many bytes of the packet are missing.
    Body(Vec<u8>, usize),
    /// The packet is whole.
    Done(HandshakeCapture),
}

/// Whether `r` is what there is to do once a client has sent the bytes `s`.
pub open spec fn capture_of(s: Seq<u8>, r: Result<CaptureStep, CaptureError>) -> bool {
    match header_at(s) {
        Err(e) => r == Err::<CaptureStep, CaptureError>(e),
        Ok(None) => r matches Ok(CaptureStep::Header(b)) && b@ == s,
        Ok(Some((packet, header))) => if s.len() < header + packet {
            r matches Ok(CaptureStep::Body(b, missing)) && b@ == s && missing == header + packet
                - s.len()
        } else {
            r matches Ok(CaptureStep::Done(c)) && c.bytes() == s && c.header() == header
                && c.packet() == packet
        },
    }
}

/// Decides what there is to do once a client has sent `initial`.
pub fn capture_handshake(initial: Vec<u8>) -> (r: Result<CaptureStep, CaptureError>)
    ensures
        capture_of(initial@, r),
{
    proof {
        wire::lemma_continuation_run(initial@, 0);
    }
    match try_parse_packet_header(initial.as_slice())? {
        None => Ok(CaptureStep::Header(initial)),
        Some((packet_len, header_len)) => {
            let have: usize = initial.len() - header_len;
            if have < packet_len {
                Ok(CaptureStep::Body(initial, packet_len - have))
            } else {
                Ok(CaptureStep::Done(HandshakeCapture { buffer: initial, header_len, packet_len }))
            }
        },
    }
}

/// Whether `r` is what comes of a capture once `chunk` has been read.
pub open spec fn capture_continued(
    step: CaptureStep,
    chunk: Seq<u8>,
    r: Result<CaptureStep, CaptureError>,
) -> bool {
    match step {
        CaptureStep::Header(b) => if chunk.len() == 0 {
            r == Err::<CaptureStep, CaptureError>(CaptureError::ClosedInHeader)
        } else {
            capture_of(b@ + chunk, r)
        },
        CaptureStep::Body(b, _) => if chunk.len() == 0 {
            r == Err::<CaptureStep, CaptureError>(CaptureError::ClosedInBody)
        } else {
            capture_of(b@ + chunk, r)
        },
        CaptureStep::Done(c) => r == Ok::<CaptureStep, CaptureError>(step),
    }
}

/// Goes on with a capture once `chunk` has been read. An empty one means that
/// the client has gone.
pub fn capture_more(step: CaptureStep, chunk: &[u8]) -> (r: Result<CaptureStep, CaptureError>)
    ensures
        capture_continued(step, chunk@, r),
{
    match step {
        CaptureStep::Header(b) => {
            if chunk.len() == 0 {
                return Err(CaptureError::ClosedInHeader);
            }
            let ghost before = b@;
            let mut buffer = b;
            buffer.extend_from_slice(chunk);
            assert(buffer@ == before + chunk@);
            capture_handshake(buffer)
        },
        CaptureStep::Body(b, _) => {
            if chunk.len() == 0 {
                return Err(CaptureError::ClosedInBody);
            }
            let ghost before = b@;
            let mut buffer = b;
            buffer.extend_from_slice(chunk);
            assert(buffer@ == before + chunk@);
            capture_handshake(buffer)
        },
        CaptureStep::Done(_) => Ok(step),
    }
}

/// The most bytes that are read at a time.
pub const READ_CHUNK: usize = 65536;

/// How many bytes a capture waits for, as far as they are read at a time.
pub open spec fn awaited_by(step: CaptureStep) -> usize {
    match step {
        CaptureStep::Header(_) => 1,
        CaptureStep::Body(_, missing) => if missing < READ_CHUNK {
            missing
        } else {
            READ_CHUNK
        },
        CaptureStep::Done(_) => 0,
    }
}

/// How many bytes to read next for a capture: one while the length is
/// incomplete, then what is missing, as far as it is read at a time.
pub fn awaited(step: &CaptureStep) -> (r: usize)
    ensures
        r == awaited_by(*step),
{
    match step {
        CaptureStep::Header(_) => 1,
        CaptureStep::Body(_, missing) => {
            if *missing < READ_CHUNK {
                *missing
            } else {
                READ_CHUNK
            }
        },
        CaptureStep::Done(_) => 0,
    }
}

/// However the bytes of a framed packet arrive, the capture ends once all of
/// them are there and not before, whatever else follows.
pub proof fn capture_ends_with_the_packet(
    payload: Seq<u8>,
    rest: Seq<u8>,
    n: int,
    r: Result<CaptureStep, CaptureError>,
)
    requires
        payload.len() < 0x1_0000_0000,
        payload.len() <= usize::MAX,
        0 <= n <= (wire::frame_bytes(payload) + rest).len(),
        capture_of((wire::frame_bytes(payload) + rest).take(n), r),
    ensures
        n < wire::frame_bytes(payload).len() ==> (r matches Ok(step) && !(step is Done)),
        n >= wire::frame_bytes(payload).len() ==> (r matches Ok(CaptureStep::Done(c))
            && c.bytes().subrange(c.header() as int, c.header() + c.packet()) == payload),
{
    let framed = wire::frame_bytes(payload);
    let head = wire::varint_bytes(payload.len());
    let s = (framed + rest).take(n);
    wire::lemma_varint_length(payload.len());
    assert(wire::low32(payload.len()) == payload.len());
    assert(framed == head + payload);
    if n < head.len() {
        wire::lemma_varint_cut(payload.len(), n);
        assert(s == head.take(n));
        wire::lemma_continuation_run(s, 0);
    } else {
        let after = (payload + rest).take(n - head.len());
        assert(s == head + after);
        wire::lemma_varint_shape(payload.len(), after);
        assert(s.take(head.len() as int) == head);
        vstd::arithmetic::div_mod::lemma_small_mod(payload.len(), (usize::MAX + 1) as nat);
        if n >= framed.len() {
            assert(s.subrange(head.len() as int, framed.len() as int) == payload);
        }
    }
}

// ---------- Packets ----------

/// The VarInt encoding of the low 32 bits of `value`.
pub fn encode_varint(value: usize) -> (r: Vec<u8>)
    ensures
        r@ == wire::varint_bytes(wire::low32(value as nat)),
{
    let mut buf: Vec<u8> = Vec::new();
    write_varint(length32(value), &mut buf);
    buf
}

/// Appends a packet in its frame.
pub fn append_raw_packet(buffer: &mut Vec<u8>, payload: &[u8])
    ensures
        final(buffer)@ == old(buffer)@ + wire::frame_bytes(payload@),
{
    let mut head = encode_varint(payload.len());
    buffer.append(&mut head);
    buffer.extend_from_slice(payload);
}

/// The id of a packet: the number that it begins with, as a signed one.
pub open spec fn packet_id(packet: Seq<u8>) -> Result<i32, ReadError> {
    match wire::varint_value(packet) {
        Ok(v) => Ok(v as i32),
        Err(e) => Err(e),
    }
}

/// Reads the id of a packet.
pub fn read_packet_id(packet: &[u8]) -> (r: Result<i32, ReadError>)
    ensures
        r == packet_id(packet@),
{
    let mut reader = ByteReader::new(packet);
    match read_varint(&mut reader) {
        Ok(v) => Ok(#[verifier::truncate] (v as i32)),
        Err(e) => Err(e),
    }
}

// ---------- Verification ----------

/// A client in the holding area: what it has sent so far, and whether it has
/// announced its login.
#[derive(Debug)]
pub struct LimboSession {
    pub captured: Vec<u8>,
    pub logged_in: bool,
}

/// What happened to a client in the holding area.
#[derive(Debug)]
pub enum LimboEvent {
    /// It sent a packet.
    Packet(Vec<u8>),
    /// The time for what is awaited is over.
    TimeOver,
    /// It can no longer be read from.
    StreamFailed,
}

/// Why a client did not pass.
#[derive(Clone, Copy, Debug, PartialEq, Eq, Structural)]
pub enum LimboError {
    /// It did not announce its login in time.
    TimedOut,
    /// It sent a packet without an id.
    BadPacket(ReadError),
    /// It can no longer be read from.
    StreamFailed,
}

/// The text of the reason why a client did not pass.
pub open spec fn limbo_error_text(e: LimboError) -> Seq<char> {
    match e {
        LimboError::TimedOut => "Timed out waiting for login start during limbo verification"@,
        LimboError::BadPacket(why) => wire::read_error_text(why),
        LimboError::StreamFailed => "Client stream failed during limbo verification"@,
    }
}

impl LimboError {
    /// Says in words what went wrong.
    pub fn message(&self) -> (r: String)
        ensures
            r@ == limbo_error_text(*self),
    {
        match self {
            LimboError::TimedOut =>
                "Timed out waiting for login start during limbo verification".to_owned(),
            LimboError::BadPacket(why) => why.message(),
            LimboError::StreamFailed => "Client stream failed during limbo verification".to_owned(),
        }
    }
}

/// What comes next.
#[derive(Debug)]
pub enum LimboStep {
    /// Wait for the next packet.
    Wait(LimboSession),
    /// The client has passed; these are the bytes it has sent.
    Pass(Vec<u8>),
    /// The client has not passed.
    Fail(LimboError),
}

/// Takes a client into the holding area. The handshake packet is kept; what the
/// client sent behind it is handed back, to be read again as packets.
pub fn verify_client_stream(capture: HandshakeCapture) -> (r: (LimboSession, Vec<u8>))
    ensures
        r.0.captured@ == capture.bytes().take(capture.header() + capture.packet()),
        r.1@ == capture.bytes().skip(capture.header() + capture.packet()),
        !r.0.logged_in,
{
    let (bytes, header_len, packet_len) = capture.into_parts();
    let mut buffer = bytes;
    let len: usize = buffer.len();
    assert(header_len + packet_len <= len);
    let end: usize = header_len + packet_len;
    let trailing = buffer.split_off(end);
    (LimboSession { captured: buffer, logged_in: false }, trailing)
}

/// Waiting for the login: every packet is kept, the first with id zero is the
/// announcement.
pub open spec fn login_step(session: LimboSession, event: LimboEvent, r: LimboStep) -> bool {
    match event {
        LimboEvent::Packet(p) => match packet_id(p@) {
            Ok(id) => r matches LimboStep::Wait(next) && next.captured@ == session.captured@
                + wire::frame_bytes(p@) && next.logged_in == (id == 0),
            Err(e) => r == LimboStep::Fail(LimboError::BadPacket(e)),
        },
        LimboEvent::TimeOver => r == LimboStep::Fail(LimboError::TimedOut),
        LimboEvent::StreamFailed => r == LimboStep::Fail(LimboError::StreamFailed),
    }
}

/// Holding: every packet is kept until the time is over.
pub open spec fn hold_step(session: LimboSession, event: LimboEvent, r: LimboStep) -> bool {
    match event {
        LimboEvent::Packet(p) => r matches LimboStep::Wait(next) && next.captured@
            == session.captured@ + wire::frame_bytes(p@) && next.logged_in,
        LimboEvent::TimeOver => r matches LimboStep::Pass(bytes) && bytes@ == session.captured@,
        LimboEvent::StreamFailed => r == LimboStep::Fail(LimboError::StreamFailed),
    }
}

/// One step of waiting for the login.
pub fn wait_for_login_start(session: LimboSession, event: LimboEvent) -> (r: LimboStep)
    ensures
        login_step(session, event, r),
{
    match event {
        LimboEvent::Packet(p) => {
            let mut captured = session.captured;
            append_raw_packet(&mut captured, p.as_slice());
            match read_packet_id(p.as_slice()) {
                Ok(id) => LimboStep::Wait(LimboSession { captured, logged_in: id == 0 }),
                Err(e) => LimboStep::Fail(LimboError::BadPacket(e)),
            }
        },
        LimboEvent::TimeOver => LimboStep::Fail(LimboError::TimedOut),
        LimboEvent::StreamFailed => LimboStep::Fail(LimboError::StreamFailed),
    }
}

/// One step of holding a client that has announced its login.
pub fn hold_connection(session: LimboSession, event: LimboEvent) -> (r: LimboStep)
    ensures
        hold_step(session, event, r),
{
    match event {
        LimboEvent::Packet(p) => {
            let mut captured = session.captured;
            append_raw_packet(&mut captured, p.as_slice());
            LimboStep::Wait(LimboSession { captured, logged_in: true })
        },
        LimboEvent::TimeOver => LimboStep::Pass(session.captured),
        LimboEvent::StreamFailed => LimboStep::Fail(LimboError::StreamFailed),
    }
}

/// Whether `r` comes next for a client in the holding area.
pub open spec fn limbo_stepped(session: LimboSession, event: LimboEvent, r: LimboStep) -> bool {
    if session.logged_in {
        hold_step(session, event, r)
    } else {
        login_step(session, event, r)
    }
}

/// One step of a client in the holding area.
pub fn limbo_step(session: LimboSession, event: LimboEvent) -> (r: LimboStep)
    ensures
        limbo_stepped(session, event, r),
{
    if session.logged_in {
        hold_connection(session, event)
    } else {
        wait_for_login_start(session, event)
    }
}

/// Which time a client in the holding area is measured by.
#[derive(Clone, Copy, Debug, PartialEq, Eq, Structural)]
pub enum LimboTimer {
    /// The time that it has to announce its login.
    Login,
    /// The time that it is held, which begins now.
    HoldBegins,
    /// The time that it is held, which has begun.
    Hold,
}

/// Decides by which time a client is measured, given whether it had announced
/// its login before the last step and how it stands after it.
pub fn timer_after(was_logged_in: bool, session: &LimboSession) -> (r: LimboTimer)
    ensures
        !session.logged_in ==> r == LimboTimer::Login,
        session.logged_in && !was_logged_in ==> r == LimboTimer::HoldBegins,
        session.logged_in && was_logged_in ==> r == LimboTimer::Hold,
{
    if !session.logged_in {
        LimboTimer::Login
    } else if !was_logged_in {
        LimboTimer::HoldBegins
    } else {
        LimboTimer::Hold
    }
}

/// The wire form of a run of packets.
pub open spec fn framed_all(packets: Seq<Seq<u8>>) -> Seq<u8>
    decreases packets.len(),
{
    if packets.len() == 0 {
        Seq::empty()
    } else {
        framed_all(packets.drop_last()) + wire::frame_bytes(packets.last())
    }
}

/// Whether `sessions` is a run through the holding area: from each session to
/// the next one packet is taken in.
pub open spec fn is_limbo_run(sessions: Seq<LimboSession>, packets: Seq<Vec<u8>>) -> bool {
    &&& sessions.len() == packets.len() + 1
    &&& forall|i: int|
        0 <= i < packets.len() ==> limbo_stepped(
            sessions[i],
            LimboEvent::Packet(#[trigger] packets[i]),
            LimboStep::Wait(sessions[i + 1]),
        )
}

/// Nothing that a client sends while it is held is lost or changed: what is
/// captured in the end is what was captured in the beginning, followed by the
/// packets in their frames, in order.
pub proof fn limbo_keeps_every_packet(sessions: Seq<LimboSession>, packets: Seq<Vec<u8>>)
    requires
        is_limbo_run(sessions, packets),
    ensures
        sessions.last().captured@ == sessions[0].captured@ + framed_all(
            packets.map_values(|p: Vec<u8>| p@),
        ),
    decreases packets.len(),
{
    let views = packets.map_values(|p: Vec<u8>| p@);
    if packets.len() > 0 {
        let n = packets.len() - 1;
        let sessions0 = sessions.drop_last();
        let packets0 = packets.drop_last();
        assert forall|i: int| 0 <= i < packets0.len() implies limbo_stepped(
            sessions0[i],
            LimboEvent::Packet(#[trigger] packets0[i]),
            LimboStep::Wait(sessions0[i + 1]),
        ) by {
            assert(packets0[i] == packets[i]);
        }
        limbo_keeps_every_packet(sessions0, packets0);
        assert(views.drop_last() == packets0.map_values(|p: Vec<u8>| p@));
        assert(packets[n] == packets.last());
        assert(sessions0.last() == sessions[n]);
        assert(views.last() == packets[n]@);
    } else {
        assert(sessions.last() == sessions[0]);
        assert(views == Seq::<Seq<u8>>::empty());
    }
}

// ---------- Reading again ----------

/// Bytes that were read too early and are to be read again before the stream
/// they came from.
pub struct ReplayBuffer {
    buffer: Vec<u8>,
    position: usize,
}

impl View for ReplayBuffer {
    type V = Seq<u8>;

    /// The bytes that are still to be read again.
    closed spec fn view(&self) -> Seq<u8> {
        self.buffer@.skip(self.position as int)
    }
}

impl ReplayBuffer {
    #[verifier::type_invariant]
    spec fn in_bounds(self) -> bool {
        self.position <= self.buffer@.len()
    }

    /// All of `buffer` is to be read again.
    pub fn new(buffer: Vec<u8>) -> (r: ReplayBuffer)
        ensures
            r@ == buffer@,
    {
        assert(buffer@.skip(0) == buffer@);
        ReplayBuffer { buffer, position: 0 }
    }

    /// Reads at most `room` bytes again. Where none are returned, the stream is
    /// next.
    pub fn read_again(&mut self, room: usize) -> (r: Vec<u8>)
        ensures
            r@ == old(self)@.take(
                if room <= old(self)@.len() {
                    room as int
                } else {
                    old(self)@.len() as int
                },
            ),
            old(self)@ == r@ + final(self)@,
    {
        proof {
            use_type_invariant(&*self);
        }
        let ghost s = self@;
        let mut out: Vec<u8> = Vec::new();
        let from: usize = self.position;
        let left: usize = self.buffer.len() - from;
        let to_copy: usize = if left < room {
            left
        } else {
            room
        };
        out.extend_from_slice(&self.buffer.as_slice()[from..from + to_copy]);
        self.position = from + to_copy;
        assert(out@ == s.take(to_copy as int));
        assert(s == out@ + self@);
        out
    }
}

// ---------- Laws ----------


/// A packet's length byte by byte: it ends with the first byte below 128, and
/// the second and third bytes count 128 and 16384 times as much as the first.
/// While it has no end more is needed, and six bytes without one among the first
/// five are refused.
pub proof fn a_header_byte_by_byte(s: Seq<u8>)
    ensures
        s.len() >= 1 && s[0] < 128 ==> header_at(s) == Ok::<Option<(usize, usize)>, CaptureError>(
            Some((s[0] as usize, 1usize)),
        ),
        s.len() >= 2 && s[0] >= 128 && s[1] < 128 ==> header_at(s) == Ok::<
            Option<(usize, usize)>,
            CaptureError,
        >(Some(((s[0] - 128 + 128 * s[1]) as usize, 2usize))),
        s.len() >= 3 && s[0] >= 128 && s[1] >= 128 && s[2] < 128 ==> header_at(s) == Ok::<
            Option<(usize, usize)>,
            CaptureError,
        >(Some(((s[0] - 128 + 128 * (s[1] - 128) + 16384 * s[2]) as usize, 3usize))),
        s.len() <= 5 && (forall|i: int| 0 <= i < s.len() ==> #[trigger] s[i] >= 128)
            ==> header_at(s) == Ok::<Option<(usize, usize)>, CaptureError>(None),
        s.len() >= 6 && (forall|i: int| 0 <= i < 5 ==> #[trigger] s[i] >= 128) ==> header_at(s)
            == Err::<Option<(usize, usize)>, CaptureError>(CaptureError::LengthTooLong),
{
    if s.len() >= 1 && s[0] < 128 {
        lemma_short_header(s, 1);
    } else if s.len() >= 2 && s[0] >= 128 && s[1] < 128 {
        lemma_short_header(s, 2);
    } else if s.len() >= 3 && s[0] >= 128 && s[1] >= 128 && s[2] < 128 {
        lemma_short_header(s, 3);
    }
    if s.len() <= 5 && (forall|i: int| 0 <= i < s.len() ==> #[trigger] s[i] >= 128) {
        wire::lemma_continuation_run(s, s.len());
    }
    if s.len() >= 6 && (forall|i: int| 0 <= i < 5 ==> #[trigger] s[i] >= 128) {
        wire::lemma_continuation_run(s, 5);
    }
}

proof fn lemma_short_header(s: Seq<u8>, n: int)
    requires
        1 <= n <= 3,
        n <= s.len(),
        forall|i: int| 0 <= i < n - 1 ==> #[trigger] s[i] >= 128,
        s[n - 1] < 128,
    ensures
        header_at(s) == Ok::<Option<(usize, usize)>, CaptureError>(
            Some(
                (
                    (if n == 1 {
                        s[0] as int
                    } else if n == 2 {
                        s[0] - 128 + 128 * s[1]
                    } else {
                        s[0] - 128 + 128 * (s[1] - 128) + 16384 * s[2]
                    }) as usize,
                    n as usize,
                ),
            ),
        ),
{
    wire::lemma_continuation_run(s, (n - 1) as nat);
    wire::lemma_few_septets(s.take(n));
    vstd::arithmetic::div_mod::lemma_small_mod(
        wire::septets_value(s.take(n)),
        (usize::MAX + 1) as nat,
    );
}

/// A packet's length is the number that it begins with, for every number that a
/// VarInt can carry and `usize` can hold.
pub proof fn a_header_says_the_length(len: u32, rest: Seq<u8>)
    requires
        len <= usize::MAX,
    ensures
        header_at(wire::varint_bytes(len as nat) + rest) == Ok::<
            Option<(usize, usize)>,
            CaptureError,
        >(Some((len as usize, wire::varint_bytes(len as nat).len() as usize))),
{
    let head = wire::varint_bytes(len as nat);
    wire::lemma_varint_shape(len as nat, rest);
    wire::lemma_varint_length(len as nat);
    assert((head + rest).take(head.len() as int) == head);
    vstd::arithmetic::div_mod::lemma_small_mod(len as nat, (usize::MAX + 1) as nat);
}

/// A capture, in so many words: with a complete length, what is missing of the
/// packet is what the length says less what is there, and a packet of which
/// nothing is missing is captured with all that has been sent. Nothing that has
/// been sent is lost on the way.
pub proof fn how_far_a_capture_is(
    len: u32,
    rest: Seq<u8>,
    s: Seq<u8>,
    r: Result<CaptureStep, CaptureError>,
)
    requires
        len <= usize::MAX,
        forall|i: int| 0 <= i < s.len() ==> #[trigger] s[i] >= 128,
    ensures
        ({
            let head = wire::varint_bytes(len as nat);
            capture_of(head + rest, r) ==> if rest.len() < len {
                r matches Ok(CaptureStep::Body(b, missing)) && b@ == head + rest && missing == len
                    - rest.len()
            } else {
                r matches Ok(CaptureStep::Done(c)) && c.bytes() == head + rest && c.header()
                    == head.len() && c.packet() == len
            }
        }),
        capture_of(s, r) && s.len() <= 5 ==> (r matches Ok(CaptureStep::Header(b)) && b@ == s),
        capture_of(s, r) && s.len() >= 6 ==> r == Err::<CaptureStep, CaptureError>(
            CaptureError::LengthTooLong,
        ),
{
    a_header_says_the_length(len, rest);
    a_header_byte_by_byte(s);
    wire::lemma_varint_length(len as nat);
}

/// A capture goes on by what has been sent in all, however it was cut up. A
/// client that goes away is told apart by whether the length was complete, and a
/// capture that is done stays so.
pub proof fn how_a_capture_goes_on(
    b: Vec<u8>,
    missing: usize,
    c: HandshakeCapture,
    chunk: Seq<u8>,
    r: Result<CaptureStep, CaptureError>,
)
    ensures
        chunk.len() > 0 ==> (capture_continued(CaptureStep::Header(b), chunk, r) <==> capture_of(
            b@ + chunk,
            r,
        )),
        chunk.len() > 0 ==> (capture_continued(CaptureStep::Body(b, missing), chunk, r)
            <==> capture_of(b@ + chunk, r)),
        chunk.len() == 0 && capture_continued(CaptureStep::Header(b), chunk, r) ==> r == Err::<
            CaptureStep,
            CaptureError,
        >(CaptureError::ClosedInHeader),
        chunk.len() == 0 && capture_continued(CaptureStep::Body(b, missing), chunk, r) ==> r
            == Err::<CaptureStep, CaptureError>(CaptureError::ClosedInBody),
        capture_continued(CaptureStep::Done(c), chunk, r) ==> r == Ok::<CaptureStep, CaptureError>(
            CaptureStep::Done(c),
        ),
{
}

/// How much is read at a time: a byte of an incomplete length, then never more
/// than is missing or than 65536 bytes, and never less than the smaller of the
/// two.
pub proof fn how_much_is_read(b: Vec<u8>, missing: usize, c: HandshakeCapture)
    ensures
        awaited_by(CaptureStep::Header(b)) == 1,
        missing <= 65536 ==> awaited_by(CaptureStep::Body(b, missing)) == missing,
        missing > 65536 ==> awaited_by(CaptureStep::Body(b, missing)) == 65536,
        awaited_by(CaptureStep::Done(c)) == 0,
{
}

/// A packet's id is the number that it begins with, as a signed one: numbers from
/// 2 to the power of 31 on count as negative. What is no number is no id, for the
/// same reason.
pub proof fn what_an_id_is(id: u32, rest: Seq<u8>, s: Seq<u8>)
    requires
        forall|i: int| 0 <= i < s.len() ==> #[trigger] s[i] >= 128,
    ensures
        id < 0x8000_0000 ==> packet_id(wire::varint_bytes(id as nat) + rest) == Ok::<i32, ReadError>(
            id as i32,
        ),
        id >= 0x8000_0000 ==> (packet_id(wire::varint_bytes(id as nat) + rest) matches Ok(signed)
            && signed == id - 0x1_0000_0000),
        s.len() <= 5 ==> packet_id(s) == Err::<i32, ReadError>(ReadError::UnexpectedEof),
        s.len() >= 6 ==> packet_id(s) == Err::<i32, ReadError>(ReadError::VarIntTooLong),
{
    wire::varint_round_trip(id, rest);
    wire::numbers_that_do_not_end(s);
    assert(id >= 0x8000_0000 ==> id as i32 == id - 0x1_0000_0000) by (bit_vector);
}

/// A client that has not announced its login: a packet with the id 0 announces
/// it, one with any other id does not, and one without an id fails; each that
/// does not fail is kept. Time running out, or a failing stream, ends it.
pub proof fn waiting_for_the_login(
    session: LimboSession,
    p: Vec<u8>,
    id: u32,
    rest: Seq<u8>,
    r: LimboStep,
)
    requires
        !session.logged_in,
    ensures
        p@ == wire::varint_bytes(id as nat) + rest && limbo_stepped(
            session,
            LimboEvent::Packet(p),
            r,
        ) ==> (r matches LimboStep::Wait(next) && next.captured@ == session.captured@
            + wire::frame_bytes(p@) && (next.logged_in <==> id == 0)),
        p@.len() <= 5 && (forall|i: int| 0 <= i < p@.len() ==> #[trigger] p@[i] >= 128)
            && limbo_stepped(session, LimboEvent::Packet(p), r) ==> r == LimboStep::Fail(
            LimboError::BadPacket(ReadError::UnexpectedEof),
        ),
        p@.len() >= 6 && (forall|i: int| 0 <= i < p@.len() ==> #[trigger] p@[i] >= 128)
            && limbo_stepped(session, LimboEvent::Packet(p), r) ==> r == LimboStep::Fail(
            LimboError::BadPacket(ReadError::VarIntTooLong),
        ),
        limbo_stepped(session, LimboEvent::TimeOver, r) ==> r == LimboStep::Fail(
            LimboError::TimedOut,
        ),
        limbo_stepped(session, LimboEvent::StreamFailed, r) ==> r == LimboStep::Fail(
            LimboError::StreamFailed,
        ),
{
    what_an_id_is(id, rest, Seq::empty());
    if forall|i: int| 0 <= i < p@.len() ==> #[trigger] p@[i] >= 128 {
        what_an_id_is(0, Seq::empty(), p@);
    }
}

/// A client that has announced its login: every packet is kept, whatever it is,
/// and once the time is over the client passes with all that was kept. Only a
/// failing stream keeps it from passing.
pub proof fn waiting_for_the_end(session: LimboSession, p: Vec<u8>, r: LimboStep)
    requires
        session.logged_in,
    ensures
        limbo_stepped(session, LimboEvent::Packet(p), r) ==> (r matches LimboStep::Wait(next)
            && next.captured@ == session.captured@ + wire::frame_bytes(p@) && next.logged_in),
        limbo_stepped(session, LimboEvent::TimeOver, r) ==> (r matches LimboStep::Pass(bytes)
            && bytes@ == session.captured@),
        limbo_stepped(session, LimboEvent::StreamFailed, r) ==> r == LimboStep::Fail(
            LimboError::StreamFailed,
        ),
{
}

/// Nobody passes without a login: along a run through the holding area a client
/// that has not announced its login is one that has sent no packet with the id
/// zero, and once announced, a login stays so.
pub proof fn nobody_passes_without_a_login(sessions: Seq<LimboSession>, packets: Seq<Vec<u8>>)
    requires
        is_limbo_run(sessions, packets),
        !sessions[0].logged_in,
    ensures
        sessions.last().logged_in <==> exists|i: int|
            0 <= i < packets.len() && packet_id(#[trigger] packets[i]@) == Ok::<i32, ReadError>(0),
    decreases packets.len(),
{
    if packets.len() > 0 {
        let n = packets.len() - 1;
        let sessions0 = sessions.drop_last();
        let packets0 = packets.drop_last();
        assert forall|i: int| 0 <= i < packets0.len() implies limbo_stepped(
            sessions0[i],
            LimboEvent::Packet(#[trigger] packets0[i]),
            LimboStep::Wait(sessions0[i + 1]),
        ) by {
            assert(packets0[i] == packets[i]);
        }
        nobody_passes_without_a_login(sessions0, packets0);
        assert(sessions0.last() == sessions[n]);
        assert(limbo_stepped(
            sessions[n],
            LimboEvent::Packet(packets[n]),
            LimboStep::Wait(sessions[n + 1]),
        ));
        if sessions[n].logged_in {
            let i = choose|i: int|
                0 <= i < packets0.len() && packet_id(#[trigger] packets0[i]@) == Ok::<
                    i32,
                    ReadError,
                >(0);
            assert(packet_id(packets[i]@) == Ok::<i32, ReadError>(0));
        }
        if exists|i: int|
            0 <= i < packets.len() && packet_id(#[trigger] packets[i]@) == Ok::<i32, ReadError>(
                0,
            ) {
            let i = choose|i: int|
                0 <= i < packets.len() && packet_id(#[trigger] packets[i]@) == Ok::<
                    i32,
                    ReadError,
                >(0);
            if i < n {
                assert(packet_id(packets0[i]@) == Ok::<i32, ReadError>(0));
            }
        }
        if packet_id(packets[n]@) == Ok::<i32, ReadError>(0) {
            assert(sessions[n + 1].logged_in);
        }
    } else {
        assert(sessions.last() == sessions[0]);
    }
}

/// What is said of a client that did not get through: that it was too late, that
/// it has gone, or what was wrong with its packet.
pub proof fn what_is_said_of_a_failure(why: ReadError)
    ensures
        capture_error_text(CaptureError::LengthTooLong) == "Handshake length varint too long"@,
        capture_error_text(CaptureError::ClosedInHeader)
            == "Client disconnected before handshake finished"@,
        capture_error_text(CaptureError::ClosedInBody)
            == "Client disconnected before handshake body finished"@,
        capture_error_text(CaptureError::TimedOut) == "Timed out waiting for handshake data"@,
        limbo_error_text(LimboError::TimedOut)
            == "Timed out waiting for login start during limbo verification"@,
        limbo_error_text(LimboError::StreamFailed)
            == "Client stream failed during limbo verification"@,
        limbo_error_text(LimboError::BadPacket(why)) == wire::read_error_text(why),
{
}

} // verus!
