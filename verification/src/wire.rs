//! The wire format: VarInts, length-prefixed strings and packet frames.

use vstd::prelude::*;
use vstd::string::*;
use vstd::utf8::*;

use crate::text;
use crate::text::{push_decimal, string_from_utf8};

verus! {

/// Why bytes could not be read as what was expected of them.
#[derive(Clone, Copy, Debug, PartialEq, Eq, Structural)]
pub enum ReadError {
    /// The bytes end before the value does.
    UnexpectedEof,
    /// A VarInt goes on past its fifth byte.
    VarIntTooLong,
    /// A string announces more bytes than a string may have.
    StringTooLong,
    /// The bytes of a string are not UTF-8: how many bytes at the front are, and
    /// how long the bad sequence after them is, where it is not just cut short.
    InvalidUtf8(usize, Option<usize>),
    /// A status response does not carry the status packet id.
    WrongPacketId,
}

/// The text of a read error.
pub open spec fn read_error_text(e: ReadError) -> Seq<char> {
    match e {
        ReadError::UnexpectedEof => "failed to fill whole buffer"@,
        ReadError::VarIntTooLong => "VarInt too long"@,
        ReadError::StringTooLong => "String too long"@,
        ReadError::InvalidUtf8(at, Some(n)) => "invalid utf-8 sequence of "@ + text::decimal(n as nat)
            + " bytes from index "@ + text::decimal(at as nat),
        ReadError::InvalidUtf8(at, None) => "incomplete utf-8 byte sequence from index "@ + text::decimal(
            at as nat,
        ),
        ReadError::WrongPacketId => "Invalid packet id in status response"@,
    }
}

impl ReadError {
    /// Says in words what went wrong.
    pub fn message(&self) -> (r: String)
        ensures
            r@ == read_error_text(*self),
    {
        match self {
            ReadError::UnexpectedEof => "failed to fill whole buffer".to_owned(),
            ReadError::VarIntTooLong => "VarInt too long".to_owned(),
            ReadError::StringTooLong => "String too long".to_owned(),
            ReadError::InvalidUtf8(at, Some(n)) => {
                let mut out = "invalid utf-8 sequence of ".to_owned();
                push_decimal(&mut out, *n as u64);
                out.append(" bytes from index ");
                push_decimal(&mut out, *at as u64);
                out
            },
            ReadError::InvalidUtf8(at, None) => {
                let mut out = "incomplete utf-8 byte sequence from index ".to_owned();
                push_decimal(&mut out, *at as u64);
                out
            },
            ReadError::WrongPacketId => "Invalid packet id in status response".to_owned(),
        }
    }
}

// ---------- VarInts ----------

/// The VarInt encoding of `v`: seven bits to a byte, least significant first,
/// the high bit set on every byte but the last.
pub open spec fn varint_bytes(v: nat) -> Seq<u8>
    decreases v,
{
    if v < 128 {
        seq![v as u8]
    } else {
        seq![(128 + v % 128) as u8] + varint_bytes(v / 128)
    }
}

/// How many bytes at the front of `s` have their high bit set.
pub open spec fn continuation_run(s: Seq<u8>) -> nat
    decreases s.len(),
{
    if s.len() == 0 || s[0] < 128 {
        0
    } else {
        1 + continuation_run(s.drop_first())
    }
}

/// The number that the low seven bits of the bytes of `s` make up, least
/// significant byte first.
pub open spec fn septets_value(s: Seq<u8>) -> nat
    decreases s.len(),
{
    if s.len() == 0 {
        0
    } else {
        (s[0] % 128) as nat + 128 * septets_value(s.drop_first())
    }
}

/// The VarInt at the front of `s`, with the number of bytes it takes. Only the
/// low 32 bits of the number are kept. A sixth byte is never part of a VarInt.
pub open spec fn varint_at(s: Seq<u8>) -> Result<(u32, nat), ReadError> {
    let n = continuation_run(s);
    if n >= 5 && s.len() >= 6 {
        Err(ReadError::VarIntTooLong)
    } else if n >= 5 || n == s.len() {
        Err(ReadError::UnexpectedEof)
    } else {
        Ok(((septets_value(s.take(n + 1int)) % 0x1_0000_0000) as u32, n + 1))
    }
}

/// The number at the front of `s`, without its length.
pub open spec fn varint_value(s: Seq<u8>) -> Result<u32, ReadError> {
    match varint_at(s) {
        Ok((v, _)) => Ok(v),
        Err(e) => Err(e),
    }
}

/// What is left of `s` once a VarInt has been read, or could not be: nothing
/// where the bytes ran out, all but six of them where it went on for too long.
pub open spec fn after_varint(s: Seq<u8>) -> Seq<u8> {
    match varint_at(s) {
        Ok((_, n)) => s.skip(n as int),
        Err(ReadError::VarIntTooLong) => s.skip(6),
        Err(_) => Seq::empty(),
    }
}

/// 128 to the power of `n`.
pub open spec fn pow128(n: nat) -> nat
    decreases n,
{
    if n == 0 {
        1
    } else {
        128 * pow128((n - 1) as nat)
    }
}

/// Appending a byte adds its low seven bits at the next place.
pub proof fn lemma_septets_push(s: Seq<u8>, b: u8)
    ensures
        septets_value(s.push(b)) == septets_value(s) + pow128(s.len()) * ((b % 128) as nat),
    decreases s.len(),
{
    if s.len() == 0 {
        assert(s.push(b).drop_first() == s);
        assert(pow128(0) == 1);
    } else {
        let t = s.drop_first();
        assert(s.push(b).drop_first() == t.push(b));
        lemma_septets_push(t, b);
        let x = (b % 128) as nat;
        assert(128 * (pow128(t.len()) * x) == (128 * pow128(t.len())) * x) by (nonlinear_arith);
    }
}

proof fn lemma_pow128_small()
    ensures
        pow128(0) == 1,
        pow128(1) == 128,
        pow128(2) == 16384,
        pow128(3) == 2097152,
        pow128(4) == 268435456,
        pow128(5) == 34359738368,
{
    reveal_with_fuel(pow128, 6);
}

/// A run of bytes with the high bit set, cut off where it is known to end.
pub proof fn lemma_continuation_run(s: Seq<u8>, n: nat)
    requires
        n <= s.len(),
        forall|i: int| 0 <= i < n ==> #[trigger] s[i] >= 128,
    ensures
        n == s.len() || s[n as int] < 128 ==> continuation_run(s) == n,
        continuation_run(s) >= n,
        continuation_run(s) <= s.len(),
    decreases s.len(),
{
    if s.len() > 0 && s[0] >= 128 {
        let t = s.drop_first();
        if n > 0 {
            assert forall|i: int| 0 <= i < n - 1 implies #[trigger] t[i] >= 128 by {
                assert(t[i] == s[i + 1]);
            }
            lemma_continuation_run(t, (n - 1) as nat);
        } else {
            lemma_continuation_run(t, 0);
        }
    }
}

/// A run that has ended goes on no further, whatever follows.
pub proof fn lemma_run_of_prefix(s: Seq<u8>, more: Seq<u8>)
    ensures
        continuation_run(s) < s.len() ==> continuation_run(s + more) == continuation_run(s),
        continuation_run(s + more) >= continuation_run(s),
    decreases s.len(),
{
    if s.len() > 0 {
        assert((s + more).drop_first() == s.drop_first() + more);
        lemma_run_of_prefix(s.drop_first(), more);
    } else {
        assert(s + more == more);
    }
}

/// What has been read of a VarInt stands: bytes that arrive later change
/// neither a number that is complete nor the verdict that it is too long.
pub proof fn varint_is_stable(s: Seq<u8>, more: Seq<u8>)
    ensures
        varint_at(s) != Err::<(u32, nat), ReadError>(ReadError::UnexpectedEof) ==> varint_at(
            s + more,
        ) == varint_at(s),
{
    let n = continuation_run(s);
    lemma_run_of_prefix(s, more);
    lemma_continuation_run(s, 0);
    if n < s.len() {
        assert((s + more).take(n + 1int) == s.take(n + 1int));
    }
}

/// A VarInt that can be read takes one to five bytes, all of them there.
pub proof fn lemma_varint_at_bounds(s: Seq<u8>)
    ensures
        varint_at(s) matches Ok((_, n)) ==> 1 <= n <= 5 && n <= s.len(),
{
    lemma_continuation_run(s, 0);
}

/// The encoding of a 32-bit number takes one to five bytes.
pub proof fn lemma_varint_length(v: nat)
    ensures
        varint_bytes(v).len() >= 1,
        v < 128 ==> varint_bytes(v).len() == 1,
        v < 16384 ==> varint_bytes(v).len() <= 2,
        v < 2097152 ==> varint_bytes(v).len() <= 3,
        v < 268435456 ==> varint_bytes(v).len() <= 4,
        v < 34359738368 ==> varint_bytes(v).len() <= 5,
    decreases v,
{
    if v >= 128 {
        lemma_varint_length(v / 128);
    }
}

/// What the encoding of `v` looks like to a reader, whatever follows it.
pub proof fn lemma_varint_shape(v: nat, rest: Seq<u8>)
    ensures
        continuation_run(varint_bytes(v) + rest) == varint_bytes(v).len() - 1,
        septets_value(varint_bytes(v)) == v,
    decreases v,
{
    let s = varint_bytes(v) + rest;
    if v < 128 {
        assert(s[0] == v as u8);
        assert(varint_bytes(v).drop_first() == Seq::<u8>::empty());
        reveal_with_fuel(septets_value, 2);
    } else {
        let tail = varint_bytes(v / 128);
        lemma_varint_shape(v / 128, rest);
        lemma_varint_length(v / 128);
        assert(varint_bytes(v).drop_first() == tail);
        assert(s.drop_first() == tail + rest);
        assert(s[0] == (128 + v % 128) as u8);
        assert(((128 + v % 128) as u8) % 128 == v % 128);
    }
}

/// A VarInt that is cut short has the high bit set on every byte.
pub proof fn lemma_varint_cut(v: nat, n: int)
    requires
        0 <= n < varint_bytes(v).len(),
    ensures
        continuation_run(varint_bytes(v).take(n)) == n,
    decreases v,
{
    let s = varint_bytes(v).take(n);
    if n > 0 {
        assert(varint_bytes(v).drop_first() == varint_bytes(v / 128));
        assert(s.drop_first() == varint_bytes(v / 128).take(n - 1));
        lemma_varint_cut(v / 128, n - 1);
    }
}

/// Reading gives back what writing wrote: a 32-bit number encoded as a VarInt
/// and followed by anything at all is read as that number, and exactly its
/// encoding is consumed.
pub proof fn varint_round_trip(v: u32, rest: Seq<u8>)
    ensures
        varint_at(varint_bytes(v as nat) + rest) == Ok::<(u32, nat), ReadError>(
            (v, varint_bytes(v as nat).len()),
        ),
{
    lemma_varint_shape(v as nat, rest);
    lemma_varint_length(v as nat);
    let s = varint_bytes(v as nat) + rest;
    assert(s.take(varint_bytes(v as nat).len() as int) == varint_bytes(v as nat));
}

/// No VarInt is the beginning of another: two numbers whose encodings begin
/// the same bytes are equal.
pub proof fn varint_is_prefix_free(v: u32, w: u32, rest_v: Seq<u8>, rest_w: Seq<u8>)
    requires
        varint_bytes(v as nat) + rest_v == varint_bytes(w as nat) + rest_w,
    ensures
        v == w,
        rest_v == rest_w,
{
    varint_round_trip(v, rest_v);
    varint_round_trip(w, rest_w);
    let n = varint_bytes(v as nat).len() as int;
    assert(rest_v == (varint_bytes(v as nat) + rest_v).skip(n));
    assert(rest_w == (varint_bytes(w as nat) + rest_w).skip(n));
}

/// Appends the VarInt encoding of `value`.
pub fn write_varint(value: u32, buf: &mut Vec<u8>)
    ensures
        final(buf)@ == old(buf)@ + varint_bytes(value as nat),
{
    let mut value: u32 = value;
    let ghost start = value as nat;
    let ghost before = buf@;
    while value > 0x7F
        invariant
            before + varint_bytes(start) == buf@ + varint_bytes(value as nat),
        decreases value,
    {
        let low: u8 = (value & 0x7F) as u8;
        assert((value & 0x7F) == value % 128) by (bit_vector);
        assert((low | 0x80) == low + 128) by (bit_vector)
            requires
                low < 128,
        ;
        assert(value >> 7 == value / 128) by (bit_vector);
        let ghost tail = varint_bytes((value / 128) as nat);
        let ghost held = buf@;
        buf.push(low | 0x80);
        value = value >> 7;
        assert(held + (seq![(low + 128) as u8] + tail) == buf@ + tail);
    }
    buf.push(value as u8);
}

/// A position in a run of bytes.
pub struct ByteReader<'a> {
    data: &'a [u8],
    pos: usize,
}

impl<'a> View for ByteReader<'a> {
    type V = Seq<u8>;

    /// The bytes that are still to be read.
    closed spec fn view(&self) -> Seq<u8> {
        self.data@.skip(self.pos as int)
    }
}

impl<'a> ByteReader<'a> {
    #[verifier::type_invariant]
    spec fn in_bounds(self) -> bool {
        self.pos <= self.data@.len()
    }

    /// A reader at the front of `data`.
    pub fn new(data: &'a [u8]) -> (r: ByteReader<'a>)
        ensures
            r@ == data@,
    {
        let r = ByteReader { data, pos: 0 };
        assert(data@.skip(0) == data@);
        r
    }

    /// How many bytes are left.
    pub fn remaining(&self) -> (n: usize)
        ensures
            n == self@.len(),
    {
        proof {
            use_type_invariant(self);
        }
        self.data.len() - self.pos
    }

    /// Takes the next byte, if there is one.
    pub fn next_byte(&mut self) -> (r: Option<u8>)
        ensures
            match r {
                Some(b) => old(self)@.len() > 0 && b == old(self)@[0] && final(self)@ == old(
                    self,
                )@.skip(1),
                None => old(self)@.len() == 0 && final(self)@ == old(self)@,
            },
    {
        proof {
            use_type_invariant(&*self);
        }
        if self.pos < self.data.len() {
            let b = self.data[self.pos];
            self.pos = self.pos + 1;
            assert(self.data@.skip(self.pos - 1).skip(1) == self.data@.skip(self.pos as int));
            Some(b)
        } else {
            None
        }
    }

    /// Takes the next `n` bytes. Where fewer are left, all of them are passed
    /// over and nothing is returned.
    pub fn take(&mut self, n: usize) -> (r: Option<Vec<u8>>)
        ensures
            match r {
                Some(v) => n <= old(self)@.len() && v@ == old(self)@.take(n as int) && final(self)@
                    == old(self)@.skip(n as int),
                None => n > old(self)@.len() && final(self)@.len() == 0,
            },
    {
        proof {
            use_type_invariant(&*self);
        }
        let left = self.data.len() - self.pos;
        if n > left {
            self.pos = self.data.len();
            return None;
        }
        let mut out: Vec<u8> = Vec::new();
        let from = self.pos;
        out.extend_from_slice(&self.data[from..from + n]);
        self.pos = from + n;
        assert(out@ == self.data@.skip(from as int).take(n as int));
        assert(self.data@.skip(from as int).skip(n as int) == self.data@.skip(from + n));
        Some(out)
    }
}

/// Reads a VarInt.
pub fn read_varint(reader: &mut ByteReader<'_>) -> (r: Result<u32, ReadError>)
    ensures
        r == varint_value(old(reader)@),
        final(reader)@ == after_varint(old(reader)@),
{
    let ghost s = reader@;
    let mut num_read: u32 = 0;
    let mut acc: u64 = 0;
    let mut scale: u64 = 1;
    proof {
        lemma_pow128_small();
        assert(s.skip(0) == s);
    }
    loop
        invariant
            num_read <= 5,
            num_read <= s.len(),
            reader@ == s.skip(num_read as int),
            forall|i: int| 0 <= i < num_read ==> #[trigger] s[i] >= 128,
            acc == septets_value(s.take(num_read as int)),
            acc < scale,
            scale == pow128(num_read as nat),
            s == old(reader)@,
        decreases 6 - num_read,
    {
        proof {
            lemma_pow128_small();
            lemma_continuation_run(s, num_read as nat);
        }
        let byte = match reader.next_byte() {
            Some(b) => b,
            None => {
                return Err(ReadError::UnexpectedEof);
            },
        };
        assert(byte == s[num_read as int]);
        assert(s.skip(num_read as int).skip(1) == s.skip(num_read + 1));
        if num_read == 5 {
            return Err(ReadError::VarIntTooLong);
        }
        assert((byte & 0x7F) == byte % 128) by (bit_vector);
        assert((byte & 0x80 == 0) == (byte < 128)) by (bit_vector);
        proof {
            lemma_septets_push(s.take(num_read as int), byte);
            assert(s.take(num_read as int).push(byte) == s.take(num_read + 1));
            assert(scale * ((byte % 128) as u64) <= scale * 127) by (nonlinear_arith)
                requires
                    (byte % 128) <= 127,
            ;
        }
        acc = acc + scale * ((byte & 0x7F) as u64);
        scale = scale * 128;
        num_read = num_read + 1;
        if byte & 0x80 == 0 {
            proof {
                lemma_continuation_run(s, (num_read - 1) as nat);
                assert(acc as u32 == acc % 0x1_0000_0000) by (bit_vector);
            }
            return Ok(#[verifier::truncate] (acc as u32));
        }
    }
}

// ---------- Strings ----------

/// The longest string, in bytes, that a peer may send.
pub const MAX_STRING_LEN: u32 = 255;

/// A length as a VarInt can carry it: its low 32 bits.
pub open spec fn low32(n: nat) -> nat {
    n % 0x1_0000_0000
}

/// The wire form of a string: the length of its UTF-8 encoding, then that.
pub open spec fn string_bytes(s: Seq<char>) -> Seq<u8> {
    varint_bytes(low32(encode_utf8(s).len())) + encode_utf8(s)
}

/// The string at the front of `s`, with the number of bytes it takes.
pub open spec fn string_at(s: Seq<u8>) -> Result<(Seq<char>, nat), ReadError> {
    match varint_at(s) {
        Err(e) => Err(e),
        Ok((len, n)) => if len > MAX_STRING_LEN {
            Err(ReadError::StringTooLong)
        } else if s.len() < n + len {
            Err(ReadError::UnexpectedEof)
        } else {
            let body = s.subrange(n as int, n + len);
            if valid_utf8(body) {
                Ok((decode_utf8(body), n + len as nat))
            } else {
                Err(
                    ReadError::InvalidUtf8(text::utf8_fault(body).0, text::utf8_fault(body).1),
                )
            }
        },
    }
}

/// The low 32 bits of a length.
pub fn length32(n: usize) -> (r: u32)
    ensures
        r == low32(n as nat),
{
    let wide: u64 = n as u64;
    assert(wide as u32 == wide % 0x1_0000_0000) by (bit_vector);
    #[verifier::truncate] (wide as u32)
}

/// Appends a string: the length of its UTF-8 encoding as a VarInt, then the
/// encoding.
pub fn write_string(s: &str, buf: &mut Vec<u8>)
    ensures
        final(buf)@ == old(buf)@ + string_bytes(s@),
{
    let bytes = s.as_bytes();
    write_varint(length32(bytes.len()), buf);
    buf.extend_from_slice(bytes);
}

/// Turns the bytes of a string into the string.
pub fn utf8_string(bytes: Vec<u8>) -> (r: Result<String, ReadError>)
    ensures
        match r {
            Ok(s) => valid_utf8(bytes@) && s@ == decode_utf8(bytes@),
            Err(e) => !valid_utf8(bytes@) && e == ReadError::InvalidUtf8(
                text::utf8_fault(bytes@).0,
                text::utf8_fault(bytes@).1,
            ),
        },
{
    match string_from_utf8(bytes) {
        Ok(s) => {
            proof {
                encode_utf8_decode_utf8(s@);
            }
            Ok(s)
        },
        Err((at, len)) => Err(ReadError::InvalidUtf8(at, len)),
    }
}

/// Reads a string of at most [`MAX_STRING_LEN`] bytes.
pub fn read_string(reader: &mut ByteReader<'_>) -> (r: Result<String, ReadError>)
    ensures
        match (r, string_at(old(reader)@)) {
            (Ok(v), Ok((w, n))) => v@ == w && final(reader)@ == old(reader)@.skip(n as int),
            (Err(e), Err(f)) => e == f && final(reader)@.len() <= old(reader)@.len(),
            _ => false,
        },
{
    let ghost s = reader@;
    proof {
        lemma_varint_at_bounds(s);
    }
    let len = read_varint(reader)?;
    if len > MAX_STRING_LEN {
        return Err(ReadError::StringTooLong);
    }
    match reader.take(len as usize) {
        None => Err(ReadError::UnexpectedEof),
        Some(body) => {
            proof {
                let n = varint_at(s)->Ok_0.1 as int;
                assert(body@ == s.subrange(n, n + len));
                assert(s.skip(n).skip(len as int) == s.skip(n + len));
            }
            utf8_string(body)
        },
    }
}

/// Reading gives back what writing wrote: a string of at most
/// [`MAX_STRING_LEN`] bytes, followed by anything at all, is read as itself,
/// and exactly its wire form is consumed.
pub proof fn string_round_trip(s: Seq<char>, rest: Seq<u8>)
    requires
        encode_utf8(s).len() <= MAX_STRING_LEN,
    ensures
        string_at(string_bytes(s) + rest) == Ok::<(Seq<char>, nat), ReadError>(
            (s, string_bytes(s).len()),
        ),
{
    let body = encode_utf8(s);
    let len = body.len() as u32;
    let head = varint_bytes(len as nat);
    let all = string_bytes(s) + rest;
    assert(all == head + (body + rest));
    varint_round_trip(len, body + rest);
    let n = head.len() as int;
    assert(all.subrange(n, n + len) == body);
    encode_utf8_valid_utf8(s);
    encode_utf8_decode_utf8(s);
}

// ---------- Fixed-width numbers ----------

/// The two bytes of `v`, most significant first.
pub open spec fn be16(v: u16) -> Seq<u8> {
    seq![(v / 256) as u8, (v % 256) as u8]
}

/// `ReadBytesExt::read_u16::<BigEndian>` of `byteorder`, on the bytes from `pos`
/// on: the first two of them as a number, most significant byte first, or
/// nothing where fewer than two are left.
#[verifier::external_body]
fn be_u16(bytes: &[u8], pos: usize) -> (r: Option<u16>)
    requires
        pos <= bytes@.len(),
    ensures
        r == (if pos + 2 <= bytes@.len() {
            Some((bytes@[pos as int] as u16 * 256 + bytes@[pos + 1] as u16) as u16)
        } else {
            None
        }),
{
    byteorder::ReadBytesExt::read_u16::<byteorder::BigEndian>(&mut &bytes[pos..]).ok()
}

impl<'a> ByteReader<'a> {
    /// Reads a 16-bit number, most significant byte first.
    pub fn read_u16(&mut self) -> (r: Result<u16, ReadError>)
        ensures
            match r {
                Ok(v) => old(self)@.len() >= 2 && be16(v) == old(self)@.take(2) && final(self)@
                    == old(self)@.skip(2),
                Err(e) => old(self)@.len() < 2 && e == ReadError::UnexpectedEof && final(self)@.len()
                    == 0,
            },
    {
        proof {
            use_type_invariant(&*self);
        }
        let end: usize = self.data.len();
        match be_u16(self.data, self.pos) {
            Some(v) => {
                let ghost s = self@;
                assert(s[0] == self.data@[self.pos as int]);
                assert(s[1] == self.data@[self.pos + 1]);
                self.pos = self.pos + 2;
                assert(self@ == s.skip(2));
                assert(be16(v) == s.take(2));
                Ok(v)
            },
            None => {
                self.pos = end;
                Err(ReadError::UnexpectedEof)
            },
        }
    }
}

// ---------- Frames ----------

/// A packet on the wire: the length of its payload as a VarInt, then the
/// payload.
pub open spec fn frame_bytes(payload: Seq<u8>) -> Seq<u8> {
    varint_bytes(low32(payload.len())) + payload
}

/// Frames a payload.
pub fn frame(payload: &Vec<u8>) -> (r: Vec<u8>)
    ensures
        r@ == frame_bytes(payload@),
{
    let mut packet: Vec<u8> = Vec::new();
    write_varint(length32(payload.len()), &mut packet);
    packet.extend_from_slice(payload.as_slice());
    packet
}

/// A payload whose length fits in 32 bits can be cut out of its frame again:
/// the length is read first, and that many bytes after it are the payload.
pub proof fn frame_round_trip(payload: Seq<u8>, rest: Seq<u8>)
    requires
        payload.len() < 0x1_0000_0000,
    ensures
        varint_value(frame_bytes(payload) + rest) == Ok::<u32, ReadError>(payload.len() as u32),
        after_varint(frame_bytes(payload) + rest) == payload + rest,
{
    let head = varint_bytes(payload.len());
    let all = frame_bytes(payload) + rest;
    assert(all == head + (payload + rest));
    varint_round_trip(payload.len() as u32, payload + rest);
    assert(all.skip(head.len() as int) == payload + rest);
}

// ---------- Laws ----------


/// A VarInt byte by byte: as many bytes as the number has groups of seven bits,
/// least significant first, 128 added to every byte but the last.
pub proof fn varint_byte_by_byte(v: u32)
    ensures
        v < 0x80 ==> varint_bytes(v as nat) == seq![v as u8],
        0x80 <= v < 0x4000 ==> varint_bytes(v as nat) == seq![
            (128 + v % 128) as u8,
            (v / 128) as u8,
        ],
        0x4000 <= v < 0x20_0000 ==> varint_bytes(v as nat) == seq![
            (128 + v % 128) as u8,
            (128 + (v / 128) % 128) as u8,
            (v / 16384) as u8,
        ],
        0x20_0000 <= v < 0x1000_0000 ==> varint_bytes(v as nat) == seq![
            (128 + v % 128) as u8,
            (128 + (v / 128) % 128) as u8,
            (128 + (v / 16384) % 128) as u8,
            (v / 2097152) as u8,
        ],
        0x1000_0000 <= v ==> varint_bytes(v as nat) == seq![
            (128 + v % 128) as u8,
            (128 + (v / 128) % 128) as u8,
            (128 + (v / 16384) % 128) as u8,
            (128 + (v / 2097152) % 128) as u8,
            (v / 268435456) as u8,
        ],
{
    let a = v as nat;
    let b = a / 128;
    let c = b / 128;
    let d = c / 128;
    let e = d / 128;
    assert(c == a / 16384);
    assert(d == a / 2097152);
    assert(e == a / 268435456);
    if v < 0x80 {
    } else if v < 0x4000 {
        assert(varint_bytes(b) == seq![b as u8]);
    } else if v < 0x20_0000 {
        assert(varint_bytes(c) == seq![c as u8]);
        assert(varint_bytes(b) == seq![(128 + b % 128) as u8, c as u8]);
    } else if v < 0x1000_0000 {
        assert(varint_bytes(d) == seq![d as u8]);
        assert(varint_bytes(c) == seq![(128 + c % 128) as u8, d as u8]);
        assert(varint_bytes(b) == seq![(128 + b % 128) as u8, (128 + c % 128) as u8, d as u8]);
    } else {
        assert(varint_bytes(e) == seq![e as u8]);
        assert(varint_bytes(d) == seq![(128 + d % 128) as u8, e as u8]);
        assert(varint_bytes(c) == seq![(128 + c % 128) as u8, (128 + d % 128) as u8, e as u8]);
        assert(varint_bytes(b) == seq![
            (128 + b % 128) as u8,
            (128 + c % 128) as u8,
            (128 + d % 128) as u8,
            e as u8,
        ]);
    }
}

proof fn lemma_two_septets(s: Seq<u8>)
    requires
        s.len() == 1 || s.len() == 2,
    ensures
        s.len() == 1 ==> septets_value(s) == s[0] % 128,
        s.len() == 2 ==> septets_value(s) == s[0] % 128 + 128 * (s[1] % 128),
{
    reveal_with_fuel(septets_value, 3);
}

proof fn lemma_more_septets(s: Seq<u8>)
    requires
        3 <= s.len() <= 5,
    ensures
        s.len() == 3 ==> septets_value(s) == s[0] % 128 + 128 * (s[1] % 128) + 16384 * (s[2]
            % 128),
        s.len() == 4 ==> septets_value(s) == s[0] % 128 + 128 * (s[1] % 128) + 16384 * (s[2]
            % 128) + 2097152 * (s[3] % 128),
        s.len() == 5 ==> septets_value(s) == s[0] % 128 + 128 * (s[1] % 128) + 16384 * (s[2]
            % 128) + 2097152 * (s[3] % 128) + 268435456 * (s[4] % 128),
    decreases s.len(),
{
    let t = s.drop_last();
    lemma_pow128_small();
    lemma_septets_push(t, s.last());
    assert(t.push(s.last()) == s);
    if s.len() == 3 {
        lemma_two_septets(t);
    } else {
        lemma_more_septets(t);
    }
}

/// The number that up to three bytes make up.
pub proof fn lemma_few_septets(s: Seq<u8>)
    requires
        1 <= s.len() <= 3,
    ensures
        s.len() == 1 ==> septets_value(s) == s[0] % 128,
        s.len() == 2 ==> septets_value(s) == s[0] % 128 + 128 * (s[1] % 128),
        s.len() == 3 ==> septets_value(s) == s[0] % 128 + 128 * (s[1] % 128) + 16384 * (s[2]
            % 128),
{
    if s.len() == 3 {
        lemma_more_septets(s);
    } else {
        lemma_two_septets(s);
    }
}

proof fn lemma_ended(s: Seq<u8>, n: int)
    requires
        1 <= n <= 5,
        n <= s.len(),
        forall|i: int| 0 <= i < n - 1 ==> #[trigger] s[i] >= 128,
        s[n - 1] < 128,
    ensures
        varint_at(s) == Ok::<(u32, nat), ReadError>(
            ((septets_value(s.take(n)) % 0x1_0000_0000) as u32, n as nat),
        ),
{
    lemma_continuation_run(s, (n - 1) as nat);
}

proof fn lemma_low_bits(low: int, b: int)
    requires
        0 <= low < 268435456,
        0 <= b < 128,
    ensures
        (low + 268435456 * b) % 0x1_0000_0000 == low + 268435456 * (b % 16),
{
    let q = b / 16;
    assert(low + 268435456 * b == 0x1_0000_0000 * q + (low + 268435456 * (b % 16)));
    vstd::arithmetic::div_mod::lemma_mod_multiples_vanish(
        q,
        low + 268435456 * (b % 16),
        0x1_0000_0000,
    );
    vstd::arithmetic::div_mod::lemma_small_mod(
        (low + 268435456 * (b % 16)) as nat,
        0x1_0000_0000,
    );
}

/// A VarInt read byte by byte: it ends with the first byte below 128, and the
/// second and third bytes count 128 and 16384 times as much as the first.
pub proof fn reading_byte_by_byte(s: Seq<u8>)
    ensures
        s.len() >= 1 && s[0] < 128 ==> varint_at(s) == Ok::<(u32, nat), ReadError>((s[0] as u32, 1)),
        s.len() >= 2 && s[0] >= 128 && s[1] < 128 ==> varint_at(s) == Ok::<(u32, nat), ReadError>(
            ((s[0] - 128 + 128 * s[1]) as u32, 2),
        ),
        s.len() >= 3 && s[0] >= 128 && s[1] >= 128 && s[2] < 128 ==> varint_at(s) == Ok::<
            (u32, nat),
            ReadError,
        >(((s[0] - 128 + 128 * (s[1] - 128) + 16384 * s[2]) as u32, 3)),
{
    if s.len() >= 1 && s[0] < 128 {
        lemma_ended(s, 1);
        lemma_two_septets(s.take(1));
    } else if s.len() >= 2 && s[0] >= 128 && s[1] < 128 {
        lemma_ended(s, 2);
        lemma_two_septets(s.take(2));
    } else if s.len() >= 3 && s[0] >= 128 && s[1] >= 128 && s[2] < 128 {
        lemma_ended(s, 3);
        lemma_more_septets(s.take(3));
    }
}

/// The fourth byte of a VarInt counts 2097152 times as much as the first.
pub proof fn reading_four_bytes(s: Seq<u8>)
    requires
        s.len() >= 4,
        s[0] >= 128,
        s[1] >= 128,
        s[2] >= 128,
        s[3] < 128,
    ensures
        varint_at(s) == Ok::<(u32, nat), ReadError>(
            (
                (s[0] - 128 + 128 * (s[1] - 128) + 16384 * (s[2] - 128) + 2097152 * s[3]) as u32,
                4,
            ),
        ),
{
    lemma_ended(s, 4);
    lemma_more_septets(s.take(4));
}

/// The fifth byte of a VarInt counts 268435456 times as much as the first, and
/// only its low four bits are kept.
pub proof fn reading_five_bytes(s: Seq<u8>)
    requires
        s.len() >= 5,
        s[0] >= 128,
        s[1] >= 128,
        s[2] >= 128,
        s[3] >= 128,
        s[4] < 128,
    ensures
        varint_at(s) == Ok::<(u32, nat), ReadError>(
            (
                (s[0] - 128 + 128 * (s[1] - 128) + 16384 * (s[2] - 128) + 2097152 * (s[3] - 128)
                    + 268435456 * (s[4] % 16)) as u32,
                5,
            ),
        ),
{
    lemma_ended(s, 5);
    lemma_more_septets(s.take(5));
    let low = s[0] - 128 + 128 * (s[1] - 128) + 16384 * (s[2] - 128) + 2097152 * (s[3] - 128);
    lemma_low_bits(low, s[4] as int);
    assert(septets_value(s.take(5)) == low + 268435456 * s[4]);
}

/// Six bytes without an end among the first five are too long a VarInt, and
/// anything shorter without one is cut short.
pub proof fn numbers_that_do_not_end(s: Seq<u8>)
    requires
        forall|i: int| 0 <= i < s.len() && i < 5 ==> #[trigger] s[i] >= 128,
    ensures
        s.len() >= 6 ==> varint_at(s) == Err::<(u32, nat), ReadError>(ReadError::VarIntTooLong),
        s.len() <= 5 ==> varint_at(s) == Err::<(u32, nat), ReadError>(ReadError::UnexpectedEof),
{
    if s.len() >= 5 {
        lemma_continuation_run(s, 5);
    } else {
        lemma_continuation_run(s, s.len());
    }
}

/// Reading uses up what it read: the bytes of a number, six of one that is too
/// long, and all there are of one that is cut short.
pub proof fn what_reading_uses_up(s: Seq<u8>)
    ensures
        varint_at(s) matches Ok((v, n)) ==> varint_value(s) == Ok::<u32, ReadError>(v)
            && after_varint(s) == s.skip(n as int),
        varint_at(s) matches Err(e) ==> varint_value(s) == Err::<u32, ReadError>(e),
        varint_at(s) == Err::<(u32, nat), ReadError>(ReadError::VarIntTooLong) ==> after_varint(s)
            == s.skip(6),
        varint_at(s) == Err::<(u32, nat), ReadError>(ReadError::UnexpectedEof) ==> after_varint(s)
            == Seq::<u8>::empty(),
{
}

/// A string is announced by the number of its bytes. One that announces more
/// than 255 is refused whatever follows, one with too few bytes behind the
/// number is cut short, and of any other exactly the announced bytes are taken,
/// if they are UTF-8.
pub proof fn what_a_string_reads_as(len: u32, rest: Seq<u8>)
    ensures
        ({
            let head = varint_bytes(len as nat);
            let read = string_at(head + rest);
            &&& len > 255 ==> read == Err::<(Seq<char>, nat), ReadError>(ReadError::StringTooLong)
            &&& len <= 255 && rest.len() < len ==> read == Err::<(Seq<char>, nat), ReadError>(
                ReadError::UnexpectedEof,
            )
            &&& len <= 255 && rest.len() >= len && valid_utf8(rest.take(len as int)) ==> read == Ok::<
                (Seq<char>, nat),
                ReadError,
            >((decode_utf8(rest.take(len as int)), head.len() + len as nat))
            &&& len <= 255 && rest.len() >= len && !valid_utf8(rest.take(len as int)) ==> read
                == Err::<(Seq<char>, nat), ReadError>(
                ReadError::InvalidUtf8(
                    text::utf8_fault(rest.take(len as int)).0,
                    text::utf8_fault(rest.take(len as int)).1,
                ),
            )
        }),
{
    let head = varint_bytes(len as nat);
    varint_round_trip(len, rest);
    if len <= 255 && rest.len() >= len {
        assert((head + rest).subrange(head.len() as int, head.len() + len) == rest.take(len as int));
    }
}

/// Bytes that are no VarInt are no string either, for the same reason.
pub proof fn a_string_begins_with_a_number(s: Seq<u8>)
    ensures
        varint_at(s) matches Err(e) ==> string_at(s) == Err::<(Seq<char>, nat), ReadError>(e),
{
}

/// A length is written in full as long as it fits in 32 bits, and loses exactly
/// the multiples of 2 to the power of 32 otherwise.
pub proof fn what_a_length_keeps(n: nat, k: nat)
    requires
        n < 0x1_0000_0000,
    ensures
        low32(n) == n,
        low32(n + 0x1_0000_0000 * k) == n,
{
    vstd::arithmetic::div_mod::lemma_mod_multiples_vanish(k as int, n as int, 0x1_0000_0000);
    assert(n + 0x1_0000_0000 * k == 0x1_0000_0000 * k + n);
}

/// A frame is its payload behind the payload's length: one byte of it below 128
/// bytes, two below 16384, three below 2097152. A string is written in the same
/// way.
pub proof fn a_frame_byte_by_byte(payload: Seq<u8>, s: Seq<char>)
    ensures
        payload.len() < 128 ==> frame_bytes(payload) == seq![payload.len() as u8] + payload,
        128 <= payload.len() < 16384 ==> frame_bytes(payload) == seq![
            (128 + payload.len() % 128) as u8,
            (payload.len() / 128) as u8,
        ] + payload,
        16384 <= payload.len() < 2097152 ==> frame_bytes(payload) == seq![
            (128 + payload.len() % 128) as u8,
            (128 + (payload.len() / 128) % 128) as u8,
            (payload.len() / 16384) as u8,
        ] + payload,
        payload.len() < 0x1_0000_0000 ==> frame_bytes(payload) == varint_bytes(payload.len())
            + payload,
        encode_utf8(s).len() < 0x1_0000_0000 ==> string_bytes(s) == varint_bytes(
            encode_utf8(s).len(),
        ) + encode_utf8(s),
        encode_utf8(s).len() < 128 ==> string_bytes(s) == seq![encode_utf8(s).len() as u8]
            + encode_utf8(s),
        128 <= encode_utf8(s).len() < 16384 ==> string_bytes(s) == seq![
            (128 + encode_utf8(s).len() % 128) as u8,
            (encode_utf8(s).len() / 128) as u8,
        ] + encode_utf8(s),
{
    if payload.len() < 0x1_0000_0000 {
        varint_byte_by_byte(payload.len() as u32);
    }
    if encode_utf8(s).len() < 0x1_0000_0000 {
        varint_byte_by_byte(encode_utf8(s).len() as u32);
    }
}

/// Two bytes make up a 16-bit number, the first of them counting 256 times as
/// much.
pub proof fn two_bytes_make_a_number(v: u16)
    ensures
        be16(v).len() == 2,
        be16(v)[0] * 256 + be16(v)[1] == v,
{
}

/// What is said of bytes that could not be read: bad UTF-8 is told with where it
/// begins and how long it is, in decimal, and one that is cut short only with
/// where it begins.
pub proof fn what_is_said_of_bad_bytes(at: usize, n: usize)
    ensures
        read_error_text(ReadError::UnexpectedEof) == "failed to fill whole buffer"@,
        read_error_text(ReadError::VarIntTooLong) == "VarInt too long"@,
        read_error_text(ReadError::StringTooLong) == "String too long"@,
        read_error_text(ReadError::WrongPacketId) == "Invalid packet id in status response"@,
        read_error_text(ReadError::InvalidUtf8(at, Some(n))) == "invalid utf-8 sequence of "@
            + text::decimal(n as nat) + " bytes from index "@ + text::decimal(at as nat),
        read_error_text(ReadError::InvalidUtf8(at, None))
            == "incomplete utf-8 byte sequence from index "@ + text::decimal(at as nat),
{
}

} // verus!
