//! Network addresses as plain values.

use vstd::prelude::*;

use crate::text;
use crate::text::chars_of;

verus! {

/// An IPv4 address, octet by octet.
#[derive(Clone, Copy, Debug, PartialEq, Eq, Structural)]
pub struct Ipv4Addr {
    pub a: u8,
    pub b: u8,
    pub c: u8,
    pub d: u8,
}

/// The address of a peer.
#[derive(Clone, Copy, Debug, PartialEq, Eq, Structural)]
pub enum IpAddr {
    V4(Ipv4Addr),
    /// The sixteen bytes of an IPv6 address, most significant first.
    V6(u128),
}

/// An address and a port.
#[derive(Clone, Copy, Debug, PartialEq, Eq, Structural)]
pub struct SocketAddr {
    pub ip: IpAddr,
    pub port: u16,
    /// The flow information of an IPv6 address; zero for IPv4.
    pub flowinfo: u32,
    /// The scope of an IPv6 address; zero for IPv4.
    pub scope_id: u32,
}

impl Ipv4Addr {
    /// The address as a 32-bit number, first octet most significant.
    pub open spec fn number(self) -> nat {
        self.a as nat * 0x100_0000 + self.b as nat * 0x1_0000 + self.c as nat * 0x100
            + self.d as nat
    }
}

impl IpAddr {
    /// The integers under which tables file the address: its family and its
    /// bits.
    pub open spec fn key(self) -> (u8, u128) {
        match self {
            IpAddr::V4(v4) => (4u8, v4.number() as u128),
            IpAddr::V6(bits) => (6u8, bits),
        }
    }

    /// Computes [`IpAddr::key`].
    pub fn table_key(&self) -> (r: (u8, u128))
        ensures
            r == self.key(),
    {
        match self {
            IpAddr::V4(v4) => (
                4,
                v4.a as u128 * 0x100_0000 + v4.b as u128 * 0x1_0000 + v4.c as u128 * 0x100
                    + v4.d as u128,
            ),
            IpAddr::V6(bits) => (6, *bits),
        }
    }

    /// The address that is filed under `key`, if any is.
    pub fn from_table_key(key: (u8, u128)) -> (r: Option<IpAddr>)
        ensures
            match r {
                Some(ip) => ip.key() == key,
                None => forall|ip: IpAddr| #[trigger] ip.key() != key,
            },
    {
        if key.0 == 4 && key.1 <= 0xFFFF_FFFF {
            let n: u32 = key.1 as u32;
            Some(
                IpAddr::V4(
                    Ipv4Addr {
                        a: (n / 0x100_0000) as u8,
                        b: (n / 0x1_0000 % 0x100) as u8,
                        c: (n / 0x100 % 0x100) as u8,
                        d: (n % 0x100) as u8,
                    },
                ),
            )
        } else if key.0 == 6 {
            Some(IpAddr::V6(key.1))
        } else {
            None
        }
    }
}

impl SocketAddr {
    /// The integers under which tables file the address.
    pub open spec fn key(self) -> ((u8, u128), u16, u32, u32) {
        (self.ip.key(), self.port, self.flowinfo, self.scope_id)
    }

    /// Computes [`SocketAddr::key`].
    pub fn table_key(&self) -> (r: ((u8, u128), u16, u32, u32))
        ensures
            r == self.key(),
    {
        (self.ip.table_key(), self.port, self.flowinfo, self.scope_id)
    }

    /// An address without flow information or scope.
    pub fn new(ip: IpAddr, port: u16) -> (r: SocketAddr)
        ensures
            r == plain_socket(ip, port),
    {
        SocketAddr { ip, port, flowinfo: 0, scope_id: 0 }
    }
}

/// An address and a port, without flow information or scope.
pub open spec fn plain_socket(ip: IpAddr, port: u16) -> SocketAddr {
    SocketAddr { ip, port, flowinfo: 0, scope_id: 0 }
}

/// Distinct addresses are filed under distinct keys.
pub proof fn address_keys_are_distinct(x: IpAddr, y: IpAddr)
    requires
        x.key() == y.key(),
    ensures
        x == y,
{
    match (x, y) {
        (IpAddr::V4(p), IpAddr::V4(q)) => {
            assert(p.number() < 0x1_0000_0000 && q.number() < 0x1_0000_0000);
            assert(p.number() == q.number());
        },
        _ => {},
    }
}

// ---------- Dotted-decimal text ----------

/// The dotted-decimal form of an address.
pub open spec fn ipv4_text(ip: Ipv4Addr) -> Seq<char> {
    text::decimal(ip.a as nat) + seq!['.'] + text::decimal(ip.b as nat) + seq!['.']
        + text::decimal(ip.c as nat) + seq!['.'] + text::decimal(ip.d as nat)
}

/// Whether the characters `from..to` of `s` are the digits of `v`, and no digit
/// follows them.
pub open spec fn octet_is(s: Seq<char>, from: int, to: int, v: u8) -> bool {
    &&& 0 <= from <= to <= s.len()
    &&& s.subrange(from, to) == text::decimal(v as nat)
    &&& to == s.len() || !text::is_digit(s[to])
}

proof fn lemma_octet_unique(s: Seq<char>, from: int, to1: int, v1: u8, to2: int, v2: u8)
    requires
        octet_is(s, from, to1, v1),
        octet_is(s, from, to2, v2),
    ensures
        to1 == to2,
        v1 == v2,
{
    text::lemma_decimal(v1 as nat);
    text::lemma_decimal(v2 as nat);
    if to1 < to2 {
        assert(s[to1] == s.subrange(from, to2)[to1 - from]);
        assert(text::is_digit(text::decimal(v2 as nat)[to1 - from]));
    } else if to2 < to1 {
        assert(s[to2] == s.subrange(from, to1)[to2 - from]);
        assert(text::is_digit(text::decimal(v1 as nat)[to2 - from]));
    }
}

/// Reads one octet, digits and all that belong to it.
fn read_octet(chars: &Vec<char>, from: usize) -> (r: Option<(u8, usize)>)
    requires
        from <= chars@.len(),
    ensures
        match r {
            Some((v, to)) => octet_is(chars@, from as int, to as int, v),
            None => forall|to: int, v: u8| !octet_is(chars@, from as int, to, v),
        },
{
    let mut to: usize = from;
    let mut value: u32 = 0;
    while to < chars.len() && '0' <= chars[to] && chars[to] <= '9'
        invariant
            from <= to <= chars@.len(),
            to - from <= 3,
            value == text::decimal_value(chars@.subrange(from as int, to as int)),
            to - from == 0 ==> value == 0,
            to - from <= 1 ==> value <= 9,
            to - from <= 2 ==> value <= 99,
            value <= 999,
            forall|i: int| from <= i < to ==> text::is_digit(#[trigger] chars@[i]),
        decreases chars@.len() - to,
    {
        if to - from == 3 {
            proof {
                assert forall|e: int, v: u8| !octet_is(chars@, from as int, e, v) by {
                    text::lemma_decimal(v as nat);
                    if octet_is(chars@, from as int, e, v) {
                        assert(e - from <= 3);
                        assert(text::is_digit(chars@[e]));
                    }
                }
            }
            return None;
        }
        assert(chars@.subrange(from as int, to + 1).drop_last() == chars@.subrange(
            from as int,
            to as int,
        ));
        value = value * 10 + (chars[to] as u32 - 48);
        to = to + 1;
    }
    let ghost run = chars@.subrange(from as int, to as int);
    assert(text::all_digits(run));
    if to == from || (to - from > 1 && chars[from] == '0') || value > 255 {
        proof {
            assert forall|e: int, v: u8| !octet_is(chars@, from as int, e, v) by {
                text::lemma_decimal(v as nat);
                if octet_is(chars@, from as int, e, v) {
                    let own = chars@.subrange(from as int, e);
                    if e < to {
                        assert(text::is_digit(chars@[e]));
                    } else if to < e {
                        assert(chars@[to as int] == own[to - from]);
                        assert(text::is_digit(own[to - from]));
                    } else {
                        assert(run == own);
                        assert(run[0] == chars@[from as int]);
                    }
                }
            }
        }
        return None;
    }
    proof {
        assert(run[0] == chars@[from as int]);
        text::lemma_decimal_of_value(run);
    }
    Some((value as u8, to))
}

/// Where the octets and the dots stand in a dotted-decimal text.
proof fn lemma_ipv4_layout(s: Seq<char>, ip: Ipv4Addr) -> (ends: (int, int, int))
    requires
        s == ipv4_text(ip),
    ensures
        octet_is(s, 0, ends.0, ip.a),
        s[ends.0] == '.',
        octet_is(s, ends.0 + 1, ends.1, ip.b),
        s[ends.1] == '.',
        octet_is(s, ends.1 + 1, ends.2, ip.c),
        s[ends.2] == '.',
        octet_is(s, ends.2 + 1, s.len() as int, ip.d),
        0 < ends.0 < ends.1 < ends.2 < s.len(),
{
    let a = text::decimal(ip.a as nat);
    let b = text::decimal(ip.b as nat);
    let c = text::decimal(ip.c as nat);
    let d = text::decimal(ip.d as nat);
    text::lemma_decimal(ip.a as nat);
    text::lemma_decimal(ip.b as nat);
    text::lemma_decimal(ip.c as nat);
    text::lemma_decimal(ip.d as nat);
    let p = a.len() as int;
    let q = p + 1 + b.len();
    let r = q + 1 + c.len();
    assert(s.subrange(0, p) == a);
    assert(s[p] == '.');
    assert(s.subrange(p + 1, q) == b);
    assert(s[q] == '.');
    assert(s.subrange(q + 1, r) == c);
    assert(s[r] == '.');
    assert(s.subrange(r + 1, s.len() as int) == d);
    (p, q, r)
}

/// Reads one octet and the dot behind it; returns where the next octet begins.
fn read_octet_and_dot(chars: &Vec<char>, from: usize) -> (r: Option<(u8, usize)>)
    requires
        from <= chars@.len(),
    ensures
        match r {
            Some((v, next)) => next <= chars@.len() && octet_is(chars@, from as int, next - 1, v)
                && chars@[next - 1] == '.',
            None => forall|to: int, v: u8| #[trigger]
                octet_is(chars@, from as int, to, v) ==> to == chars@.len() || chars@[to] != '.',
        },
{
    match read_octet(chars, from) {
        Some((v, to)) => {
            proof {
                assert forall|e: int, w: u8| #[trigger]
                    octet_is(chars@, from as int, e, w) implies e == to by {
                    lemma_octet_unique(chars@, from as int, e, w, to as int, v);
                }
            }
            if to < chars.len() && chars[to] == '.' {
                Some((v, to + 1))
            } else {
                None
            }
        },
        None => None,
    }
}

/// Reads dotted-decimal text. Four octets without needless zeros, three dots
/// between them and nothing else make an address.
pub fn ipv4_literal(s: &str) -> (r: Option<Ipv4Addr>)
    ensures
        match r {
            Some(ip) => s@ == ipv4_text(ip),
            None => forall|ip: Ipv4Addr| s@ != #[trigger] ipv4_text(ip),
        },
{
    let chars = chars_of(s);
    let first = read_octet_and_dot(&chars, 0);
    let second = match first {
        Some((_, at)) => read_octet_and_dot(&chars, at),
        None => None,
    };
    let third = match second {
        Some((_, at)) => read_octet_and_dot(&chars, at),
        None => None,
    };
    let fourth = match third {
        Some((_, at)) => read_octet(&chars, at),
        None => None,
    };
    proof {
        assert forall|ip: Ipv4Addr| s@ == #[trigger] ipv4_text(ip) implies fourth == Some(
            (ip.d, s@.len() as usize),
        ) by {
            let (p, q, r) = lemma_ipv4_layout(s@, ip);
            let (v1, n1) = first->0;
            lemma_octet_unique(s@, 0, p, ip.a, n1 - 1, v1);
            let (v2, n2) = second->0;
            lemma_octet_unique(s@, p + 1, q, ip.b, n2 - 1, v2);
            let (v3, n3) = third->0;
            lemma_octet_unique(s@, q + 1, r, ip.c, n3 - 1, v3);
            let (v4, n4) = fourth->0;
            lemma_octet_unique(s@, r + 1, s@.len() as int, ip.d, n4 as int, v4);
        }
    }
    match (first, second, third, fourth) {
        (Some((a, at1)), Some((b, at2)), Some((c, at3)), Some((d, end))) => {
            if end == chars.len() {
                let ip = Ipv4Addr { a, b, c, d };
                proof {
                    let whole = chars@.subrange(0, at1 - 1) + seq!['.'] + chars@.subrange(
                        at1 as int,
                        at2 - 1,
                    ) + seq!['.'] + chars@.subrange(at2 as int, at3 - 1) + seq!['.']
                        + chars@.subrange(at3 as int, end as int);
                    assert(chars@ == whole);
                }
                Some(ip)
            } else {
                None
            }
        },
        _ => None,
    }
}

/// Two addresses with the same text are the same address.
pub proof fn ipv4_text_is_unambiguous(x: Ipv4Addr, y: Ipv4Addr)
    requires
        ipv4_text(x) == ipv4_text(y),
    ensures
        x == y,
{
    let s = ipv4_text(x);
    let (p, q, r) = lemma_ipv4_layout(s, x);
    let (p2, q2, r2) = lemma_ipv4_layout(s, y);
    lemma_octet_unique(s, 0, p, x.a, p2, y.a);
    lemma_octet_unique(s, p + 1, q, x.b, q2, y.b);
    lemma_octet_unique(s, q + 1, r, x.c, r2, y.c);
    lemma_octet_unique(s, r + 1, s.len() as int, x.d, s.len() as int, y.d);
}

// ---------- Laws ----------


/// An address is filed under its family and its bits, the first octet of an IPv4
/// address counting most.
pub proof fn what_an_address_is_filed_under(ip: Ipv4Addr, bits: u128, socket: SocketAddr)
    ensures
        IpAddr::V4(ip).key().0 == 4,
        IpAddr::V4(ip).key().1 == ((ip.a * 256 + ip.b) * 256 + ip.c) * 256 + ip.d,
        IpAddr::V6(bits).key() == (6u8, bits),
        socket.key().0 == socket.ip.key(),
        socket.key().1 == socket.port,
        socket.key().2 == socket.flowinfo,
        socket.key().3 == socket.scope_id,
{
    assert(ip.number() < 0x1_0000_0000);
}

/// An address is written as its four octets in decimal with dots between them.
pub proof fn how_an_address_is_written(ip: Ipv4Addr)
    ensures
        ({
            let s = ipv4_text(ip);
            let a = text::decimal(ip.a as nat);
            let b = text::decimal(ip.b as nat);
            let c = text::decimal(ip.c as nat);
            let d = text::decimal(ip.d as nat);
            let p = a.len() as int;
            let q = p + 1 + b.len();
            let r = q + 1 + c.len();
            &&& s.len() == r + 1 + d.len()
            &&& s.subrange(0, p) == a
            &&& s[p] == '.'
            &&& s.subrange(p + 1, q) == b
            &&& s[q] == '.'
            &&& s.subrange(q + 1, r) == c
            &&& s[r] == '.'
            &&& s.skip(r + 1) == d
        }),
{
    let s = ipv4_text(ip);
    let a = text::decimal(ip.a as nat);
    let b = text::decimal(ip.b as nat);
    let c = text::decimal(ip.c as nat);
    let d = text::decimal(ip.d as nat);
    let p = a.len() as int;
    let q = p + 1 + b.len();
    let r = q + 1 + c.len();
    assert(s.subrange(0, p) == a);
    assert(s.subrange(p + 1, q) == b);
    assert(s.subrange(q + 1, r) == c);
    assert(s.skip(r + 1) == d);
}

} // verus!
