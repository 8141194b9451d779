//! Targets of redirections: `host:port`, where the host is an address or a name
//! that has to be looked up.

use vstd::prelude::*;

use crate::addr;
use crate::addr::{ipv4_literal, IpAddr, Ipv4Addr};
use crate::text;
use crate::text::{chars_of, parse_port, string_of};

verus! {

/// What looking up a host has brought: the addresses that were found, or why
/// none could be asked for.
pub type Answer = Result<Vec<IpAddr>, String>;

/// Why a target cannot be used.
#[derive(Debug)]
pub enum TargetError {
    /// It is not a host and a port with one colon between them.
    Format,
    /// The port is no number below 65536.
    Port,
    /// The host could not be looked up, for this reason.
    Lookup(String),
    /// The host has no IPv4 address.
    NoIpv4,
}

/// A [`TargetError`], with mathematical text.
pub enum TargetFault {
    Format,
    Port,
    Lookup(Seq<char>),
    NoIpv4,
}

impl View for TargetError {
    type V = TargetFault;

    open spec fn view(&self) -> TargetFault {
        match self {
            TargetError::Format => TargetFault::Format,
            TargetError::Port => TargetFault::Port,
            TargetError::Lookup(why) => TargetFault::Lookup(why@),
            TargetError::NoIpv4 => TargetFault::NoIpv4,
        }
    }
}

/// Whether the character at `i` is the one colon of `s`.
pub open spec fn only_colon(s: Seq<char>, i: int) -> bool {
    &&& 0 <= i < s.len()
    &&& s[i] == ':'
    &&& forall|j: int| 0 <= j < s.len() && j != i ==> #[trigger] s[j] != ':'
}

/// The two sides of the one colon of a target, if it has exactly one.
pub open spec fn target_parts(target: Seq<char>) -> Option<(Seq<char>, Seq<char>)> {
    if exists|i: int| only_colon(target, i) {
        let i = choose|i: int| only_colon(target, i);
        Some((target.take(i), target.skip(i + 1)))
    } else {
        None
    }
}

/// The address that a host spells out, if it does.
pub open spec fn literal_address(host: Seq<char>) -> Option<Ipv4Addr> {
    if exists|ip: Ipv4Addr| host == #[trigger] addr::ipv4_text(ip) {
        Some(choose|ip: Ipv4Addr| host == #[trigger] addr::ipv4_text(ip))
    } else {
        None
    }
}

/// The first IPv4 address of a list.
pub open spec fn first_ipv4(addrs: Seq<IpAddr>) -> Option<Ipv4Addr>
    decreases addrs.len(),
{
    if addrs.len() == 0 {
        None
    } else {
        match addrs[0] {
            IpAddr::V4(ip) => Some(ip),
            IpAddr::V6(_) => first_ipv4(addrs.drop_first()),
        }
    }
}

/// The address of a host: the one that it spells out, or else the first IPv4
/// address that was found for it.
pub open spec fn host_address(host: Seq<char>, answer: Answer) -> Result<Ipv4Addr, TargetFault> {
    match literal_address(host) {
        Some(ip) => Ok(ip),
        None => match answer {
            Err(why) => Err(TargetFault::Lookup(why@)),
            Ok(addrs) => match first_ipv4(addrs@) {
                Some(ip) => Ok(ip),
                None => Err(TargetFault::NoIpv4),
            },
        },
    }
}

/// The host and the port of a target.
pub open spec fn host_and_port(target: Seq<char>) -> Result<(Seq<char>, u16), TargetFault> {
    match target_parts(target) {
        None => Err(TargetFault::Format),
        Some((host, port)) => match text::port_number(port) {
            None => Err(TargetFault::Port),
            Some(port) => Ok((host, port)),
        },
    }
}

/// The address and the port of a target. The port is judged before the host.
pub open spec fn target_address(target: Seq<char>, answer: Answer) -> Result<
    (Ipv4Addr, u16),
    TargetFault,
> {
    match host_and_port(target) {
        Err(e) => Err(e),
        Ok((host, port)) => match host_address(host, answer) {
            Ok(ip) => Ok((ip, port)),
            Err(e) => Err(e),
        },
    }
}

/// The host of a target that has to be looked up, if any.
pub open spec fn host_to_look_up(target: Seq<char>) -> Option<Seq<char>> {
    match host_and_port(target) {
        Err(_) => None,
        Ok((host, _)) => if literal_address(host) is None {
            Some(host)
        } else {
            None
        },
    }
}

fn find_colon(chars: &Vec<char>) -> (r: Option<usize>)
    ensures
        match r {
            Some(i) => only_colon(chars@, i as int) && target_parts(chars@) == Some(
                (chars@.take(i as int), chars@.skip(i + 1)),
            ),
            None => target_parts(chars@) is None,
        },
{
    let mut found: Option<usize> = None;
    let mut i: usize = 0;
    while i < chars.len()
        invariant
            i <= chars@.len(),
            match found {
                Some(k) => k < i && chars@[k as int] == ':' && forall|j: int|
                    0 <= j < i && j != k ==> #[trigger] chars@[j] != ':',
                None => forall|j: int| 0 <= j < i ==> #[trigger] chars@[j] != ':',
            },
        decreases chars@.len() - i,
    {
        if chars[i] == ':' {
            if let Some(k) = found {
                proof {
                    assert forall|c: int| !only_colon(chars@, c) by {
                        assert(chars@[k as int] == ':' && chars@[i as int] == ':');
                    }
                }
                return None;
            }
            found = Some(i);
        }
        i = i + 1;
    }
    proof {
        match found {
            Some(k) => {
                assert(only_colon(chars@, k as int));
                let c = choose|c: int| only_colon(chars@, c);
                assert(c == k);
            },
            None => {
                assert forall|c: int| !only_colon(chars@, c) by {
                    if 0 <= c < chars@.len() {
                        assert(chars@[c] != ':');
                    }
                }
            },
        }
    }
    found
}

fn literal(host: &str) -> (r: Option<Ipv4Addr>)
    ensures
        r == literal_address(host@),
{
    let r = ipv4_literal(host);
    proof {
        if let Some(ip) = r {
            assert(host@ == addr::ipv4_text(ip));
            let chosen = choose|ip: Ipv4Addr| host@ == #[trigger] addr::ipv4_text(ip);
            addr::ipv4_text_is_unambiguous(ip, chosen);
        }
    }
    r
}

/// Takes a target apart.
pub fn split_target(target: &str) -> (r: Result<(String, u16), TargetError>)
    ensures
        match (r, host_and_port(target@)) {
            (Ok((host, port)), Ok((name, number))) => host@ == name && port == number,
            (Err(e), Err(fault)) => e@ == fault,
            _ => false,
        },
{
    let chars = chars_of(target);
    match find_colon(&chars) {
        None => Err(TargetError::Format),
        Some(i) => {
            let len: usize = chars.len();
            assert(i < len);
            match parse_port(&chars, i + 1) {
                None => Err(TargetError::Port),
                Some(port) => {
                    let host = string_of(&chars, 0, i);
                    assert(host@ == target@.take(i as int));
                    Ok((host, port))
                },
            }
        },
    }
}

/// Says which host has to be looked up before the address of a target is known.
pub fn lookup_host(target: &str) -> (r: Option<String>)
    ensures
        match (r, host_to_look_up(target@)) {
            (Some(host), Some(name)) => host@ == name,
            (None, None) => true,
            _ => false,
        },
{
    match split_target(target) {
        Err(_) => None,
        Ok((host, _)) => {
            if literal(host.as_str()).is_none() {
                Some(host)
            } else {
                None
            }
        },
    }
}

fn pick_ipv4(addrs: &Vec<IpAddr>) -> (r: Option<Ipv4Addr>)
    ensures
        r == first_ipv4(addrs@),
{
    let mut i: usize = 0;
    assert(addrs@.skip(0) == addrs@);
    while i < addrs.len()
        invariant
            i <= addrs@.len(),
            first_ipv4(addrs@) == first_ipv4(addrs@.skip(i as int)),
        decreases addrs@.len() - i,
    {
        assert(addrs@.skip(i as int).drop_first() == addrs@.skip(i + 1));
        if let IpAddr::V4(ip) = addrs[i] {
            return Some(ip);
        }
        i = i + 1;
    }
    None
}

/// Turns a host into an address. The answer to a lookup counts only where the
/// host does not spell out an address itself.
pub fn convert_to_ipv4(host: &str, answer: &Answer) -> (r: Result<Ipv4Addr, TargetError>)
    ensures
        match (r, host_address(host@, *answer)) {
            (Ok(ip), Ok(expected)) => ip == expected,
            (Err(e), Err(fault)) => e@ == fault,
            _ => false,
        },
{
    if let Some(ip) = literal(host) {
        return Ok(ip);
    }
    match answer {
        Err(why) => Err(TargetError::Lookup(why.clone())),
        Ok(addrs) => match pick_ipv4(addrs) {
            Some(ip) => Ok(ip),
            None => Err(TargetError::NoIpv4),
        },
    }
}

/// A lookup matters only where one is called for: any two answers give the same
/// result for a target whose host needs none.
pub proof fn lookup_matters_only_where_needed(target: Seq<char>, one: Answer, other: Answer)
    requires
        host_to_look_up(target) is None,
    ensures
        target_address(target, one) == target_address(target, other),
{
}

/// An address and a port in their usual form are a target that is read as just
/// these, whatever a lookup would say.
pub proof fn spelled_out_target(ip: Ipv4Addr, port: u16, answer: Answer)
    ensures
        target_address(
            addr::ipv4_text(ip) + seq![':'] + text::decimal(port as nat),
            answer,
        ) == Ok::<(Ipv4Addr, u16), TargetFault>((ip, port)),
{
    let host = addr::ipv4_text(ip);
    let digits = text::decimal(port as nat);
    let s = host + seq![':'] + digits;
    let at = host.len() as int;
    text::lemma_decimal(ip.a as nat);
    text::lemma_decimal(ip.b as nat);
    text::lemma_decimal(ip.c as nat);
    text::lemma_decimal(ip.d as nat);
    text::lemma_decimal(port as nat);
    assert forall|j: int| 0 <= j < digits.len() implies #[trigger] digits[j] != ':' by {
        assert(text::is_digit(digits[j]));
    }
    assert forall|j: int| 0 <= j < host.len() implies #[trigger] host[j] != ':' by {
        lemma_no_colon(ip, j);
    }
    assert(only_colon(s, at)) by {
        assert forall|j: int| 0 <= j < s.len() && j != at implies #[trigger] s[j] != ':' by {
            if j < at {
                assert(s[j] == host[j]);
            } else {
                assert(s[j] == digits[j - at - 1]);
            }
        }
    }
    let i = choose|i: int| only_colon(s, i);
    assert(i == at);
    assert(s.take(at) == host);
    assert(s.skip(at + 1) == digits);
    assert(text::is_digit(digits[0]));
    let chosen = choose|x: Ipv4Addr| host == #[trigger] addr::ipv4_text(x);
    addr::ipv4_text_is_unambiguous(ip, chosen);
}

proof fn lemma_no_colon(ip: Ipv4Addr, j: int)
    requires
        0 <= j < addr::ipv4_text(ip).len(),
    ensures
        addr::ipv4_text(ip)[j] != ':',
{
    let a = text::decimal(ip.a as nat);
    let b = text::decimal(ip.b as nat);
    let c = text::decimal(ip.c as nat);
    let d = text::decimal(ip.d as nat);
    text::lemma_decimal(ip.a as nat);
    text::lemma_decimal(ip.b as nat);
    text::lemma_decimal(ip.c as nat);
    text::lemma_decimal(ip.d as nat);
    let s = addr::ipv4_text(ip);
    let p = a.len() as int;
    let q = p + 1 + b.len();
    let r = q + 1 + c.len();
    if j < p {
        assert(s[j] == a[j] && text::is_digit(a[j]));
    } else if p < j < q {
        assert(s[j] == b[j - p - 1] && text::is_digit(b[j - p - 1]));
    } else if q < j < r {
        assert(s[j] == c[j - q - 1] && text::is_digit(c[j - q - 1]));
    } else if r < j {
        assert(s[j] == d[j - r - 1] && text::is_digit(d[j - r - 1]));
    }
}

// ---------- Laws ----------


/// Of the addresses that were found for a host, the first that is IPv4 is the
/// host's, wherever in the list it stands.
pub proof fn the_first_ipv4_counts(host: Seq<char>, addrs: Vec<IpAddr>, i: int, ip: Ipv4Addr)
    requires
        forall|x: Ipv4Addr| host != #[trigger] addr::ipv4_text(x),
        0 <= i < addrs@.len(),
        addrs@[i] == IpAddr::V4(ip),
        forall|j: int| 0 <= j < i ==> (#[trigger] addrs@[j]) is V6,
    ensures
        host_address(host, Ok(addrs)) == Ok::<Ipv4Addr, TargetFault>(ip),
{
    lemma_first_ipv4(addrs@, i);
}

/// A host has no IPv4 address only where none of the addresses found is one.
pub proof fn no_ipv4_means_none_at_all(host: Seq<char>, addrs: Vec<IpAddr>)
    requires
        forall|x: Ipv4Addr| host != #[trigger] addr::ipv4_text(x),
    ensures
        host_address(host, Ok(addrs)) == Err::<Ipv4Addr, TargetFault>(TargetFault::NoIpv4)
            <==> forall|j: int| 0 <= j < addrs@.len() ==> (#[trigger] addrs@[j]) is V6,
        host_address(host, Ok(addrs)) is Ok <==> exists|j: int|
            0 <= j < addrs@.len() && (#[trigger] addrs@[j]) is V4,
{
    lemma_first_ipv4(addrs@, addrs@.len() as int);
}

proof fn lemma_first_ipv4(addrs: Seq<IpAddr>, i: int)
    requires
        0 <= i <= addrs.len(),
    ensures
        i < addrs.len() && (addrs[i] matches IpAddr::V4(ip) && forall|j: int|
            0 <= j < i ==> (#[trigger] addrs[j]) is V6) ==> first_ipv4(addrs) == Some(
            addrs[i]->V4_0,
        ),
        first_ipv4(addrs) is None <==> forall|j: int|
            0 <= j < addrs.len() ==> (#[trigger] addrs[j]) is V6,
    decreases addrs.len(),
{
    if addrs.len() > 0 {
        let t = addrs.drop_first();
        lemma_first_ipv4(
            t,
            if i > 0 {
                i - 1
            } else {
                0
            },
        );
        if first_ipv4(addrs) is None {
            assert forall|j: int| 0 <= j < addrs.len() implies (#[trigger] addrs[j]) is V6 by {
                if j > 0 {
                    assert(addrs[j] == t[j - 1]);
                }
            }
        }
        if forall|j: int| 0 <= j < addrs.len() ==> (#[trigger] addrs[j]) is V6 {
            assert(addrs[0] is V6);
            assert forall|j: int| 0 <= j < t.len() implies (#[trigger] t[j]) is V6 by {
                assert(t[j] == addrs[j + 1]);
            }
        }
        if i > 0 && i < addrs.len() && addrs[i] is V4 && (forall|j: int|
            0 <= j < i ==> (#[trigger] addrs[j]) is V6) {
            assert(addrs[0] is V6);
            assert(t[i - 1] == addrs[i]);
            assert forall|j: int| 0 <= j < i - 1 implies (#[trigger] t[j]) is V6 by {
                assert(t[j] == addrs[j + 1]);
            }
        }
    }
}

/// A host that spells out an address has that address, whatever was found for
/// it. Any other has none where it could not be looked up, for the reason given.
pub proof fn what_a_lookup_decides(host: Seq<char>, why: String, answer: Answer, ip: Ipv4Addr)
    ensures
        host_address(addr::ipv4_text(ip), answer) == Ok::<Ipv4Addr, TargetFault>(ip),
        (forall|x: Ipv4Addr| host != #[trigger] addr::ipv4_text(x)) ==> host_address(
            host,
            Err(why),
        ) == Err::<Ipv4Addr, TargetFault>(TargetFault::Lookup(why@)),
{
    let chosen = choose|x: Ipv4Addr| addr::ipv4_text(ip) == #[trigger] addr::ipv4_text(x);
    addr::ipv4_text_is_unambiguous(ip, chosen);
}

/// The two sides of the one colon of a target are what stands there.
pub proof fn lemma_parts(host: Seq<char>, port: Seq<char>)
    requires
        !host.contains(':'),
        !port.contains(':'),
    ensures
        target_parts(host + seq![':'] + port) == Some((host, port)),
{
    let target = host + seq![':'] + port;
    let at = host.len() as int;
    assert(only_colon(target, at)) by {
        assert forall|j: int| 0 <= j < target.len() && j != at implies #[trigger] target[j]
            != ':' by {
            if j < at {
                assert(target[j] == host[j]);
                assert(host.contains(host[j]));
            } else {
                assert(target[j] == port[j - at - 1]);
                assert(port.contains(port[j - at - 1]));
            }
        }
    }
    let i = choose|i: int| only_colon(target, i);
    assert(i == at);
    assert(target.take(at) == host);
    assert(target.skip(at + 1) == port);
}

/// A target is a host and a port around one colon: neither side may hold
/// another. The port is judged first; with a good one the target has the
/// address of its host and just that port, and is refused for the host's fault
/// otherwise. The host is looked up unless it spells out an address.
pub proof fn what_a_target_is(host: Seq<char>, port: Seq<char>, answer: Answer)
    requires
        !host.contains(':'),
        !port.contains(':'),
    ensures
        ({
            let target = host + seq![':'] + port;
            match text::port_number(port) {
                None => host_and_port(target) == Err::<(Seq<char>, u16), TargetFault>(
                    TargetFault::Port,
                ) && target_address(target, answer) == Err::<(Ipv4Addr, u16), TargetFault>(
                    TargetFault::Port,
                ) && host_to_look_up(target) is None,
                Some(number) => host_and_port(target) == Ok::<(Seq<char>, u16), TargetFault>(
                    (host, number),
                ) && (match host_address(host, answer) {
                    Ok(ip) => target_address(target, answer) == Ok::<
                        (Ipv4Addr, u16),
                        TargetFault,
                    >((ip, number)),
                    Err(fault) => target_address(target, answer) == Err::<
                        (Ipv4Addr, u16),
                        TargetFault,
                    >(fault),
                }) && host_to_look_up(target) == (if exists|x: Ipv4Addr|
                    host == #[trigger] addr::ipv4_text(x) {
                    None::<Seq<char>>
                } else {
                    Some(host)
                }),
            }
        }),
{
    lemma_parts(host, port);
}

/// Text without a colon, or with two, is no target.
pub proof fn what_no_target_is(target: Seq<char>, answer: Answer)
    requires
        !target.contains(':') || exists|i: int, j: int|
            0 <= i < j < target.len() && #[trigger] target[i] == ':' && #[trigger] target[j] == ':',
    ensures
        host_and_port(target) == Err::<(Seq<char>, u16), TargetFault>(TargetFault::Format),
        target_address(target, answer) == Err::<(Ipv4Addr, u16), TargetFault>(TargetFault::Format),
        host_to_look_up(target) is None,
{
    assert forall|c: int| !only_colon(target, c) by {
        if only_colon(target, c) {
            assert(target.contains(target[c]));
        }
    }
}

} // verus!
