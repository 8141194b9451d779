//! The PROXY protocol header, version 2, by which a server learns who is
//! behind the proxy.

use vstd::prelude::*;

use crate::addr::{IpAddr, Ipv4Addr, SocketAddr};
use crate::wire;

verus! {

/// The twelve bytes that every header of version 2 begins with.
pub open spec fn signature() -> Seq<u8> {
    seq![0x0Du8, 0x0A, 0x0D, 0x0A, 0x00, 0x0D, 0x0A, 0x51, 0x55, 0x49, 0x54, 0x0A]
}

/// The octets of an address.
pub open spec fn octets(ip: Ipv4Addr) -> Seq<u8> {
    seq![ip.a, ip.b, ip.c, ip.d]
}

/// The header for a TCP connection over IPv4: signature, version and command,
/// address family and transport, length of the rest, the two addresses, the
/// two ports.
pub open spec fn v2_header(
    src: Ipv4Addr,
    src_port: u16,
    dst: Ipv4Addr,
    dst_port: u16,
) -> Seq<u8> {
    signature() + seq![0x21u8, 0x11] + wire::be16(12) + octets(src) + octets(dst) + wire::be16(
        src_port,
    ) + wire::be16(dst_port)
}

/// `proxy_protocol::encode` for a `Version2` header with the command `Proxy`,
/// the transport `Stream` and two IPv4 addresses. It returns the header in the
/// binary format and does not fail for this version.
#[verifier::external_body]
fn encode_v2(src: Ipv4Addr, src_port: u16, dst: Ipv4Addr, dst_port: u16) -> (r: Vec<u8>)
    ensures
        r@ == v2_header(src, src_port, dst, dst_port),
{
    proxy_protocol::encode(proxy_protocol::ProxyHeader::Version2 {
        command: proxy_protocol::version2::ProxyCommand::Proxy,
        transport_protocol: proxy_protocol::version2::ProxyTransportProtocol::Stream,
        addresses: proxy_protocol::version2::ProxyAddresses::Ipv4 {
            source: format!("{}.{}.{}.{}:{}", src.a, src.b, src.c, src.d, src_port).parse().unwrap(),
            destination: format!("{}.{}.{}.{}:{}", dst.a, dst.b, dst.c, dst.d, dst_port).parse().unwrap(),
        },
    }).unwrap().to_vec()
}

/// The header for a connection between two addresses, which are IPv4.
pub open spec fn header_between(src: SocketAddr, dst: SocketAddr) -> Seq<u8> {
    v2_header(src.ip->V4_0, src.port, dst.ip->V4_0, dst.port)
}

/// Builds the header for a connection from `src` to `dst`.
pub fn encode_proxy_protocol_v2_header(src: &SocketAddr, dst: &SocketAddr) -> (r: Vec<u8>)
    requires
        src.ip is V4,
        dst.ip is V4,
    ensures
        r@ == header_between(*src, *dst),
{
    match (src.ip, dst.ip) {
        (IpAddr::V4(s), IpAddr::V4(d)) => encode_v2(s, src.port, d, dst.port),
        _ => vstd::pervasive::unreached(),
    }
}

/// Puts the header in front of what the client has sent.
pub fn encapsulate_with_proxy_protocol(src: &SocketAddr, dst: &SocketAddr, data: &[u8]) -> (r: Vec<
    u8,
>)
    requires
        src.ip is V4,
        dst.ip is V4,
    ensures
        r@ == header_between(*src, *dst) + data@,
{
    let mut buf = encode_proxy_protocol_v2_header(src, dst);
    buf.extend_from_slice(data);
    buf
}

/// The server can tell the client: its address and its port stand in the
/// header at fixed places, whatever follows.
pub proof fn header_names_the_client(
    src: Ipv4Addr,
    src_port: u16,
    dst: Ipv4Addr,
    dst_port: u16,
    data: Seq<u8>,
)
    ensures
        (v2_header(src, src_port, dst, dst_port) + data).subrange(16, 20) == octets(src),
        (v2_header(src, src_port, dst, dst_port) + data).subrange(20, 24) == octets(dst),
        (v2_header(src, src_port, dst, dst_port) + data).subrange(24, 26) == wire::be16(src_port),
        (v2_header(src, src_port, dst, dst_port) + data).subrange(26, 28) == wire::be16(dst_port),
        (v2_header(src, src_port, dst, dst_port) + data).skip(28) == data,
{
}

// ---------- Laws ----------


/// The header byte by byte: twenty-eight bytes, of which the first sixteen are
/// always the same, then the address of the client, that of the server, and the
/// two ports, most significant byte first.
pub proof fn the_header_byte_by_byte(src: SocketAddr, dst: SocketAddr, s: Ipv4Addr, d: Ipv4Addr)
    requires
        src.ip == IpAddr::V4(s),
        dst.ip == IpAddr::V4(d),
    ensures
        header_between(src, dst) == seq![
            0x0Du8,
            0x0A,
            0x0D,
            0x0A,
            0x00,
            0x0D,
            0x0A,
            0x51,
            0x55,
            0x49,
            0x54,
            0x0A,
            0x21,
            0x11,
            0x00,
            0x0C,
            s.a,
            s.b,
            s.c,
            s.d,
            d.a,
            d.b,
            d.c,
            d.d,
            (src.port / 256) as u8,
            (src.port % 256) as u8,
            (dst.port / 256) as u8,
            (dst.port % 256) as u8,
        ],
{
}

} // verus!
