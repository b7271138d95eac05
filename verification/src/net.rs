//! Socket addresses as plain values: the standard parser fills them, the
//! relay's logic reads them.
use vstd::prelude::*;
use vstd::string::*;

use crate::text::{decimal, decimal_string};

verus! {

/// An IP address, by its octets (v4) or its 16-bit segments (v6).
#[derive(Clone, Copy, Debug, PartialEq, Eq)]
pub enum IpAddress {
    V4(u8, u8, u8, u8),
    V6(u16, u16, u16, u16, u16, u16, u16, u16),
}

/// An IP address with a port.
#[derive(Clone, Copy, Debug, PartialEq, Eq)]
pub struct SocketAddress {
    pub ip: IpAddress,
    pub port: u16,
}

/// What `text.parse::<SocketAddr>()` yields, as plain values.
pub uninterp spec fn socket_address_of(text: Seq<char>) -> Option<SocketAddress>;

/// Calls `str::parse::<core::net::SocketAddr>` and reads the result's address
/// and port back out. The contract only names the result: the grammar of
/// socket addresses is the standard library's and is not restated here.
#[verifier::external_body]
pub(crate) fn parse_socket_address(text: &str) -> (r: Option<SocketAddress>)
    ensures
        r == socket_address_of(text@),
{
    match text.parse::<core::net::SocketAddr>() {
        Ok(core::net::SocketAddr::V4(a)) => {
            let [a0, a1, a2, a3] = a.ip().octets();
            Some(SocketAddress { ip: IpAddress::V4(a0, a1, a2, a3), port: a.port() })
        },
        Ok(core::net::SocketAddr::V6(a)) => {
            let [s0, s1, s2, s3, s4, s5, s6, s7] = a.ip().segments();
            let ip = IpAddress::V6(s0, s1, s2, s3, s4, s5, s6, s7);
            Some(SocketAddress { ip, port: a.port() })
        },
        Err(_) => None,
    }
}

/// `0.0.0.0` or `::`.
pub open spec fn is_unspecified(ip: IpAddress) -> bool {
    match ip {
        IpAddress::V4(a, b, c, d) => a == 0 && b == 0 && c == 0 && d == 0,
        IpAddress::V6(a, b, c, d, e, f, g, h) => a == 0 && b == 0 && c == 0 && d == 0 && e == 0
            && f == 0 && g == 0 && h == 0,
    }
}

pub fn ip_is_unspecified(ip: &IpAddress) -> (b: bool)
    ensures
        b == is_unspecified(*ip),
{
    match ip {
        IpAddress::V4(a, b, c, d) => *a == 0 && *b == 0 && *c == 0 && *d == 0,
        IpAddress::V6(a, b, c, d, e, f, g, h) => *a == 0 && *b == 0 && *c == 0 && *d == 0 && *e
            == 0 && *f == 0 && *g == 0 && *h == 0,
    }
}

/// What `Ipv6Addr::to_string` writes for the given segments.
pub uninterp spec fn ipv6_text(
    a: u16,
    b: u16,
    c: u16,
    d: u16,
    e: u16,
    f: u16,
    g: u16,
    h: u16,
) -> Seq<char>;

/// Calls `Ipv6Addr::to_string` (RFC 5952 text, with zero compression); the
/// contract names its result without restating that format.
#[verifier::external_body]
fn ipv6_to_string(a: u16, b: u16, c: u16, d: u16, e: u16, f: u16, g: u16, h: u16) -> (r: String)
    ensures
        r@ == ipv6_text(a, b, c, d, e, f, g, h),
{
    core::net::Ipv6Addr::new(a, b, c, d, e, f, g, h).to_string()
}

/// Dotted-decimal text of an IPv4 address.
pub open spec fn ipv4_text(a: u8, b: u8, c: u8, d: u8) -> Seq<char> {
    decimal(a as nat) + "."@ + decimal(b as nat) + "."@ + decimal(c as nat) + "."@ + decimal(
        d as nat,
    )
}

/// The text that `IpAddr::to_string` writes.
pub open spec fn ip_text(ip: IpAddress) -> Seq<char> {
    match ip {
        IpAddress::V4(a, b, c, d) => ipv4_text(a, b, c, d),
        IpAddress::V6(a, b, c, d, e, f, g, h) => ipv6_text(a, b, c, d, e, f, g, h),
    }
}

pub fn ip_to_string(ip: &IpAddress) -> (r: String)
    ensures
        r@ == ip_text(*ip),
{
    match ip {
        IpAddress::V4(a, b, c, d) => {
            let mut s = decimal_string(*a as u64);
            s.append(".");
            s.append(decimal_string(*b as u64).as_str());
            s.append(".");
            s.append(decimal_string(*c as u64).as_str());
            s.append(".");
            s.append(decimal_string(*d as u64).as_str());
            s
        },
        IpAddress::V6(a, b, c, d, e, f, g, h) => ipv6_to_string(*a, *b, *c, *d, *e, *f, *g, *h),
    }
}

} // verus!
