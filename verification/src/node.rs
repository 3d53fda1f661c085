//! Application data carried by the log, and the numeric node ids that stand
//! for node addresses.
//!
//! A node id keeps the low 64 bits of the node's IPv6 address (an IPv4
//! address taken in its IPv4-mapped form), the last eight octets read as a
//! big-endian number, and adds the 16-bit port to it, wrapping around at
//! 2^64. The other 64 bits of the address are lost; two addresses with the
//! same port get the same id exactly when their low 64 bits agree.

use vstd::prelude::*;

verus! {

/// A client request: the bytes of a command.
#[derive(Clone, Debug)]
pub struct RaftRequest {
    data: Vec<u8>,
}

impl View for RaftRequest {
    type V = Seq<u8>;

    closed spec fn view(&self) -> Seq<u8> {
        self.data@
    }
}

impl RaftRequest {
    pub fn new(data: Vec<u8>) -> (r: Self)
        ensures
            r@ == data@,
    {
        RaftRequest { data }
    }

    /// A copy of the request's bytes.
    pub fn to_bytes(&self) -> (bytes: Vec<u8>)
        ensures
            bytes@ == self@,
    {
        let bytes = self.data.clone();
        assert(bytes@ =~= self.data@);
        bytes
    }
}

/// The answer to a client request: an optional message.
#[derive(Clone, Debug)]
pub struct RaftResponse(Option<String>);

impl View for RaftResponse {
    type V = Option<Seq<char>>;

    closed spec fn view(&self) -> Option<Seq<char>> {
        match self.0 {
            Some(m) => Some(m@),
            None => None,
        }
    }
}

impl RaftResponse {
    pub fn new(message: Option<String>) -> (r: Self)
        ensures
            r@ == (match message {
                Some(m) => Some(m@),
                None => None,
            }),
    {
        RaftResponse(message)
    }

    /// The message.
    pub fn into_inner(self) -> (message: Option<String>)
        ensures
            self@ == (match message {
                Some(m) => Some(m@),
                None => None,
            }),
    {
        self.0
    }
}

/// An IP address by its octets, in network order.
pub enum IpAddress {
    V4([u8; 4]),
    V6([u8; 16]),
}

/// An IP address and a port.
pub struct SocketAddress {
    pub ip: IpAddress,
    pub port: u16,
}

/// The sixteen octets of an address as IPv6; an IPv4 address `a.b.c.d`
/// becomes `::ffff:a.b.c.d`.
pub open spec fn ipv6_octets(ip: IpAddress) -> Seq<u8> {
    match ip {
        IpAddress::V4(o) => seq![0u8, 0, 0, 0, 0, 0, 0, 0, 0, 0, 0xff, 0xff] + o@,
        IpAddress::V6(o) => o@,
    }
}

/// The low 64 bits of sixteen IPv6 octets: the last eight, big-endian.
pub open spec fn low_bits(octets: Seq<u8>) -> int {
    octets[8] * 0x100_0000_0000_0000 + octets[9] * 0x1_0000_0000_0000 + octets[10] * 0x100_0000_0000
        + octets[11] * 0x1_0000_0000 + octets[12] * 0x100_0000 + octets[13] * 0x1_0000
        + octets[14] * 0x100 + octets[15]
}

/// The node id of the IPv6 octets `octets` and port `port`: the low 64 bits
/// of the address plus the port, modulo 2^64.
pub open spec fn id_of(octets: Seq<u8>, port: u16) -> int {
    if low_bits(octets) + port < 0x1_0000_0000_0000_0000 {
        low_bits(octets) + port
    } else {
        low_bits(octets) + port - 0x1_0000_0000_0000_0000
    }
}

/// The IPv6 octets of the address that a node id stands for: eight zero
/// octets, then the id with its lower two bytes cleared, big-endian.
pub open spec fn id_octets(id: u64) -> Seq<u8> {
    seq![
        0u8, 0, 0, 0, 0, 0, 0, 0,
        (id / 0x100_0000_0000_0000) as u8,
        (id / 0x1_0000_0000_0000 % 0x100) as u8,
        (id / 0x100_0000_0000 % 0x100) as u8,
        (id / 0x1_0000_0000 % 0x100) as u8,
        (id / 0x100_0000 % 0x100) as u8,
        (id / 0x1_0000 % 0x100) as u8,
        0, 0,
    ]
}

/// The port of the address that a node id stands for: its lower two bytes.
pub open spec fn id_port(id: u64) -> u16 {
    (id % 0x1_0000) as u16
}

/// The node id of an address.
pub fn addr_to_id(addr: &SocketAddress) -> (id: u64)
    ensures
        id == id_of(ipv6_octets(addr.ip), addr.port),
{
    let (a, b, c, d, e, f, g, h): (u8, u8, u8, u8, u8, u8, u8, u8) = match &addr.ip {
        IpAddress::V4(o) => (0, 0, 0xff, 0xff, o[0], o[1], o[2], o[3]),
        IpAddress::V6(o) => (o[8], o[9], o[10], o[11], o[12], o[13], o[14], o[15]),
    };
    proof {
        let s = ipv6_octets(addr.ip);
        assert(s[8] == a && s[9] == b && s[10] == c && s[11] == d && s[12] == e && s[13] == f
            && s[14] == g && s[15] == h);
    }
    let low: u64 = (a as u64) * 0x100_0000_0000_0000 + (b as u64) * 0x1_0000_0000_0000
        + (c as u64) * 0x100_0000_0000 + (d as u64) * 0x1_0000_0000 + (e as u64) * 0x100_0000
        + (f as u64) * 0x1_0000 + (g as u64) * 0x100 + (h as u64);
    let port = addr.port as u64;
    if low <= u64::MAX - port {
        low + port
    } else {
        low - (u64::MAX - port) - 1
    }
}

/// The address that a node id stands for, as IPv6: the id with its lower two
/// bytes cleared as the low 64 bits, and those two bytes as the port. Its
/// node id is the id again.
pub fn id_to_addr(id: u64) -> (addr: SocketAddress)
    ensures
        addr.ip matches IpAddress::V6(o) && o@ == id_octets(id),
        addr.port == id_port(id),
{
    let octets: [u8; 16] = [
        0, 0, 0, 0, 0, 0, 0, 0,
        (id / 0x100_0000_0000_0000) as u8,
        (id / 0x1_0000_0000_0000 % 0x100) as u8,
        (id / 0x100_0000_0000 % 0x100) as u8,
        (id / 0x1_0000_0000 % 0x100) as u8,
        (id / 0x100_0000 % 0x100) as u8,
        (id / 0x1_0000 % 0x100) as u8,
        0, 0,
    ];
    assert(octets@ =~= id_octets(id));
    SocketAddress { ip: IpAddress::V6(octets), port: (id % 0x1_0000) as u16 }
}

/// The address that a node id stands for has that node id.
pub proof fn lemma_id_addr_id(id: u64)
    ensures
        id_of(id_octets(id), id_port(id)) == id,
{
    assert(
        (id / 0x100_0000_0000_0000) * 0x100_0000_0000_0000
        + (id / 0x1_0000_0000_0000 % 0x100) * 0x1_0000_0000_0000
        + (id / 0x100_0000_0000 % 0x100) * 0x100_0000_0000
        + (id / 0x1_0000_0000 % 0x100) * 0x1_0000_0000
        + (id / 0x100_0000 % 0x100) * 0x100_0000
        + (id / 0x1_0000 % 0x100) * 0x1_0000
        + id % 0x1_0000 == id
    ) by (bit_vector);
}

/// An address whose first eight and last two IPv6 octets are zero is the
/// address of its own node id.
pub proof fn lemma_addr_id_addr(octets: Seq<u8>, port: u16)
    requires
        octets.len() == 16,
        forall|i: int| 0 <= i < 8 ==> octets[i] == 0,
        octets[14] == 0,
        octets[15] == 0,
    ensures
        0 <= id_of(octets, port) <= u64::MAX,
        id_octets(id_of(octets, port) as u64) == octets,
        id_port(id_of(octets, port) as u64) == port,
{
    let (a, b, c, d, e, f) = (octets[8], octets[9], octets[10], octets[11], octets[12], octets[13]);
    let sum: int = (a as u64) * 0x100_0000_0000_0000 + (b as u64) * 0x1_0000_0000_0000 + (c as u64) * 0x100_0000_0000
        + (d as u64) * 0x1_0000_0000 + (e as u64) * 0x100_0000 + (f as u64) * 0x1_0000 + (port as u64);
    assert(sum == id_of(octets, port));
    let id: u64 = sum as u64;
    assert(
        id / 0x100_0000_0000_0000 == a
        && id / 0x1_0000_0000_0000 % 0x100 == b
        && id / 0x100_0000_0000 % 0x100 == c
        && id / 0x1_0000_0000 % 0x100 == d
        && id / 0x100_0000 % 0x100 == e
        && id / 0x1_0000 % 0x100 == f
        && id % 0x1_0000 == port
    ) by (bit_vector)
        requires
            id == (a as u64) * 0x100_0000_0000_0000 + (b as u64) * 0x1_0000_0000_0000 + (c as u64) * 0x100_0000_0000
                + (d as u64) * 0x1_0000_0000 + (e as u64) * 0x100_0000 + (f as u64) * 0x1_0000 + (port as u64);
    assert(id_octets(id) =~= octets);
}

/// Of two addresses with the same port, the node ids are equal exactly when
/// the low 64 bits of the addresses are.
pub proof fn lemma_same_port_ids(a: Seq<u8>, b: Seq<u8>, port: u16)
    requires
        a.len() == 16,
        b.len() == 16,
    ensures
        (id_of(a, port) == id_of(b, port)) <==> (low_bits(a) == low_bits(b)),
{
    assert(0 <= low_bits(a) < 0x1_0000_0000_0000_0000);
    assert(0 <= low_bits(b) < 0x1_0000_0000_0000_0000);
}

/// The id of an IPv4 address `a.b.c.d` with port `p` is that of
/// `::ffff:a.b.c.d`: the number 0xffff_a_b_c_d (the four octets big-endian
/// under 0xffff) plus the port.
pub proof fn lemma_v4_id(a: [u8; 4], port: u16)
    ensures
        id_of(ipv6_octets(IpAddress::V4(a)), port) == 0xffff_0000_0000 + a[0] * 0x100_0000
            + a[1] * 0x1_0000 + a[2] * 0x100 + a[3] + port,
{
    let o = ipv6_octets(IpAddress::V4(a));
    assert(o[8] == 0 && o[9] == 0 && o[10] == 0xff && o[11] == 0xff);
    assert(o[12] == a[0] && o[13] == a[1] && o[14] == a[2] && o[15] == a[3]);
}

/// Two IPv4 addresses with the same port have the same id only if they are
/// the same address: all 32 bits of an IPv4 address are kept.
pub proof fn lemma_v4_ids_distinct(a: [u8; 4], b: [u8; 4], port: u16)
    requires
        id_of(ipv6_octets(IpAddress::V4(a)), port) == id_of(ipv6_octets(IpAddress::V4(b)), port),
    ensures
        a@ == b@,
{
    lemma_v4_id(a, port);
    lemma_v4_id(b, port);
    let (a0, a1, a2, a3, b0, b1, b2, b3) = (a[0], a[1], a[2], a[3], b[0], b[1], b[2], b[3]);
    assert(a0 == b0 && a1 == b1 && a2 == b2 && a3 == b3) by (bit_vector)
        requires
            (a0 as u64) * 0x100_0000 + (a1 as u64) * 0x1_0000 + (a2 as u64) * 0x100 + (a3 as u64)
                == (b0 as u64) * 0x100_0000 + (b1 as u64) * 0x1_0000 + (b2 as u64) * 0x100 + (b3 as u64);
    assert(a@ =~= b@);
}

/// Two IPv6 addresses with the same port have the same id exactly when their
/// last eight octets agree; the first eight play no part.
pub proof fn lemma_v6_same_port_ids(a: [u8; 16], b: [u8; 16], port: u16)
    ensures
        (id_of(ipv6_octets(IpAddress::V6(a)), port) == id_of(ipv6_octets(IpAddress::V6(b)), port))
            <==> (a@.subrange(8, 16) == b@.subrange(8, 16)),
{
    lemma_same_port_ids(a@, b@, port);
    let (x0, x1, x2, x3, x4, x5, x6, x7) = (a[8], a[9], a[10], a[11], a[12], a[13], a[14], a[15]);
    let (y0, y1, y2, y3, y4, y5, y6, y7) = (b[8], b[9], b[10], b[11], b[12], b[13], b[14], b[15]);
    if low_bits(a@) == low_bits(b@) {
        assert(x0 == y0 && x1 == y1 && x2 == y2 && x3 == y3 && x4 == y4 && x5 == y5 && x6 == y6 && x7 == y7)
            by (bit_vector)
            requires
                (x0 as u64) * 0x100_0000_0000_0000 + (x1 as u64) * 0x1_0000_0000_0000 + (x2 as u64) * 0x100_0000_0000
                    + (x3 as u64) * 0x1_0000_0000 + (x4 as u64) * 0x100_0000 + (x5 as u64) * 0x1_0000
                    + (x6 as u64) * 0x100 + (x7 as u64)
                == (y0 as u64) * 0x100_0000_0000_0000 + (y1 as u64) * 0x1_0000_0000_0000 + (y2 as u64) * 0x100_0000_0000
                    + (y3 as u64) * 0x1_0000_0000 + (y4 as u64) * 0x100_0000 + (y5 as u64) * 0x1_0000
                    + (y6 as u64) * 0x100 + (y7 as u64);
        assert(a@.subrange(8, 16) =~= b@.subrange(8, 16));
    }
    if a@.subrange(8, 16) == b@.subrange(8, 16) {
        let sa = a@.subrange(8, 16);
        let sb = b@.subrange(8, 16);
        assert(sa[0] == x0 && sa[1] == x1 && sa[2] == x2 && sa[3] == x3);
        assert(sa[4] == x4 && sa[5] == x5 && sa[6] == x6 && sa[7] == x7);
        assert(sb[0] == y0 && sb[1] == y1 && sb[2] == y2 && sb[3] == y3);
        assert(sb[4] == y4 && sb[5] == y5 && sb[6] == y6 && sb[7] == y7);
    }
}

} // verus!
