use vstd::prelude::*;

verus! {

/// An IPv4 address, held as its four octets in network order.
#[derive(Clone, Copy, Debug, PartialEq, Eq, Structural, Hash)]
pub struct Ipv4Addr {
    pub a: u8,
    pub b: u8,
    pub c: u8,
    pub d: u8,
}

impl Ipv4Addr {
    /// The address `a.b.c.d`.
    pub fn new(a: u8, b: u8, c: u8, d: u8) -> (r: Self)
        ensures
            r == (Ipv4Addr { a, b, c, d }),
    {
        Ipv4Addr { a, b, c, d }
    }

    /// The address as one 32-bit number, most significant octet first.
    pub open spec fn bits(self) -> int {
        self.a * 0x100_0000 + self.b * 0x1_0000 + self.c * 0x100 + self.d
    }
}

} // verus!

verus! {

impl Ipv4Addr {
    /// `0.0.0.0`, the remote address of a socket that is not connected.
    pub fn unspecified() -> (r: Self)
        ensures
            r == (Ipv4Addr { a: 0, b: 0, c: 0, d: 0 }),
    {
        Ipv4Addr { a: 0, b: 0, c: 0, d: 0 }
    }

    /// `127.0.0.1`, the loop-back address.
    pub fn localhost() -> (r: Self)
        ensures
            r == (Ipv4Addr { a: 127, b: 0, c: 0, d: 1 }),
    {
        Ipv4Addr { a: 127, b: 0, c: 0, d: 1 }
    }

    /// The address as one 32-bit number, most significant octet first.
    pub fn to_bits(&self) -> (r: u32)
        ensures
            r == self.bits(),
    {
        (self.a as u32) * 0x100_0000 + (self.b as u32) * 0x1_0000 + (self.c as u32) * 0x100
            + (self.d as u32)
    }
}

/// The states of a transport socket.
#[allow(non_camel_case_types)]
#[derive(Clone, Copy, Debug, PartialEq, Eq, Structural)]
pub enum SocketState {
    CLOSED,
    LISTEN,
    SYN_SENT,
    ESTABLISHED,
    /// We need to close, but still work to do.
    /// When the receiver received FIN, but has still data not read by the user.
    SHUTDOWN,
    /// Wait for all the packets to be acked, so that we can send FIN.
    FIN_WAIT,
    /// A FIN has been sent.
    FIN_SENT,
}

/// The four values that name a connection: local address and port, remote
/// address and port.  A socket that is not connected has the remote address
/// `0.0.0.0` and the remote port 0.
#[derive(Clone, Copy, Debug, PartialEq, Eq, Structural, Hash)]
pub struct SocketID {
    pub local_addr: Ipv4Addr,
    pub remote_addr: Ipv4Addr,
    pub local_port: u8,
    pub remote_port: u8,
}

impl SocketID {
    /// A socket id on the local address and port, not connected to any remote.
    pub fn new(local_addr: Ipv4Addr, local_port: u8) -> (r: Self)
        ensures
            r == (SocketID {
                local_addr,
                remote_addr: Ipv4Addr { a: 0, b: 0, c: 0, d: 0 },
                local_port,
                remote_port: 0,
            }),
    {
        SocketID { local_addr, remote_addr: Ipv4Addr::unspecified(), local_port, remote_port: 0 }
    }

    /// The number under which the socket manager files this id: the four
    /// values side by side, local address in the highest bits.
    pub open spec fn key(self) -> u128 {
        (self.local_addr.bits() * 0x1_0000_0000_0000 + self.remote_addr.bits() * 0x1_0000
            + self.local_port * 0x100 + self.remote_port) as u128
    }

    pub fn to_key(&self) -> (r: u128)
        ensures
            r == self.key(),
    {
        let l = self.local_addr.to_bits() as u128;
        let r = self.remote_addr.to_bits() as u128;
        l * 0x1_0000_0000_0000 + r * 0x1_0000 + (self.local_port as u128) * 0x100
            + (self.remote_port as u128)
    }

    /// The id with the remote end cleared, under which a listening server
    /// socket is filed.
    pub open spec fn spec_server_id(self) -> SocketID {
        SocketID { remote_addr: Ipv4Addr { a: 0, b: 0, c: 0, d: 0 }, remote_port: 0, ..self }
    }
}

/// The local port of the id filed under the key `k`: the second byte from
/// the bottom.
pub open spec fn key_port(k: u128) -> u8 {
    ((k / 0x100) % 0x100) as u8
}

/// Reads the local port out of a key.
pub fn port_of_key(k: u128) -> (r: u8)
    ensures
        r == key_port(k),
{
    ((k / 0x100) % 0x100) as u8
}

/// The key of an id holds the id's local port.
pub proof fn lemma_key_port(id: SocketID)
    ensures
        key_port(id.key()) == id.local_port,
{
    let hi = id.local_addr.bits() * 0x1_0000_0000 + id.remote_addr.bits();
    let k = id.local_addr.bits() * 0x1_0000_0000_0000 + id.remote_addr.bits() * 0x1_0000
        + id.local_port * 0x100 + id.remote_port;
    assert(0 <= k < 0x1_0000_0000_0000_0000_0000);
    let q = hi * 0x100 + id.local_port;
    assert(k == q * 0x100 + id.remote_port);
    vstd::arithmetic::div_mod::lemma_fundamental_div_mod_converse(k, 0x100, q, id.remote_port as int);
    vstd::arithmetic::div_mod::lemma_fundamental_div_mod_converse(q, 0x100, hi, id.local_port as int);
}

/// A number written with a fixed-width low part is determined by its parts.
proof fn lemma_place_value(hi1: int, lo1: int, hi2: int, lo2: int, m: int)
    by (nonlinear_arith)
    requires
        0 <= lo1 < m,
        0 <= lo2 < m,
        hi1 * m + lo1 == hi2 * m + lo2,
    ensures
        hi1 == hi2,
        lo1 == lo2,
{
}

proof fn lemma_bits_injective(x: Ipv4Addr, y: Ipv4Addr)
    requires
        x.bits() == y.bits(),
    ensures
        x == y,
{
    lemma_place_value(x.a * 0x100 + x.b, x.c * 0x100 + x.d, y.a * 0x100 + y.b, y.c * 0x100 + y.d, 0x1_0000);
    lemma_place_value(x.a as int, x.b as int, y.a as int, y.b as int, 0x100);
    lemma_place_value(x.c as int, x.d as int, y.c as int, y.d as int, 0x100);
}

/// Two ids are filed under the same key only if they are the same id.
pub proof fn lemma_key_injective(x: SocketID, y: SocketID)
    ensures
        x.key() == y.key() <==> x == y,
{
    let xk = x.local_addr.bits() * 0x1_0000_0000_0000 + x.remote_addr.bits() * 0x1_0000
        + x.local_port * 0x100 + x.remote_port;
    let yk = y.local_addr.bits() * 0x1_0000_0000_0000 + y.remote_addr.bits() * 0x1_0000
        + y.local_port * 0x100 + y.remote_port;
    assert(0 <= xk < 0x1_0000_0000_0000_0000_0000);
    assert(0 <= yk < 0x1_0000_0000_0000_0000_0000);
    if x.key() == y.key() {
        assert(xk == yk);
        let xl = x.local_port * 0x100 + x.remote_port;
        let yl = y.local_port * 0x100 + y.remote_port;
        lemma_place_value(
            x.local_addr.bits() * 0x1_0000_0000 + x.remote_addr.bits(), xl,
            y.local_addr.bits() * 0x1_0000_0000 + y.remote_addr.bits(), yl, 0x1_0000);
        lemma_place_value(x.local_addr.bits(), x.remote_addr.bits(), y.local_addr.bits(),
            y.remote_addr.bits(), 0x1_0000_0000);
        lemma_place_value(x.local_port as int, x.remote_port as int, y.local_port as int,
            y.remote_port as int, 0x100);
        lemma_bits_injective(x.local_addr, y.local_addr);
        lemma_bits_injective(x.remote_addr, y.remote_addr);
    }
}

} // verus!
