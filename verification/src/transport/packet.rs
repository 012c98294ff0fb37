use std::collections::VecDeque;
use vstd::prelude::*;

use super::socket::{Ipv4Addr, SocketID};

verus! {

/// The length of the transport header in bytes.
pub const HEADER_SIZE: usize = 12;

/// The largest packet: one byte carries the packet length.
pub const MAX_PACKET_SIZE: usize = 212;

/// The largest payload that one packet carries.
pub const MAX_PAYLOAD_SIZE: usize = 200;

/// The kind of a transport packet.
#[derive(Clone, Copy, Debug, PartialEq, Eq, Structural)]
pub enum TransType {
    SYN,
    ACK,
    FIN,
    DATA,
}

impl Default for TransType {
    fn default() -> (r: Self)
        ensures
            r == TransType::DATA,
    {
        TransType::DATA
    }
}

/// The kind that a type byte on the wire stands for: 0, 1 and 2 are SYN, ACK
/// and FIN, every other byte is DATA.
pub open spec fn spec_type_from_byte(t: u8) -> TransType {
    if t == 0 {
        TransType::SYN
    } else if t == 1 {
        TransType::ACK
    } else if t == 2 {
        TransType::FIN
    } else {
        TransType::DATA
    }
}

/// The type byte written on the wire for a kind.
pub open spec fn spec_type_byte(t: TransType) -> u8 {
    match t {
        TransType::SYN => 0,
        TransType::ACK => 1,
        TransType::FIN => 2,
        TransType::DATA => 3,
    }
}

impl TransType {
    /// The kind that the type byte `t` stands for.
    pub fn new(t: u8) -> (r: Self)
        ensures
            r == spec_type_from_byte(t),
    {
        match t {
            0 => TransType::SYN,
            1 => TransType::ACK,
            2 => TransType::FIN,
            _ => TransType::DATA,
        }
    }

    /// The type byte of this kind.
    pub fn to_byte(&self) -> (r: u8)
        ensures
            r == spec_type_byte(*self),
    {
        match self {
            TransType::SYN => 0,
            TransType::ACK => 1,
            TransType::FIN => 2,
            TransType::DATA => 3,
        }
    }
}

/// The four bytes of `x`, most significant first.
pub open spec fn be32(x: u32) -> Seq<u8> {
    seq![
        ((x >> 24u32) & 0xffu32) as u8,
        ((x >> 16u32) & 0xffu32) as u8,
        ((x >> 8u32) & 0xffu32) as u8,
        (x & 0xffu32) as u8,
    ]
}

/// The number whose four bytes, most significant first, are `b0 b1 b2 b3`.
pub open spec fn from_be32(b0: u8, b1: u8, b2: u8, b3: u8) -> u32 {
    ((b0 as u32) << 24u32) | ((b1 as u32) << 16u32) | ((b2 as u32) << 8u32) | (b3 as u32)
}

/// Reading back the four bytes of a number gives the number.
pub proof fn lemma_be32_value_roundtrip(x: u32)
    ensures
        from_be32(be32(x)[0], be32(x)[1], be32(x)[2], be32(x)[3]) == x,
{
    let b0 = ((x >> 24u32) & 0xffu32) as u8;
    let b1 = ((x >> 16u32) & 0xffu32) as u8;
    let b2 = ((x >> 8u32) & 0xffu32) as u8;
    let b3 = (x & 0xffu32) as u8;
    assert(((b0 as u32) << 24u32) | ((b1 as u32) << 16u32) | ((b2 as u32) << 8u32) | (b3 as u32)
        == x) by (bit_vector)
        requires
            b0 == ((x >> 24u32) & 0xffu32) as u8,
            b1 == ((x >> 16u32) & 0xffu32) as u8,
            b2 == ((x >> 8u32) & 0xffu32) as u8,
            b3 == (x & 0xffu32) as u8,
    ;
}

/// Writing out a number read from four bytes gives the four bytes.
pub proof fn lemma_be32_bytes_roundtrip(b0: u8, b1: u8, b2: u8, b3: u8)
    ensures
        be32(from_be32(b0, b1, b2, b3)) == seq![b0, b1, b2, b3],
{
    let x = from_be32(b0, b1, b2, b3);
    assert(((x >> 24u32) & 0xffu32) as u8 == b0 && ((x >> 16u32) & 0xffu32) as u8 == b1 && ((x
        >> 8u32) & 0xffu32) as u8 == b2 && (x & 0xffu32) as u8 == b3) by (bit_vector)
        requires
            x == ((b0 as u32) << 24u32) | ((b1 as u32) << 16u32) | ((b2 as u32) << 8u32) | (
            b3 as u32),
    ;
    assert(be32(x) =~= seq![b0, b1, b2, b3]);
}

/// What a transport packet holds, with its payload as a sequence.
pub struct PacketView {
    pub src_port: u8,
    pub dest_port: u8,
    pub t_type: TransType,
    pub window: u32,
    pub seq_num: u32,
    pub total_len: u8,
    pub payload: Option<Seq<u8>>,
    pub src_addr: Ipv4Addr,
    pub dest_addr: Ipv4Addr,
}

/// The bytes of an optional payload: none when there is none.
pub open spec fn payload_bytes(p: Option<Seq<u8>>) -> Seq<u8> {
    match p {
        Some(s) => s,
        None => Seq::empty(),
    }
}

/// The length of an optional payload.
pub open spec fn payload_len(p: Option<Seq<u8>>) -> nat {
    payload_bytes(p).len()
}

/// The wire format: source port, destination port, type, window (4 bytes,
/// most significant first), sequence number (4 bytes, most significant
/// first), packet length, then the payload.  The addresses are not sent.
pub open spec fn spec_pack(p: PacketView) -> Seq<u8> {
    seq![p.src_port, p.dest_port, spec_type_byte(p.t_type)] + be32(p.window) + be32(p.seq_num)
        + seq![p.total_len] + payload_bytes(p.payload)
}

/// The bytes can be read as a packet: a full header whose length byte is the
/// number of bytes.
pub open spec fn wire_ok(b: Seq<u8>) -> bool {
    &&& b.len() >= HEADER_SIZE
    &&& b[11] as int == b.len()
}

/// The packet that reading `b` into `prev` gives, for a packet that came from
/// `src_addr` to `dest_addr`.  A packet with no payload bytes leaves the
/// payload of `prev` as it was.
pub open spec fn spec_unpack(b: Seq<u8>, src_addr: Ipv4Addr, dest_addr: Ipv4Addr, prev: PacketView) -> PacketView {
    PacketView {
        src_port: b[0],
        dest_port: b[1],
        t_type: spec_type_from_byte(b[2]),
        window: from_be32(b[3], b[4], b[5], b[6]),
        seq_num: from_be32(b[7], b[8], b[9], b[10]),
        total_len: b[11],
        payload: if b.len() > HEADER_SIZE {
            Some(b.subrange(HEADER_SIZE as int, b.len() as int))
        } else {
            prev.payload
        },
        src_addr,
        dest_addr,
    }
}

/// The packet's length byte counts its header and its payload, and the
/// payload fits.
pub open spec fn packet_well_formed(p: PacketView) -> bool {
    &&& payload_len(p.payload) <= MAX_PAYLOAD_SIZE
    &&& p.total_len == HEADER_SIZE + payload_len(p.payload)
}

/// A transport packet.  The addresses are kept for the socket manager only
/// and are not part of the bytes on the wire.
#[derive(Clone, Debug)]
pub struct TransportPacket {
    pub src_port: u8,
    pub dest_port: u8,
    pub t_type: TransType,
    pub window: u32,
    pub seq_num: u32,
    pub total_len: u8,
    pub payload: Option<Vec<u8>>,
    pub src_addr: Ipv4Addr,
    pub dest_addr: Ipv4Addr,
}

impl View for TransportPacket {
    type V = PacketView;

    open spec fn view(&self) -> PacketView {
        PacketView {
            src_port: self.src_port,
            dest_port: self.dest_port,
            t_type: self.t_type,
            window: self.window,
            seq_num: self.seq_num,
            total_len: self.total_len,
            payload: match self.payload {
                Some(v) => Some(v@),
                None => None,
            },
            src_addr: self.src_addr,
            dest_addr: self.dest_addr,
        }
    }
}

fn push_be32(v: &mut Vec<u8>, x: u32)
    ensures
        final(v)@ == old(v)@ + be32(x),
{
    v.push(((x >> 24u32) & 0xffu32) as u8);
    v.push(((x >> 16u32) & 0xffu32) as u8);
    v.push(((x >> 8u32) & 0xffu32) as u8);
    v.push((x & 0xffu32) as u8);
    assert(final(v)@ =~= old(v)@ + be32(x));
}

impl TransportPacket {
    /// A packet to send, from and to the loop-back address.  The length byte
    /// counts the header and the payload.
    pub fn new(
        src_port: u8,
        dest_port: u8,
        t_type: TransType,
        window: u32,
        seq_num: u32,
        payload: Option<Vec<u8>>,
    ) -> (r: Self)
        requires
            payload matches Some(v) ==> v.len() <= MAX_PAYLOAD_SIZE,
        ensures
            r.src_port == src_port,
            r.dest_port == dest_port,
            r.t_type == t_type,
            r.window == window,
            r.seq_num == seq_num,
            r@.payload == (match payload {
                Some(v) => Some(v@),
                None => None,
            }),
            r.total_len == HEADER_SIZE + payload_len(r@.payload),
            r.src_addr == (Ipv4Addr { a: 127, b: 0, c: 0, d: 1 }),
            r.dest_addr == (Ipv4Addr { a: 127, b: 0, c: 0, d: 1 }),
            packet_well_formed(r@),
    {
        let total_len: u8 = match &payload {
            Some(load) => (HEADER_SIZE + load.len()) as u8,
            None => HEADER_SIZE as u8,
        };
        TransportPacket {
            src_port,
            dest_port,
            t_type,
            window,
            seq_num,
            total_len,
            payload,
            src_addr: Ipv4Addr::localhost(),
            dest_addr: Ipv4Addr::localhost(),
        }
    }

    /// The empty packet that a received datagram is unpacked into.
    pub fn default() -> (r: Self)
        ensures
            r@ == (PacketView {
                src_port: 0,
                dest_port: 0,
                t_type: TransType::ACK,
                window: 0,
                seq_num: 0,
                total_len: 0,
                payload: None,
                src_addr: Ipv4Addr { a: 127, b: 0, c: 0, d: 1 },
                dest_addr: Ipv4Addr { a: 127, b: 0, c: 0, d: 1 },
            }),
    {
        TransportPacket {
            src_port: 0,
            dest_port: 0,
            t_type: TransType::ACK,
            window: 0,
            seq_num: 0,
            total_len: 0,
            payload: None,
            src_addr: Ipv4Addr::localhost(),
            dest_addr: Ipv4Addr::localhost(),
        }
    }

    /// The bytes that carry this packet over the wire.
    pub fn pack(self) -> (r: Vec<u8>)
        ensures
            r@ == spec_pack(self@),
    {
        let ghost p = self@;
        let mut packet: Vec<u8> = Vec::with_capacity(MAX_PACKET_SIZE);
        packet.push(self.src_port);
        packet.push(self.dest_port);
        packet.push(self.t_type.to_byte());
        push_be32(&mut packet, self.window);
        push_be32(&mut packet, self.seq_num);
        packet.push(self.total_len);
        match self.payload {
            Some(mut load) => {
                packet.append(&mut load);
            },
            None => {},
        }
        assert(packet@ =~= spec_pack(p));
        packet
    }

    /// Reads a packet received from `src_addr` at `dest_addr` out of its
    /// bytes, which are assumed to have been formatted by `pack`.  A packet
    /// without payload bytes keeps the payload this packet had.  Bytes that
    /// cannot be a packet (see [`wire_ok`]) are corrupted: the result is
    /// `false` and this packet is left as it was.
    pub fn unpack(&mut self, packet: VecDeque<u8>, src_addr: Ipv4Addr, dest_addr: Ipv4Addr) -> (r: bool)
        ensures
            r == wire_ok(packet@),
            r ==> final(self)@ == spec_unpack(packet@, src_addr, dest_addr, old(self)@),
            !r ==> final(self)@ == old(self)@,
    {
        if !wire_bytes_ok(&packet) {
            return false;
        }
        let n = packet.len();
        self.src_port = packet[0];
        self.dest_port = packet[1];
        self.t_type = TransType::new(packet[2]);
        self.window = ((packet[3] as u32) << 24u32) | ((packet[4] as u32) << 16u32) | ((
        packet[5] as u32) << 8u32) | (packet[6] as u32);
        self.seq_num = ((packet[7] as u32) << 24u32) | ((packet[8] as u32) << 16u32) | ((
        packet[9] as u32) << 8u32) | (packet[10] as u32);
        self.total_len = packet[11];
        if n > HEADER_SIZE {
            let mut load: Vec<u8> = Vec::with_capacity(n - HEADER_SIZE);
            let mut i: usize = HEADER_SIZE;
            while i < n
                invariant
                    HEADER_SIZE <= i <= n,
                    n == packet@.len(),
                    load@ == packet@.subrange(HEADER_SIZE as int, i as int),
                decreases n - i,
            {
                load.push(packet[i]);
                i = i + 1;
                assert(load@ =~= packet@.subrange(HEADER_SIZE as int, i as int));
            }
            self.payload = Some(load);
        }
        self.src_addr = src_addr;
        self.dest_addr = dest_addr;
        true
    }

    /// The id of the receiving socket: this packet's destination is its local
    /// end, its source the remote end.
    pub fn get_sock_id(&self) -> (r: SocketID)
        ensures
            r == (SocketID {
                local_addr: self.dest_addr,
                local_port: self.dest_port,
                remote_addr: self.src_addr,
                remote_port: self.src_port,
            }),
    {
        SocketID {
            local_addr: self.dest_addr,
            local_port: self.dest_port,
            remote_addr: self.src_addr,
            remote_port: self.src_port,
        }
    }

    pub fn get_type(&self) -> (r: TransType)
        ensures
            r == self.t_type,
    {
        self.t_type
    }

    pub fn get_seq_num(&self) -> (r: u32)
        ensures
            r == self.seq_num,
    {
        self.seq_num
    }

    /// The number of payload bytes, 0 when there is no payload.
    pub fn get_payload_len(&self) -> (r: u32)
        ensures
            r == payload_len(self@.payload) as u32,
    {
        match &self.payload {
            Some(load) => load.len() as u32,
            None => 0,
        }
    }

    pub fn get_payload(&self) -> (r: &Vec<u8>)
        requires
            self.payload is Some,
        ensures
            self.payload == Some(*r),
    {
        match &self.payload {
            Some(load) => load,
            None => unreached(),
        }
    }

    pub fn get_wind(&self) -> (r: u32)
        ensures
            r == self.window,
    {
        self.window
    }
}

/// Checks that received bytes can be read as a packet (see [`wire_ok`]).
pub fn wire_bytes_ok(packet: &VecDeque<u8>) -> (r: bool)
    ensures
        r == wire_ok(packet@),
{
    packet.len() >= HEADER_SIZE && packet[11] as usize == packet.len()
}

/// Reading a type byte back gives the kind it was written for.
pub proof fn lemma_type_byte_roundtrip(t: TransType)
    ensures
        spec_type_from_byte(spec_type_byte(t)) == t,
{
}

/// Every type byte up to 3 is the byte of the kind it is read as.
pub proof fn lemma_type_byte_canonical(b: u8)
    requires
        b <= 3,
    ensures
        spec_type_byte(spec_type_from_byte(b)) == b,
{
}

/// A well-formed packet packs into bytes that can be read, and reading them
/// (into a packet with no payload, such as `default()`) with the packet's own
/// addresses gives the packet back, as long as its payload, if it has one, is
/// not empty.
pub proof fn theorem_pack_unpack(p: PacketView, prev: PacketView)
    requires
        packet_well_formed(p),
        p.payload matches Some(s) ==> s.len() > 0,
        prev.payload is None,
    ensures
        wire_ok(spec_pack(p)),
        spec_unpack(spec_pack(p), p.src_addr, p.dest_addr, prev) == p,
{
    let b = spec_pack(p);
    lemma_be32_value_roundtrip(p.window);
    lemma_be32_value_roundtrip(p.seq_num);
    lemma_type_byte_roundtrip(p.t_type);
    assert(b.len() == HEADER_SIZE + payload_len(p.payload));
    let q = spec_unpack(b, p.src_addr, p.dest_addr, prev);
    if p.payload is Some {
        assert(b.subrange(HEADER_SIZE as int, b.len() as int) =~= payload_bytes(p.payload));
    }
    assert(q.window == p.window);
    assert(q.seq_num == p.seq_num);
}

/// Bytes that can be read as a packet, with a type byte up to 3, are
/// written out again unchanged by packing what they read as (into a packet
/// with no payload when they carry none).
pub proof fn theorem_unpack_pack(b: Seq<u8>, src_addr: Ipv4Addr, dest_addr: Ipv4Addr, prev: PacketView)
    requires
        wire_ok(b),
        b[2] <= 3,
        b.len() == HEADER_SIZE ==> prev.payload is None,
    ensures
        spec_pack(spec_unpack(b, src_addr, dest_addr, prev)) == b,
{
    let q = spec_unpack(b, src_addr, dest_addr, prev);
    lemma_be32_bytes_roundtrip(b[3], b[4], b[5], b[6]);
    lemma_be32_bytes_roundtrip(b[7], b[8], b[9], b[10]);
    lemma_type_byte_canonical(b[2]);
    assert(spec_pack(q) =~= b);
}

} // verus!
