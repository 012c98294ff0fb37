use vstd::prelude::*;

use super::packet::{
    packet_well_formed, payload_len, PacketView, TransType, TransportPacket, HEADER_SIZE,
    MAX_PAYLOAD_SIZE,
};
use super::socket::{Ipv4Addr, SocketID};

verus! {

/// A packet that the socket manager asks the UDP sender to send.
#[derive(Clone, Debug)]
pub enum PacketCmd {
    /// (sock_id, seq_num)
    SYN(SocketID, u32),
    /// (sock_id, seq_num)
    FIN(SocketID, u32),
    /// (sock_id, window, seq_num)
    ACK(SocketID, u32, u32),
    /// (sock_id, seq_num, payload)
    DATA(SocketID, u32, Vec<u8>),
}

/// A [`PacketCmd`] with its payload as a sequence.
pub enum PacketCmdView {
    SYN(SocketID, u32),
    FIN(SocketID, u32),
    ACK(SocketID, u32, u32),
    DATA(SocketID, u32, Seq<u8>),
}

impl View for PacketCmd {
    type V = PacketCmdView;

    open spec fn view(&self) -> PacketCmdView {
        match self {
            PacketCmd::SYN(id, s) => PacketCmdView::SYN(*id, *s),
            PacketCmd::FIN(id, s) => PacketCmdView::FIN(*id, *s),
            PacketCmd::ACK(id, w, s) => PacketCmdView::ACK(*id, *w, *s),
            PacketCmd::DATA(id, s, d) => PacketCmdView::DATA(*id, *s, d@),
        }
    }
}

impl PacketCmdView {
    /// The socket that sends the packet.
    pub open spec fn sock_id(self) -> SocketID {
        match self {
            PacketCmdView::SYN(id, _) => id,
            PacketCmdView::FIN(id, _) => id,
            PacketCmdView::ACK(id, _, _) => id,
            PacketCmdView::DATA(id, _, _) => id,
        }
    }

    /// The packet that goes out for this command: from the socket's local
    /// port to its remote port; an ACK carries the window, the others a
    /// window of 0; only DATA carries a payload.
    pub open spec fn packet(self) -> PacketView {
        let id = self.sock_id();
        let (t, w, s, p) = match self {
            PacketCmdView::SYN(_, s) => (TransType::SYN, 0u32, s, None),
            PacketCmdView::FIN(_, s) => (TransType::FIN, 0u32, s, None),
            PacketCmdView::ACK(_, w, s) => (TransType::ACK, w, s, None),
            PacketCmdView::DATA(_, s, d) => (TransType::DATA, 0u32, s, Some(d)),
        };
        PacketView {
            src_port: id.local_port,
            dest_port: id.remote_port,
            t_type: t,
            window: w,
            seq_num: s,
            total_len: (HEADER_SIZE + payload_len(p)) as u8,
            payload: p,
            src_addr: Ipv4Addr { a: 127, b: 0, c: 0, d: 1 },
            dest_addr: Ipv4Addr { a: 127, b: 0, c: 0, d: 1 },
        }
    }

    /// The command can be sent: a DATA payload fits in one packet.
    pub open spec fn sendable(self) -> bool {
        self matches PacketCmdView::DATA(_, _, d) ==> d.len() <= MAX_PAYLOAD_SIZE
    }
}

impl PacketCmd {
    /// The socket that sends the packet.
    pub fn sock_id(&self) -> (r: SocketID)
        ensures
            r == self@.sock_id(),
    {
        match self {
            PacketCmd::SYN(id, _) => *id,
            PacketCmd::FIN(id, _) => *id,
            PacketCmd::ACK(id, _, _) => *id,
            PacketCmd::DATA(id, _, _) => *id,
        }
    }

    /// The transport packet that carries this command.
    pub fn into_packet(self) -> (r: TransportPacket)
        requires
            self@.sendable(),
        ensures
            r@ == self@.packet(),
            packet_well_formed(r@),
    {
        match self {
            PacketCmd::SYN(id, seq_num) => TransportPacket::new(
                id.local_port,
                id.remote_port,
                TransType::SYN,
                0,
                seq_num,
                None,
            ),
            PacketCmd::ACK(id, window, seq_num) => TransportPacket::new(
                id.local_port,
                id.remote_port,
                TransType::ACK,
                window,
                seq_num,
                None,
            ),
            PacketCmd::DATA(id, seq_num, data) => TransportPacket::new(
                id.local_port,
                id.remote_port,
                TransType::DATA,
                0,
                seq_num,
                Some(data),
            ),
            PacketCmd::FIN(id, seq_num) => TransportPacket::new(
                id.local_port,
                id.remote_port,
                TransType::FIN,
                0,
                seq_num,
                None,
            ),
        }
    }
}

} // verus!
