use vstd::prelude::*;

use super::manager::{
    data_segments, lemma_receive_ports, packet_sock_id, receiver_key, recv_amount, receive_ok, sends, send_now_ok, spec_connect, spec_read,
    spec_receive, spec_send_now, spec_write, syn_accepted, unbound_id, write_amount, write_ok,
    spec_close, spec_release, spec_task, port_held, TaskView, ActionView, Connection, ContentsView, ManagerView, TaskRetView, BUFFER_CAP, INITIAL_SEQ_RANGE,
};
use super::packet::{
    payload_bytes, spec_pack, spec_unpack, theorem_pack_unpack, wire_ok, PacketView, TransType,
    MAX_PAYLOAD_SIZE,
};
use super::socket::{key_port, lemma_key_injective, lemma_key_port, Ipv4Addr, SocketID, SocketState};
use super::udp_utils::PacketCmdView;

verus! {

/// The socket id at the other end of a connection: local and remote swapped.
pub open spec fn peer_id(id: SocketID) -> SocketID {
    SocketID {
        local_addr: id.remote_addr,
        local_port: id.remote_port,
        remote_addr: id.local_addr,
        remote_port: id.local_port,
    }
}

/// The packet that a command turns into at the other end: packed into bytes
/// by the sender, read back by the receiver, who knows the datagram came from
/// `src_addr` to `dest_addr`.
pub open spec fn delivered(cmd: PacketCmdView, src_addr: Ipv4Addr, dest_addr: Ipv4Addr, prev: PacketView) -> PacketView {
    spec_unpack(spec_pack(cmd.packet()), src_addr, dest_addr, prev)
}

/// A command without payload, or with a payload that is not empty and fits,
/// reaches the other end as the packet it stands for, carrying the addresses
/// of the datagram.
pub proof fn lemma_delivered(cmd: PacketCmdView, src_addr: Ipv4Addr, dest_addr: Ipv4Addr, prev: PacketView)
    requires
        cmd.sendable(),
        cmd matches PacketCmdView::DATA(_, _, d) ==> d.len() > 0,
        prev.payload is None,
    ensures
        wire_ok(spec_pack(cmd.packet())),
        delivered(cmd, src_addr, dest_addr, prev) == (PacketView {
            src_addr,
            dest_addr,
            ..cmd.packet()
        }),
        packet_sock_id(delivered(cmd, src_addr, dest_addr, prev)) == (SocketID {
            local_addr: dest_addr,
            local_port: cmd.sock_id().remote_port,
            remote_addr: src_addr,
            remote_port: cmd.sock_id().local_port,
        }),
{
    let q = PacketView { src_addr, dest_addr, ..cmd.packet() };
    assert(spec_pack(q) == spec_pack(cmd.packet()));
    theorem_pack_unpack(q, prev);
}

/// The DATA packets that carry a stretch of bytes: the `i`-th one starts at
/// sequence number `seq + i * MAX_PAYLOAD_SIZE` and carries the next (up to)
/// `MAX_PAYLOAD_SIZE` bytes, so that together they carry the bytes in order;
/// each one fits in a packet.  No bytes still take one (empty) packet.
pub proof fn lemma_data_segments(id: SocketID, seq: u32, data: Seq<u8>)
    requires
        seq + data.len() <= u32::MAX,
    ensures
        data_segments(id, seq, data).len() == (if data.len() == 0 {
            1
        } else {
            (data.len() + MAX_PAYLOAD_SIZE - 1) / (MAX_PAYLOAD_SIZE as int)
        }),
        forall|i: int|
            0 <= i < data_segments(id, seq, data).len() ==> {
                &&& #[trigger] data_segments(id, seq, data)[i] == PacketCmdView::DATA(
                    id,
                    (seq + i * MAX_PAYLOAD_SIZE) as u32,
                    data.subrange(
                        i * MAX_PAYLOAD_SIZE,
                        if (i + 1) * MAX_PAYLOAD_SIZE < data.len() {
                            (i + 1) * MAX_PAYLOAD_SIZE
                        } else {
                            data.len() as int
                        },
                    ),
                )
                &&& data_segments(id, seq, data)[i].sendable()
            },
    decreases data.len(),
{
    let segs = data_segments(id, seq, data);
    if data.len() <= MAX_PAYLOAD_SIZE {
        assert(data.subrange(0, data.len() as int) =~= data);
    } else {
        let rest = data.skip(MAX_PAYLOAD_SIZE as int);
        let seq2 = (seq + MAX_PAYLOAD_SIZE) as u32;
        lemma_data_segments(id, seq2, rest);
        let rs = data_segments(id, seq2, rest);
        assert(segs == seq![PacketCmdView::DATA(id, seq, data.take(MAX_PAYLOAD_SIZE as int))]
            + rs);
        assert forall|i: int| 0 <= i < segs.len() implies {
            &&& #[trigger] segs[i] == PacketCmdView::DATA(
                id,
                (seq + i * MAX_PAYLOAD_SIZE) as u32,
                data.subrange(
                    i * MAX_PAYLOAD_SIZE,
                    if (i + 1) * MAX_PAYLOAD_SIZE < data.len() {
                        (i + 1) * MAX_PAYLOAD_SIZE
                    } else {
                        data.len() as int
                    },
                ),
            )
            &&& segs[i].sendable()
        } by {
            if i == 0 {
                assert(data.take(MAX_PAYLOAD_SIZE as int) =~= data.subrange(0, MAX_PAYLOAD_SIZE as int));
            } else {
                assert(segs[i] == rs[i - 1]);
                let lo = (i - 1) * MAX_PAYLOAD_SIZE;
                let hi = if i * MAX_PAYLOAD_SIZE < rest.len() {
                    i * MAX_PAYLOAD_SIZE
                } else {
                    rest.len() as int
                };
                assert(rest.subrange(lo, hi) =~= data.subrange(lo + MAX_PAYLOAD_SIZE, hi
                    + MAX_PAYLOAD_SIZE));
            }
        }
    }
}

/// A write is followed by the `SendNow` task it schedules, which can be
/// handled on the manager the write left, and whose DATA packets carry
/// exactly the bytes the write took, from the sequence number where the write
/// put them.
pub proof fn theorem_write_then_send(s: ManagerView, id: SocketID, buf: Seq<u8>, pos: u32, len: u32)
    requires
        s.wf(),
        write_ok(s, id, buf, pos, len),
    ensures
        ({
            let c = s.get(id);
            let tw = write_amount(c, len);
            let (s1, acts) = spec_write(s, id, buf, pos, len);
            &&& s1.wf()
            &&& acts[0] == ActionView::ScheduleSendNow(id, c.send_next, tw)
            &&& s1.get(id).send_buf.unwrap() == c.send_buf.unwrap() + buf.subrange(
                pos as int,
                pos + tw,
            )
            &&& s1.get(id).send_next - s1.get(id).send_base <= s1.get(id).send_wind
            &&& send_now_ok(s1, id, c.send_next, tw)
            &&& spec_send_now(s1, id, c.send_next, tw).1 == sends(
                data_segments(id, c.send_next, buf.subrange(pos as int, pos + tw)),
            )
        }),
{
    let c = s.get(id);
    let tw = write_amount(c, len);
    let (s1, acts) = spec_write(s, id, buf, pos, len);
    let b = c.send_buf.unwrap();
    let b1 = s1.get(id).send_buf.unwrap();
    let start = c.send_next - c.send_base;
    assert(b1.subrange(start, start + tw) =~= buf.subrange(pos as int, pos + tw));
    assert forall|k: u128| #[trigger] s1.sockets.contains_key(k) implies s1.sockets[k].wf() by {
        if k != id.key() {
            assert(s1.sockets[k] == s.sockets[k]);
        }
    }
}

/// A DATA packet sent by a socket that reaches the peer socket in order and
/// fits its receive window: the peer can handle it, takes the whole payload
/// after the bytes it buffered before, acknowledges the byte after it with the
/// room left in its window, and a read then answers with the buffered bytes in
/// the order they came.
pub proof fn theorem_data_delivered(
    sender: SocketID,
    seq: u32,
    d: Seq<u8>,
    s: ManagerView,
    prev: PacketView,
    len: u32,
)
    requires
        0 < d.len() <= MAX_PAYLOAD_SIZE,
        prev.payload is None,
        s.wf(),
        s.has(peer_id(sender)),
        s.get(peer_id(sender)).state == SocketState::ESTABLISHED,
        s.get(peer_id(sender)).recv_buf is Some,
        s.get(peer_id(sender)).recv_next == seq,
        s.get(peer_id(sender)).recv_wind + s.get(peer_id(sender)).recv_base <= u32::MAX,
        s.get(peer_id(sender)).recv_buf.unwrap().len() + d.len() <= s.get(
            peer_id(sender),
        ).recv_wind,
    ensures
        ({
            let cmd = PacketCmdView::DATA(sender, seq, d);
            let p = delivered(cmd, sender.local_addr, sender.remote_addr, prev);
            let rid = peer_id(sender);
            let c = s.get(rid);
            let b = c.recv_buf.unwrap();
            let (s1, acts) = spec_receive(s, p);
            let c1 = s1.get(rid);
            let m = if b.len() + d.len() < len {
                (b.len() + d.len()) as int
            } else {
                len as int
            };
            &&& receive_ok(s, p)
            &&& s1.wf()
            &&& s1.has(rid)
            &&& c1 == (ContentsView {
                recv_buf: Some(b + d),
                recv_next: (seq + d.len()) as u32,
                ..c
            })
            &&& acts == seq![
                ActionView::Send(
                    PacketCmdView::ACK(
                        rid,
                        (c.recv_wind - (b.len() + d.len())) as u32,
                        (seq + d.len()) as u32,
                    ),
                ),
            ]
            &&& spec_read(s1, rid, len).1[0] == ActionView::Reply(
                c.ret_handle,
                TaskRetView::Read(Ok((b + d).take(m))),
            )
        }),
{
    let cmd = PacketCmdView::DATA(sender, seq, d);
    let p = delivered(cmd, sender.local_addr, sender.remote_addr, prev);
    lemma_delivered(cmd, sender.local_addr, sender.remote_addr, prev);
    let rid = peer_id(sender);
    assert(packet_sock_id(p) == rid);
    let c = s.get(rid);
    assert(c.wf());
    let (s1, acts) = spec_receive(s, p);
    assert(payload_bytes(p.payload).take(d.len() as int) =~= d);
    assert forall|k: u128| #[trigger] s1.sockets.contains_key(k) implies s1.sockets[k].wf() by {
        if k != rid.key() {
            assert(s1.sockets[k] == s.sockets[k]);
        }
    }
}

/// The three-way setup of a connection: a closed socket connects with the
/// initial sequence number `seq` to a server socket that listens with room in
/// its backlog.  The SYN it sends reaches the server, which files an
/// established socket for the connection, queues it for `accept`, and
/// answers with an ACK; the ACK reaches the client, which is then established.
/// Afterwards both ends agree on the next sequence number, `seq + 1`, and the
/// client has nothing unacknowledged.
pub proof fn theorem_handshake(
    sc: ManagerView,
    id: SocketID,
    server_addr: Ipv4Addr,
    server_port: u8,
    seq: u32,
    ss: ManagerView,
    prev: PacketView,
)
    requires
        sc.wf(),
        sc.has(id),
        sc.get(id).state == SocketState::CLOSED,
        seq < INITIAL_SEQ_RANGE,
        ss.wf(),
        ss.next_handle < u64::MAX,
        ss.has(unbound_id(server_addr, server_port)),
        syn_accepted(ss.get(unbound_id(server_addr, server_port))),
        !ss.has(
            SocketID {
                local_addr: server_addr,
                local_port: server_port,
                remote_addr: id.local_addr,
                remote_port: id.local_port,
            },
        ),
        prev.payload is None,
    ensures
        ({
            let nid = SocketID { remote_addr: server_addr, remote_port: server_port, ..id };
            let sid = peer_id(nid);
            let (sc1, a1) = spec_connect(sc, id, server_addr, server_port, seq);
            let p1 = delivered(PacketCmdView::SYN(nid, seq), id.local_addr, server_addr, prev);
            let (ss1, a2) = spec_receive(ss, p1);
            let ack = PacketCmdView::ACK(sid, BUFFER_CAP, (seq + 1) as u32);
            let p2 = delivered(ack, server_addr, id.local_addr, prev);
            let (sc2, a3) = spec_receive(sc1, p2);
            let listener = ss.get(unbound_id(server_addr, server_port));
            &&& a1[0] == ActionView::Send(PacketCmdView::SYN(nid, seq))
            &&& receive_ok(ss, p1)
            &&& a2 == seq![ActionView::Send(ack), ActionView::NewConnectionChannel(ss.next_handle)]
            &&& ss1.wf()
            &&& ss1.get(sid).state == SocketState::ESTABLISHED
            &&& ss1.get(sid).recv_next == seq + 1
            &&& ss1.get(unbound_id(server_addr, server_port)).backlog_que == Some(
                listener.backlog_que.unwrap().push(Connection { id: sid, handle: ss.next_handle }),
            )
            &&& receive_ok(sc1, p2)
            &&& a3 == Seq::<ActionView>::empty()
            &&& sc2.wf()
            &&& sc2.get(nid).state == SocketState::ESTABLISHED
            &&& sc2.get(nid).send_base == seq + 1
            &&& sc2.get(nid).send_next == seq + 1
            &&& sc2.get(nid).send_buf == Some(Seq::<u8>::empty())
        }),
{
    let nid = SocketID { remote_addr: server_addr, remote_port: server_port, ..id };
    let sid = peer_id(nid);
    let (sc1, a1) = spec_connect(sc, id, server_addr, server_port, seq);
    let syn = PacketCmdView::SYN(nid, seq);
    let p1 = delivered(syn, id.local_addr, server_addr, prev);
    lemma_delivered(syn, id.local_addr, server_addr, prev);
    assert(packet_sock_id(p1) == sid);
    assert(sid.spec_server_id() == unbound_id(server_addr, server_port));
    let (ss1, a2) = spec_receive(ss, p1);
    let ack = PacketCmdView::ACK(sid, BUFFER_CAP, (seq + 1) as u32);
    let p2 = delivered(ack, server_addr, id.local_addr, prev);
    lemma_delivered(ack, server_addr, id.local_addr, prev);
    assert(packet_sock_id(p2) == nid);
    let (sc2, a3) = spec_receive(sc1, p2);
    lemma_key_injective(sid, unbound_id(server_addr, server_port));
    assert forall|k: u128| #[trigger] ss1.sockets.contains_key(k) implies ss1.sockets[k].wf() by {
        if k != sid.key() && k != unbound_id(server_addr, server_port).key() {
            assert(ss1.sockets[k] == ss.sockets[k]);
        }
    }
    lemma_receive_ports(ss, p1);
    assert forall|k: u128| #[trigger] sc1.sockets.contains_key(k) implies sc1.sockets[k].wf() by {
        if k != nid.key() {
            assert(sc1.sockets[k] == sc.sockets[k]);
        }
    }
    lemma_key_port(id);
    lemma_key_port(nid);
    assert forall|k: u128| #[trigger] sc1.sockets.contains_key(k) implies sc1.ports_alloc[key_port(k) as int] by {
        if k != nid.key() {
            assert(sc.sockets.contains_key(k));
        }
    }
    lemma_receive_ports(sc1, p2);
    assert forall|k: u128| #[trigger] sc2.sockets.contains_key(k) implies sc2.sockets[k].wf() by {
        if k != nid.key() {
            assert(sc2.sockets[k] == sc1.sockets[k]);
        }
    }
}

/// Closing a sending socket that still has unacknowledged data sends no FIN:
/// the socket waits (FIN_WAIT) until an ACK covers everything it sent, and
/// only then sends FIN for the byte after its data.
pub proof fn theorem_close_waits_for_acks(s: ManagerView, id: SocketID, prev: PacketView)
    requires
        s.wf(),
        s.has(id),
        s.get(id).state == SocketState::ESTABLISHED,
        s.get(id).send_buf is Some,
        s.get(id).send_base != s.get(id).send_next,
        prev.payload is None,
    ensures
        ({
            let c = s.get(id);
            let (s1, a1) = spec_close(s, id);
            let ack = PacketCmdView::ACK(peer_id(id), 0, c.send_next);
            let p = delivered(ack, id.remote_addr, id.local_addr, prev);
            let (s2, a2) = spec_receive(s1, p);
            &&& a1 == Seq::<ActionView>::empty()
            &&& s1.wf()
            &&& s1.get(id).state == SocketState::FIN_WAIT
            &&& receive_ok(s1, p)
            &&& a2 == seq![ActionView::Send(PacketCmdView::FIN(id, c.send_next))]
            &&& s2.get(id).state == SocketState::FIN_SENT
            &&& s2.wf()
        }),
{
    let c = s.get(id);
    let (s1, a1) = spec_close(s, id);
    let ack = PacketCmdView::ACK(peer_id(id), 0, c.send_next);
    lemma_delivered(ack, id.remote_addr, id.local_addr, prev);
    let p = delivered(ack, id.remote_addr, id.local_addr, prev);
    assert(packet_sock_id(p) == id);
    let (s2, a2) = spec_receive(s1, p);
    assert forall|k: u128| #[trigger] s1.sockets.contains_key(k) implies s1.sockets[k].wf() by {
        if k != id.key() {
            assert(s1.sockets[k] == s.sockets[k]);
        }
    }
    assert forall|k: u128| #[trigger] s2.sockets.contains_key(k) implies s2.sockets[k].wf() by {
        if k != id.key() {
            assert(s2.sockets[k] == s1.sockets[k]);
        }
    }
}


/// The state after each packet of `ps` arrives in turn.
pub open spec fn receive_all(s: ManagerView, ps: Seq<PacketView>) -> ManagerView
    decreases ps.len(),
{
    if ps.len() == 0 {
        s
    } else {
        receive_all(spec_receive(s, ps[0]).0, ps.drop_first())
    }
}

/// Each packet of `ps` can be handled when it arrives, after those before it.
pub open spec fn receivable_all(s: ManagerView, ps: Seq<PacketView>) -> bool
    decreases ps.len(),
{
    ps.len() == 0 || (receive_ok(s, ps[0]) && receivable_all(spec_receive(s, ps[0]).0, ps.drop_first()))
}

/// The packets that carry DATA commands, as they arrive at the other end.
pub open spec fn delivered_all(cmds: Seq<PacketCmdView>, src_addr: Ipv4Addr, dest_addr: Ipv4Addr, prev: PacketView) -> Seq<PacketView> {
    cmds.map_values(|c: PacketCmdView| delivered(c, src_addr, dest_addr, prev))
}

/// A stretch of bytes sent from sequence number `seq` on (as the `SendNow`
/// that follows a write sends it) reaches the peer socket in order and fits
/// its receive window: the peer can take every packet as it comes, and then
/// holds the bytes it buffered before followed by the whole stretch, in
/// order, and expects the byte after it.
pub proof fn theorem_stream_delivered(sender: SocketID, seq: u32, data: Seq<u8>, s: ManagerView, prev: PacketView)
    requires
        0 < data.len(),
        seq + data.len() <= u32::MAX,
        prev.payload is None,
        s.wf(),
        s.has(peer_id(sender)),
        s.get(peer_id(sender)).state == SocketState::ESTABLISHED,
        s.get(peer_id(sender)).recv_buf is Some,
        s.get(peer_id(sender)).recv_next == seq,
        s.get(peer_id(sender)).recv_wind + s.get(peer_id(sender)).recv_base <= u32::MAX,
        s.get(peer_id(sender)).recv_buf.unwrap().len() + data.len() <= s.get(
            peer_id(sender),
        ).recv_wind,
    ensures
        ({
            let ps = delivered_all(
                data_segments(sender, seq, data),
                sender.local_addr,
                sender.remote_addr,
                prev,
            );
            let rid = peer_id(sender);
            let c = s.get(rid);
            let s2 = receive_all(s, ps);
            &&& receivable_all(s, ps)
            &&& s2.wf()
            &&& s2.has(rid)
            &&& s2.get(rid) == (ContentsView {
                recv_buf: Some(c.recv_buf.unwrap() + data),
                recv_next: (seq + data.len()) as u32,
                ..c
            })
        }),
    decreases data.len(),
{
    let rid = peer_id(sender);
    let c = s.get(rid);
    let b = c.recv_buf.unwrap();
    let segs = data_segments(sender, seq, data);
    let ps = delivered_all(segs, sender.local_addr, sender.remote_addr, prev);
    if data.len() <= MAX_PAYLOAD_SIZE {
        theorem_data_delivered(sender, seq, data, s, prev, 0);
        let s1 = spec_receive(s, ps[0]).0;
        assert(ps.drop_first() =~= Seq::<PacketView>::empty());
        assert(receive_all(s1, ps.drop_first()) == s1);
        assert(receivable_all(s1, ps.drop_first()));
    } else {
        let first = data.take(MAX_PAYLOAD_SIZE as int);
        let rest = data.skip(MAX_PAYLOAD_SIZE as int);
        let seq2 = (seq + MAX_PAYLOAD_SIZE) as u32;
        theorem_data_delivered(sender, seq, first, s, prev, 0);
        let s1 = spec_receive(s, ps[0]).0;
        let c1 = s1.get(rid);
        assert(c1.recv_buf.unwrap().len() + rest.len() <= c1.recv_wind);
        theorem_stream_delivered(sender, seq2, rest, s1, prev);
        let rsegs = data_segments(sender, seq2, rest);
        assert(ps.drop_first() =~= delivered_all(rsegs, sender.local_addr, sender.remote_addr, prev));
        assert(b + first + rest =~= b + data);
    }
}


/// A write takes as many of the asked bytes as the send window has room for:
/// never more than asked, never more than the room, and fewer than asked only
/// when the window is then full; the window still covers exactly the
/// buffered bytes and does not exceed its size.
pub proof fn theorem_write_takes_what_fits(s: ManagerView, id: SocketID, buf: Seq<u8>, pos: u32, len: u32)
    requires
        s.wf(),
        write_ok(s, id, buf, pos, len),
    ensures
        ({
            let c = s.get(id);
            let n = write_amount(c, len);
            let (s1, acts) = spec_write(s, id, buf, pos, len);
            let c1 = s1.get(id);
            &&& acts[1] == ActionView::Reply(c.ret_handle, TaskRetView::Write(Ok(n as usize)))
            &&& n <= len
            &&& n <= c.send_base + c.send_wind - c.send_next
            &&& n < len ==> c1.send_next - c1.send_base == c1.send_wind
            &&& c1.send_synced()
            &&& c1.send_next - c1.send_base <= c1.send_wind
            &&& s1.wf()
        }),
{
    theorem_write_then_send(s, id, buf, pos, len);
}

/// A port that a filed socket has is never given to another socket: while
/// `holder` is filed, a `Bind` of any socket to `holder`'s local port is
/// answered with -1 and changes nothing.
pub proof fn theorem_held_port_not_bound(s: ManagerView, holder: SocketID, id: SocketID, seq: u32)
    requires
        s.wf(),
        s.has(holder),
        s.has(id),
    ensures
        spec_task(s, TaskView::Bind(id, holder.local_port), seq) == (
            s,
            seq![ActionView::Reply(s.get(id).ret_handle, TaskRetView::Bind(Err(-1isize)))],
        ),
{
    lemma_key_port(holder);
    assert(s.ports_alloc[key_port(holder.key()) as int]);
}

/// The port of a socket that leaves is freed once no other socket has it, so
/// a later `New` can have it again; while another socket still has it, it
/// stays allocated.
pub proof fn theorem_release_frees_port(s: ManagerView, id: SocketID)
    requires
        s.wf(),
        s.has(id),
    ensures
        ({
            let s1 = spec_release(s, id).0;
            &&& s1.wf()
            &&& !s1.has(id)
            &&& forall|k: u128| k != id.key() ==> (#[trigger] s1.sockets.contains_key(k)
                == s.sockets.contains_key(k) && (s.sockets.contains_key(k) ==> s1.sockets[k]
                == s.sockets[k]))
            &&& s1.ports_alloc[id.local_port as int] == port_held(s1.sockets, id.local_port)
            &&& forall|p: int| 0 <= p < 256 && p != id.local_port ==> s1.ports_alloc[p] == s.ports_alloc[p]
        }),
{
    lemma_key_port(id);
    let s1 = spec_release(s, id).0;
    assert forall|k: u128| #[trigger] s1.sockets.contains_key(k) implies s1.sockets[k].wf() && s1.ports_alloc[key_port(k) as int] by {
        assert(s.sockets.contains_key(k));
    }
}

/// A stale ACK, one below the first unacknowledged byte of an established
/// or closing socket, neither moves the window nor brings acknowledged bytes
/// back; unless it happens to be the one a closing socket waits for, it
/// changes nothing at all and sends nothing.
pub proof fn theorem_stale_ack_ignored(s: ManagerView, p: PacketView)
    requires
        p.t_type == TransType::ACK,
        s.sockets.contains_key(receiver_key(s, p)),
        s.sockets[receiver_key(s, p)].state == SocketState::ESTABLISHED
            || s.sockets[receiver_key(s, p)].state == SocketState::FIN_WAIT,
        p.seq_num < s.sockets[receiver_key(s, p)].send_base,
    ensures
        ({
            let k = receiver_key(s, p);
            let c = s.sockets[k];
            let c1 = spec_receive(s, p).0.sockets[k];
            &&& spec_receive(s, p).0.sockets.contains_key(k)
            &&& c1.send_base == c.send_base
            &&& c1.send_buf == c.send_buf
            &&& (c.state == SocketState::ESTABLISHED || p.seq_num != c.send_next) ==> spec_receive(
                s,
                p,
            ) == (s, Seq::<ActionView>::empty())
        }),
{
}

/// An ACK never moves the window of an established or closing socket
/// backwards, and acknowledged bytes never come back: the send buffer
/// afterwards is the old one without the bytes the window slid past.
pub proof fn theorem_ack_never_moves_back(s: ManagerView, p: PacketView)
    requires
        s.wf(),
        receive_ok(s, p),
        p.t_type == TransType::ACK,
        s.sockets[receiver_key(s, p)].state == SocketState::ESTABLISHED
            || s.sockets[receiver_key(s, p)].state == SocketState::FIN_WAIT,
    ensures
        ({
            let k = receiver_key(s, p);
            let c = s.sockets[k];
            let c1 = spec_receive(s, p).0.sockets[k];
            &&& spec_receive(s, p).0.sockets.contains_key(k)
            &&& c1.send_base >= c.send_base
            &&& c.send_buf is Some ==> c1.send_buf == Some(
                c.send_buf.unwrap().skip(c1.send_base - c.send_base),
            )
        }),
{
    let k = receiver_key(s, p);
    let c = s.sockets[k];
    if c.send_buf is Some {
        assert(c.send_buf.unwrap().skip(0) =~= c.send_buf.unwrap());
    }
}

/// `Accept` hands out the connection that has waited longest and takes it
/// out of the backlog; with nothing waiting it answers 0 and changes
/// nothing.  No other socket is touched.
pub proof fn theorem_accept_takes_first(s: ManagerView, id: SocketID, seq: u32)
    requires
        s.wf(),
        s.has(id),
        s.get(id).backlog_que is Some,
    ensures
        ({
            let c = s.get(id);
            let q = c.backlog_que.unwrap();
            let (s1, a) = spec_task(s, TaskView::Accept(id), seq);
            &&& s1.has(id)
            &&& s1.ports_alloc == s.ports_alloc
            &&& s1.next_handle == s.next_handle
            &&& forall|k: u128| k != id.key() ==> (#[trigger] s1.sockets.contains_key(k)
                == s.sockets.contains_key(k) && (s.sockets.contains_key(k) ==> s1.sockets[k]
                == s.sockets[k]))
            &&& if q.len() > 0 {
                &&& a == seq![ActionView::Reply(c.ret_handle, TaskRetView::Accept(Ok(q[0])))]
                &&& s1.get(id) == ContentsView { backlog_que: Some(q.subrange(1, q.len() as int)), ..c }
                &&& s1.get(id).backlog_que.unwrap().len() == q.len() - 1
            } else {
                &&& a == seq![ActionView::Reply(c.ret_handle, TaskRetView::Accept(Err(0isize)))]
                &&& s1 == s
            }
        }),
{
    let q = s.get(id).backlog_que.unwrap();
    if q.len() > 0 {
        assert(q.drop_first() =~= q.subrange(1, q.len() as int));
    }
}

/// With one connection waiting, a first `Accept` hands it out and a second
/// one finds nothing: a connection is handed out only once.
pub proof fn theorem_accept_twice(s: ManagerView, id: SocketID, seq: u32)
    requires
        s.wf(),
        s.has(id),
        s.get(id).backlog_que is Some,
        s.get(id).backlog_que.unwrap().len() == 1,
    ensures
        ({
            let c = s.get(id);
            let (s1, a1) = spec_task(s, TaskView::Accept(id), seq);
            let (s2, a2) = spec_task(s1, TaskView::Accept(id), seq);
            &&& a1 == seq![ActionView::Reply(c.ret_handle, TaskRetView::Accept(Ok(c.backlog_que.unwrap()[0])))]
            &&& a2 == seq![ActionView::Reply(c.ret_handle, TaskRetView::Accept(Err(0isize)))]
            &&& s2 == s1
            &&& s2.get(id).backlog_que == Some(Seq::<Connection>::empty())
        }),
{
    theorem_accept_takes_first(s, id, seq);
    let s1 = spec_task(s, TaskView::Accept(id), seq).0;
    assert(s1.get(id).backlog_que.unwrap().len() == 0);
    assert(s1.get(id).backlog_que.unwrap() =~= Seq::<Connection>::empty());
}

/// `Listen(id, backlog)` on a socket that is not listening yet makes it
/// listen with an empty queue bounded by exactly `backlog`: it takes SYNs as
/// long as fewer than `backlog` connections wait.  A second `Listen` is
/// answered -1 and changes nothing.
pub proof fn theorem_listen_keeps_backlog(s: ManagerView, id: SocketID, backlog: u32, seq: u32)
    requires
        s.wf(),
        s.has(id),
    ensures
        ({
            let c = s.get(id);
            let (s1, a) = spec_task(s, TaskView::Listen(id, backlog), seq);
            if c.backlog_que is None {
                &&& a == seq![ActionView::Reply(c.ret_handle, TaskRetView::Listen(Ok(())))]
                &&& s1.has(id)
                &&& s1.get(id).state == SocketState::LISTEN
                &&& s1.get(id).backlog == backlog
                &&& s1.get(id).backlog_que == Some(Seq::<Connection>::empty())
                &&& s1.get(id).ret_handle == c.ret_handle
                &&& (syn_accepted(s1.get(id)) <==> backlog > 0)
                &&& s1.ports_alloc == s.ports_alloc
                &&& forall|k: u128| k != id.key() ==> (#[trigger] s1.sockets.contains_key(k)
                    == s.sockets.contains_key(k) && (s.sockets.contains_key(k) ==> s1.sockets[k]
                    == s.sockets[k]))
            } else {
                &&& a == seq![ActionView::Reply(c.ret_handle, TaskRetView::Listen(Err(-1isize)))]
                &&& s1 == s
            }
        }),
{
}

/// `Close` of a filed socket that is not established drops it at once and
/// sends nothing: no socket is filed under its id any more, its port is
/// free unless another socket has it, and every other socket and port stays
/// as it was.  An established socket stays filed.
pub proof fn theorem_close_drops_unestablished(s: ManagerView, id: SocketID, seq: u32)
    requires
        s.wf(),
        s.has(id),
    ensures
        ({
            let (s1, a) = spec_task(s, TaskView::Close(id), seq);
            &&& s.get(id).state == SocketState::ESTABLISHED ==> s1.has(id)
            &&& s.get(id).state != SocketState::ESTABLISHED ==> {
                &&& a == Seq::<ActionView>::empty()
                &&& !s1.has(id)
                &&& s1.ports_alloc[id.local_port as int] == port_held(s1.sockets, id.local_port)
                &&& forall|p: int| 0 <= p < 256 && p != id.local_port ==> s1.ports_alloc[p]
                    == s.ports_alloc[p]
                &&& forall|k: u128| k != id.key() ==> (#[trigger] s1.sockets.contains_key(k)
                    == s.sockets.contains_key(k) && (s.sockets.contains_key(k) ==> s1.sockets[k]
                    == s.sockets[k]))
            }
        }),
{
    lemma_key_port(id);
}

/// Every DATA packet that reaches an established socket is answered with
/// one ACK, for the next byte the socket expects, that advertises the room
/// left in its receive window once the packet is handled: the window size
/// less the bytes buffered and not yet read.
pub proof fn theorem_data_ack_advertises_room(s: ManagerView, p: PacketView, seq: u32)
    requires
        s.wf(),
        receive_ok(s, p),
        p.t_type == TransType::DATA,
        s.sockets[receiver_key(s, p)].state == SocketState::ESTABLISHED,
    ensures
        ({
            let k = receiver_key(s, p);
            let (s1, a) = spec_task(s, TaskView::OnReceive(p), seq);
            let c1 = s1.sockets[k];
            &&& s1.sockets.contains_key(k)
            &&& c1.recv_next <= c1.recv_base + c1.recv_wind
            &&& a.len() == 1
            &&& a[0] matches ActionView::Send(PacketCmdView::ACK(to, w, n)) && to == packet_sock_id(p)
                && n == c1.recv_next && w == c1.recv_wind - (c1.recv_next - c1.recv_base)
        }),
{
    let k = receiver_key(s, p);
    let c = s.sockets[k];
    assert(c.wf());
    if p.seq_num == c.recv_next {
        let tr = recv_amount(c, p);
        assert(tr <= c.recv_wind - (c.recv_next - c.recv_base));
    }
}

} // verus!
