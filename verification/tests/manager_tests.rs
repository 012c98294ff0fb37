use std::collections::VecDeque;

use my_tcp::transport::manager::{
    Connection, ManagerAction, SocketContents, SocketManager, TaskMsg, TaskRet, BUFFER_CAP,
    INITIAL_SEQ_RANGE,
};
use my_tcp::transport::packet::{TransType, TransportPacket};
use my_tcp::transport::socket::{Ipv4Addr, SocketID, SocketState};
use my_tcp::transport::udp_utils::PacketCmd;

fn client_addr() -> Ipv4Addr {
    Ipv4Addr::new(10, 0, 0, 1)
}

fn server_addr() -> Ipv4Addr {
    Ipv4Addr::new(10, 0, 0, 2)
}

fn run(m: &mut SocketManager, t: TaskMsg) -> Vec<ManagerAction> {
    assert!(m.can_handle(&t), "task cannot be handled: {:?}", t);
    m.handle_task(t)
}

fn contents<'a>(m: &'a SocketManager, id: &SocketID) -> &'a SocketContents {
    m.socket_map.get(&id.to_key()).expect("no such socket")
}

/// The packet that a command turns into at the other end.
fn route(cmd: PacketCmd) -> TransportPacket {
    let id = cmd.sock_id();
    let bytes = cmd.into_packet().pack();
    let mut p = TransportPacket::default();
    assert!(p.unpack(VecDeque::from(bytes), id.local_addr, id.remote_addr));
    p
}

fn sent(acts: &[ManagerAction]) -> Vec<PacketCmd> {
    acts.iter()
        .filter_map(|a| match a {
            ManagerAction::Send(c) => Some(c.clone()),
            _ => None,
        })
        .collect()
}

fn new_socket(m: &mut SocketManager, addr: Ipv4Addr) -> (SocketID, u64) {
    let acts = run(m, TaskMsg::New(addr));
    assert_eq!(acts.len(), 2);
    let h = match acts[0] {
        ManagerAction::NewReplyChannel(h) => h,
        _ => panic!("expected a new reply channel"),
    };
    match &acts[1] {
        ManagerAction::Reply(h2, TaskRet::New(Ok(id))) => {
            assert_eq!(*h2, h);
            (*id, h)
        },
        _ => panic!("expected the new socket id"),
    }
}

fn bind(m: &mut SocketManager, id: SocketID, port: u8) -> SocketID {
    let acts = run(m, TaskMsg::Bind(id, port));
    match &acts[0] {
        ManagerAction::Reply(_, TaskRet::Bind(Ok(nid))) => *nid,
        _ => panic!("bind failed"),
    }
}

/// A server listening on port 88 with the given backlog, and a client on port 89 that
/// has sent its SYN.  Returns (server manager, listening id, client manager, client id, seq).
fn listening_server_and_connecting_client(backlog: u32) -> (SocketManager, SocketID, SocketManager, SocketID, Vec<ManagerAction>) {
    let mut server = SocketManager::new();
    let (sid, _) = new_socket(&mut server, server_addr());
    let sid = bind(&mut server, sid, 88);
    let acts = run(&mut server, TaskMsg::Listen(sid, backlog));
    assert!(matches!(acts[0], ManagerAction::Reply(_, TaskRet::Listen(Ok(())))));

    let mut client = SocketManager::new();
    let (cid, _) = new_socket(&mut client, client_addr());
    let cid = bind(&mut client, cid, 89);
    let acts = run(&mut client, TaskMsg::Connect(cid, server_addr(), 88));
    let cid = match &acts[1] {
        ManagerAction::Reply(_, TaskRet::Connect(Ok(nid))) => *nid,
        _ => panic!("connect failed"),
    };
    (server, sid, client, cid, acts)
}

/// A connection set up between a client and a server; returns the managers,
/// the client's id and the server-side connection id.
fn connected() -> (SocketManager, SocketManager, SocketID, SocketID) {
    let (mut server, sid, mut client, cid, acts) = listening_server_and_connecting_client(16);
    let syn = sent(&acts).remove(0);
    let acts = run(&mut server, TaskMsg::OnReceive(route(syn)));
    let ack = sent(&acts).remove(0);
    let acts = run(&mut client, TaskMsg::OnReceive(route(ack)));
    assert!(acts.is_empty());
    let acts = run(&mut server, TaskMsg::Accept(sid));
    let conn = match &acts[0] {
        ManagerAction::Reply(_, TaskRet::Accept(Ok(c))) => *c,
        _ => panic!("nothing to accept"),
    };
    (client, server, cid, conn.id)
}

/// Writes `data` on the client and carries all its packets to the server.
fn transfer(client: &mut SocketManager, server: &mut SocketManager, cid: SocketID, data: Vec<u8>) -> usize {
    let len = data.len() as u32;
    let acts = run(client, TaskMsg::Write(cid, data, 0, len));
    let (seq, n) = match acts[0] {
        ManagerAction::ScheduleSendNow(_, s, n) => (s, n),
        _ => panic!("expected a SendNow task"),
    };
    let packets = sent(&run(client, TaskMsg::SendNow(cid, seq, n)));
    for p in packets {
        let acks = sent(&run(server, TaskMsg::OnReceive(route(p))));
        for a in acks {
            run(client, TaskMsg::OnReceive(route(a)));
        }
    }
    n as usize
}

fn read(m: &mut SocketManager, id: SocketID, len: u32) -> Vec<u8> {
    let acts = run(m, TaskMsg::Read(id, len));
    match &acts[0] {
        ManagerAction::Reply(_, TaskRet::Read(Ok(v))) => v.clone(),
        _ => panic!("read failed"),
    }
}

#[test]
fn new_socket_gets_first_free_port() {
    let mut m = SocketManager::new();
    let (id, h) = new_socket(&mut m, client_addr());
    assert_eq!(id, SocketID::new(client_addr(), 0));
    assert_eq!(h, 0);
    let c = contents(&m, &id);
    assert_eq!(c.state, SocketState::CLOSED);
    assert_eq!(c.send_wind, BUFFER_CAP);
    assert_eq!(c.recv_wind, BUFFER_CAP);
    assert!(c.send_buf.is_none() && c.recv_buf.is_none());
    assert!(m.ports_alloc[0]);
    assert_eq!(m.new_socket_id(client_addr()), Ok(SocketID::new(client_addr(), 1)));
    // the next socket gets the next free port and the next reply channel
    let (id2, h2) = new_socket(&mut m, client_addr());
    assert_eq!(id2, SocketID::new(client_addr(), 1));
    assert_eq!(h2, 1);
    assert_eq!(m.socket_map.len(), 2);
}

#[test]
fn bind_refiles_the_socket() {
    let mut m = SocketManager::new();
    let (id, _) = new_socket(&mut m, client_addr());
    let nid = bind(&mut m, id, 88);
    assert_eq!(nid.local_port, 88);
    assert!(m.socket_map.get(&nid.to_key()).is_some());
    assert!(m.socket_map.get(&id.to_key()).is_none());
    assert!(!m.ports_alloc[0]);
    assert!(m.ports_alloc[88]);
}

#[test]
fn listen_twice_fails() {
    let mut m = SocketManager::new();
    let (id, _) = new_socket(&mut m, server_addr());
    let acts = run(&mut m, TaskMsg::Listen(id, 4));
    assert!(matches!(acts[0], ManagerAction::Reply(0, TaskRet::Listen(Ok(())))));
    assert_eq!(contents(&m, &id).state, SocketState::LISTEN);
    let acts = run(&mut m, TaskMsg::Listen(id, 4));
    assert!(matches!(acts[0], ManagerAction::Reply(0, TaskRet::Listen(Err(-1)))));
}

#[test]
fn accept_with_empty_backlog() {
    let mut m = SocketManager::new();
    let (id, _) = new_socket(&mut m, server_addr());
    run(&mut m, TaskMsg::Listen(id, 4));
    let acts = run(&mut m, TaskMsg::Accept(id));
    assert!(matches!(acts[0], ManagerAction::Reply(0, TaskRet::Accept(Err(0)))));
}

#[test]
fn connect_sends_syn() {
    let (_server, _sid, client, cid, acts) = listening_server_and_connecting_client(16);
    assert_eq!(cid.remote_addr, server_addr());
    assert_eq!(cid.remote_port, 88);
    let syn = sent(&acts).remove(0);
    let seq = match syn {
        PacketCmd::SYN(id, s) => {
            assert_eq!(id, cid);
            s
        },
        _ => panic!("expected SYN"),
    };
    assert!(seq < INITIAL_SEQ_RANGE);
    let c = contents(&client, &cid);
    assert_eq!(c.state, SocketState::SYN_SENT);
    assert_eq!(c.send_base, seq);
    assert_eq!(c.send_next, seq + 1);
}

#[test]
fn connect_with_given_sequence_number() {
    let mut m = SocketManager::new();
    let (id, _) = new_socket(&mut m, client_addr());
    let acts = m.handle_connect(id, server_addr(), 7, 1000);
    match &sent(&acts)[0] {
        PacketCmd::SYN(_, s) => assert_eq!(*s, 1000),
        _ => panic!("expected SYN"),
    }
    let nid = SocketID { remote_addr: server_addr(), remote_port: 7, ..id };
    assert_eq!(contents(&m, &nid).send_next, 1001);
}

#[test]
fn connect_in_wrong_state_fails_and_keeps_socket() {
    let mut m = SocketManager::new();
    let (id, _) = new_socket(&mut m, client_addr());
    run(&mut m, TaskMsg::Listen(id, 1));
    let acts = run(&mut m, TaskMsg::Connect(id, server_addr(), 88));
    assert_eq!(acts.len(), 1);
    assert!(matches!(acts[0], ManagerAction::Reply(_, TaskRet::Connect(Err(-1)))));
    assert_eq!(contents(&m, &id).state, SocketState::LISTEN);
}

#[test]
fn handshake_establishes_both_ends() {
    let (mut server, sid, mut client, cid, acts) = listening_server_and_connecting_client(16);
    let syn = sent(&acts).remove(0);
    let seq = match syn {
        PacketCmd::SYN(_, s) => s,
        _ => panic!("expected SYN"),
    };
    let acts = run(&mut server, TaskMsg::OnReceive(route(syn)));
    let conn_id = SocketID {
        local_addr: server_addr(),
        local_port: 88,
        remote_addr: client_addr(),
        remote_port: 89,
    };
    match &acts[0] {
        ManagerAction::Send(PacketCmd::ACK(id, w, s)) => {
            assert_eq!(*id, conn_id);
            assert_eq!(*w, BUFFER_CAP);
            assert_eq!(*s, seq + 1);
        },
        _ => panic!("expected ACK"),
    }
    assert!(matches!(acts[1], ManagerAction::NewConnectionChannel(1)));
    let sc = contents(&server, &conn_id);
    assert_eq!(sc.state, SocketState::ESTABLISHED);
    assert_eq!(sc.recv_next, seq + 1);
    assert_eq!(sc.recv_base, seq + 1);
    let ack = sent(&acts).remove(0);
    assert!(run(&mut client, TaskMsg::OnReceive(route(ack))).is_empty());
    let cc = contents(&client, &cid);
    assert_eq!(cc.state, SocketState::ESTABLISHED);
    assert_eq!(cc.send_base, seq + 1);
    assert_eq!(cc.send_next, seq + 1);
    let acts = run(&mut server, TaskMsg::Accept(sid));
    match &acts[0] {
        ManagerAction::Reply(0, TaskRet::Accept(Ok(c))) => {
            assert_eq!(*c, Connection { id: conn_id, handle: 1 })
        },
        _ => panic!("expected the connection"),
    }
}

#[test]
fn repeated_syn_is_ignored() {
    let (mut server, sid, _client, _cid, acts) = listening_server_and_connecting_client(16);
    let syn = sent(&acts).remove(0);
    run(&mut server, TaskMsg::OnReceive(route(syn.clone())));
    // the second SYN reaches the connection socket, which is not listening
    let acts = run(&mut server, TaskMsg::OnReceive(route(syn)));
    assert!(acts.is_empty());
    assert_eq!(contents(&server, &sid).backlog_que.as_ref().unwrap().len(), 1);
}

#[test]
fn backlog_limits_pending_connections() {
    let (mut server, sid, _client, _cid, _) = listening_server_and_connecting_client(1);
    for port in [50u8, 51] {
        let syn = PacketCmd::SYN(
            SocketID {
                local_addr: client_addr(),
                local_port: port,
                remote_addr: server_addr(),
                remote_port: 88,
            },
            5,
        );
        let acts = run(&mut server, TaskMsg::OnReceive(route(syn)));
        if port == 50 {
            assert_eq!(acts.len(), 2);
        } else {
            assert!(acts.is_empty());
        }
    }
    assert_eq!(contents(&server, &sid).backlog_que.as_ref().unwrap().len(), 1);
}

#[test]
fn local_test_transfer() {
    let (mut client, mut server, cid, conn) = connected();
    for _ in 0..20 {
        let data: Vec<u8> = (0..200).map(|i| i as u8).collect();
        assert_eq!(transfer(&mut client, &mut server, cid, data.clone()), 200);
        assert_eq!(read(&mut server, conn, 200), data);
    }
    let c = contents(&client, &cid);
    assert_eq!(c.send_base, c.send_next);
    assert!(c.send_buf.as_ref().unwrap().is_empty());
}

#[test]
fn buffered_transfer_then_reads() {
    let (mut client, mut server, cid, conn) = connected();
    for _ in 0..20 {
        let data: Vec<u8> = (0..200).map(|i| i as u8).collect();
        assert_eq!(transfer(&mut client, &mut server, cid, data), 200);
    }
    for _ in 0..20 {
        let got = read(&mut server, conn, 200);
        assert_eq!(got, (0..200).map(|i| i as u8).collect::<Vec<u8>>());
    }
    assert!(read(&mut server, conn, 200).is_empty());
}

#[test]
fn long_write_is_sent_in_segments() {
    let (mut client, _server, cid, _conn) = connected();
    let base = contents(&client, &cid).send_next;
    let data: Vec<u8> = (0..450).map(|i| (i % 251) as u8).collect();
    let acts = run(&mut client, TaskMsg::Write(cid, data.clone(), 0, 450));
    assert!(matches!(acts[0], ManagerAction::ScheduleSendNow(_, s, 450) if s == base));
    assert!(matches!(acts[1], ManagerAction::Reply(_, TaskRet::Write(Ok(450)))));
    let packets = sent(&run(&mut client, TaskMsg::SendNow(cid, base, 450)));
    assert_eq!(packets.len(), 3);
    let mut expect_seq = base;
    let mut all = Vec::new();
    for (i, p) in packets.iter().enumerate() {
        match p {
            PacketCmd::DATA(id, s, d) => {
                assert_eq!(*id, cid);
                assert_eq!(*s, expect_seq);
                assert_eq!(d.len(), if i < 2 { 200 } else { 50 });
                expect_seq += d.len() as u32;
                all.extend_from_slice(d);
            },
            _ => panic!("expected DATA"),
        }
    }
    assert_eq!(all, data);
}

#[test]
fn write_takes_only_window_room() {
    let (mut client, _server, cid, _conn) = connected();
    let data = vec![7u8; 5000];
    let acts = run(&mut client, TaskMsg::Write(cid, data.clone(), 0, 5000));
    assert!(matches!(acts[1], ManagerAction::Reply(_, TaskRet::Write(Ok(4096)))));
    let acts = run(&mut client, TaskMsg::Write(cid, data, 4096, 904));
    assert!(matches!(acts[1], ManagerAction::Reply(_, TaskRet::Write(Ok(0)))));
    let c = contents(&client, &cid);
    assert_eq!(c.send_next - c.send_base, 4096);
}

#[test]
fn write_from_position() {
    let (mut client, _server, cid, _conn) = connected();
    let acts = run(&mut client, TaskMsg::Write(cid, vec![1, 2, 3, 4, 5], 2, 2));
    assert!(matches!(acts[1], ManagerAction::Reply(_, TaskRet::Write(Ok(2)))));
    let c = contents(&client, &cid);
    assert_eq!(c.send_buf.as_ref().unwrap().iter().copied().collect::<Vec<u8>>(), vec![3, 4]);
}

#[test]
fn ack_slides_send_window() {
    let (mut client, _server, cid, _conn) = connected();
    let base = contents(&client, &cid).send_base;
    run(&mut client, TaskMsg::Write(cid, vec![1, 2, 3, 4, 5], 0, 5));
    let ack = TransportPacket::new(88, 89, TransType::ACK, 4000, base + 3, None);
    let mut p = ack;
    p.src_addr = server_addr();
    p.dest_addr = client_addr();
    assert!(run(&mut client, TaskMsg::OnReceive(p)).is_empty());
    let c = contents(&client, &cid);
    assert_eq!(c.send_base, base + 3);
    assert_eq!(c.send_buf.as_ref().unwrap().iter().copied().collect::<Vec<u8>>(), vec![4, 5]);
}

#[test]
fn receive_window_bounds_the_buffer() {
    let (mut client, mut server, cid, conn) = connected();
    // fill the receiver's window
    let mut total = 0;
    while total < 4096 {
        let n = transfer(&mut client, &mut server, cid, vec![1u8; 200]);
        assert_eq!(n, 200);
        total += 200;
        if total + 200 > 4096 {
            break;
        }
    }
    let sc = contents(&server, &conn);
    assert_eq!(sc.recv_buf.as_ref().unwrap().len(), total);
    // the next packet only partly fits; the ACK advertises the room left
    let next = sc.recv_next;
    let mut p = TransportPacket::new(89, 88, TransType::DATA, 0, next, Some(vec![2u8; 200]));
    p.src_addr = client_addr();
    p.dest_addr = server_addr();
    let acts = run(&mut server, TaskMsg::OnReceive(p));
    let room = (4096 - total) as u32;
    match &sent(&acts)[0] {
        PacketCmd::ACK(_, w, s) => {
            assert_eq!(*w, 0);
            assert_eq!(*s, next + room);
        },
        _ => panic!("expected ACK"),
    }
    assert_eq!(contents(&server, &conn).recv_buf.as_ref().unwrap().len(), 4096);
    // reading from the full buffer advertises the room it frees
    let acts = run(&mut server, TaskMsg::Read(conn, 300));
    assert_eq!(acts.len(), 2);
    match &sent(&acts)[0] {
        PacketCmd::ACK(id, w, s) => {
            assert_eq!(*id, conn);
            assert_eq!(*w, 300);
            assert_eq!(*s, next + room);
        },
        _ => panic!("expected ACK"),
    }
    // a read from a buffer that is not full only answers
    assert_eq!(run(&mut server, TaskMsg::Read(conn, 100)).len(), 1);
}

#[test]
fn out_of_order_data_is_not_taken() {
    let (_client, mut server, _cid, conn) = connected();
    let next = contents(&server, &conn).recv_next;
    let mut p = TransportPacket::new(89, 88, TransType::DATA, 0, next + 10, Some(vec![1, 2]));
    p.src_addr = client_addr();
    p.dest_addr = server_addr();
    let acts = run(&mut server, TaskMsg::OnReceive(p));
    match &sent(&acts)[0] {
        PacketCmd::ACK(id, w, s) => {
            assert_eq!(*id, conn);
            assert_eq!(*w, 4096);
            assert_eq!(*s, next);
        },
        _ => panic!("expected ACK"),
    }
    assert!(contents(&server, &conn).recv_buf.as_ref().unwrap().is_empty());
}

#[test]
fn close_after_all_acked_sends_fin() {
    let (mut client, mut server, cid, conn) = connected();
    transfer(&mut client, &mut server, cid, vec![5u8; 10]);
    let next = contents(&client, &cid).send_next;
    let acts = run(&mut client, TaskMsg::Close(cid));
    match &sent(&acts)[0] {
        PacketCmd::FIN(id, s) => {
            assert_eq!(*id, cid);
            assert_eq!(*s, next);
        },
        _ => panic!("expected FIN"),
    }
    assert_eq!(contents(&client, &cid).state, SocketState::FIN_SENT);
    // the server shuts down but keeps its data for the user
    let fin = sent(&acts).remove(0);
    let acts = run(&mut server, TaskMsg::OnReceive(route(fin)));
    match &sent(&acts)[0] {
        PacketCmd::ACK(_, 0, s) => assert_eq!(*s, next + 1),
        _ => panic!("expected ACK"),
    }
    assert_eq!(contents(&server, &conn).state, SocketState::SHUTDOWN);
    assert_eq!(read(&mut server, conn, 100), vec![5u8; 10]);
    // the ACK ends the connection at the client
    let ack = sent(&acts).remove(0);
    assert!(run(&mut client, TaskMsg::OnReceive(route(ack))).is_empty());
    assert!(client.socket_map.get(&cid.to_key()).is_none());
    // the client's port is free again
    assert!(!client.ports_alloc[89]);
    // closing the shut down socket drops it; the listener keeps the port
    assert!(run(&mut server, TaskMsg::Close(conn)).is_empty());
    assert!(server.socket_map.get(&conn.to_key()).is_none());
    assert!(server.ports_alloc[88]);
}

#[test]
fn rebinding_a_connection_keeps_the_listener_port() {
    let (mut server, sid, _client, _cid, acts) = listening_server_and_connecting_client(16);
    let syn = sent(&acts).remove(0);
    run(&mut server, TaskMsg::OnReceive(route(syn)));
    let conn_id = SocketID {
        local_addr: server_addr(),
        local_port: 88,
        remote_addr: client_addr(),
        remote_port: 89,
    };
    // the connection socket shares the listener's port; moving it elsewhere
    // leaves the port to the listener
    let moved = bind(&mut server, conn_id, 7);
    assert_eq!(moved.local_port, 7);
    assert!(server.ports_alloc[88]);
    assert!(server.ports_alloc[7]);
    // so no other socket can bind it, and the listener stays as it is
    let (other, h) = new_socket(&mut server, server_addr());
    let acts = run(&mut server, TaskMsg::Bind(other, 88));
    assert!(matches!(acts[0], ManagerAction::Reply(x, TaskRet::Bind(Err(-1))) if x == h));
    assert_eq!(contents(&server, &sid).state, SocketState::LISTEN);
    assert_eq!(contents(&server, &sid).backlog_que.as_ref().unwrap().len(), 1);
}

#[test]
fn released_port_is_given_out_again() {
    let mut m = SocketManager::new();
    let (id0, _) = new_socket(&mut m, client_addr());
    let (id1, _) = new_socket(&mut m, client_addr());
    assert_eq!(id0.local_port, 0);
    assert_eq!(id1.local_port, 1);
    assert!(run(&mut m, TaskMsg::Release(id0)).is_empty());
    assert!(!m.ports_alloc[0]);
    assert!(m.ports_alloc[1]);
    let (id2, _) = new_socket(&mut m, client_addr());
    assert_eq!(id2.local_port, 0);
    assert!(m.ports_alloc[0]);
    let (id3, _) = new_socket(&mut m, client_addr());
    assert_eq!(id3.local_port, 2);
}

#[test]
fn closing_the_listener_keeps_a_shared_port() {
    let (mut server, sid, _client, _cid, acts) = listening_server_and_connecting_client(16);
    let syn = sent(&acts).remove(0);
    run(&mut server, TaskMsg::OnReceive(route(syn)));
    let conn_id = SocketID {
        local_addr: server_addr(),
        local_port: 88,
        remote_addr: client_addr(),
        remote_port: 89,
    };
    assert!(run(&mut server, TaskMsg::Close(sid)).is_empty());
    assert!(server.socket_map.get(&sid.to_key()).is_none());
    assert!(server.ports_alloc[88]);
    assert!(run(&mut server, TaskMsg::Release(conn_id)).is_empty());
    assert!(!server.ports_alloc[88]);
}

#[test]
fn close_waits_for_acks() {
    let (mut client, _server, cid, _conn) = connected();
    run(&mut client, TaskMsg::Write(cid, vec![1, 2, 3], 0, 3));
    let next = contents(&client, &cid).send_next;
    assert!(run(&mut client, TaskMsg::Close(cid)).is_empty());
    assert_eq!(contents(&client, &cid).state, SocketState::FIN_WAIT);
    let mut p = TransportPacket::new(88, 89, TransType::ACK, 4096, next, None);
    p.src_addr = server_addr();
    p.dest_addr = client_addr();
    let acts = run(&mut client, TaskMsg::OnReceive(p));
    match &sent(&acts)[0] {
        PacketCmd::FIN(_, s) => assert_eq!(*s, next),
        _ => panic!("expected FIN"),
    }
    assert_eq!(contents(&client, &cid).state, SocketState::FIN_SENT);
}

#[test]
fn fin_from_server_closes_client() {
    let (mut client, mut server, cid, conn) = connected();
    let acts = run(&mut server, TaskMsg::Close(conn));
    assert_eq!(contents(&server, &conn).state, SocketState::FIN_SENT);
    let fin = sent(&acts).remove(0);
    let acts = run(&mut client, TaskMsg::OnReceive(route(fin)));
    assert!(matches!(sent(&acts)[0], PacketCmd::ACK(_, 0, 1)));
    let c = contents(&client, &cid);
    assert_eq!(c.state, SocketState::CLOSED);
    assert!(c.send_buf.is_none());
    assert_eq!(c.send_base, 0);
    assert_eq!(c.send_next, 0);
}

#[test]
fn close_listener_and_release() {
    let (mut server, sid, _client, _cid, _) = listening_server_and_connecting_client(4);
    assert!(run(&mut server, TaskMsg::Close(sid)).is_empty());
    assert!(server.socket_map.get(&sid.to_key()).is_none());
    // closing an unknown socket is fine
    assert!(run(&mut server, TaskMsg::Close(sid)).is_empty());
    let (id, _) = new_socket(&mut server, server_addr());
    assert!(run(&mut server, TaskMsg::Release(id)).is_empty());
    assert!(server.socket_map.get(&id.to_key()).is_none());
    assert!(run(&mut server, TaskMsg::SYNTimeOut).is_empty());
}

#[test]
fn tasks_that_cannot_be_handled() {
    let mut m = SocketManager::new();
    let ghost_id = SocketID::new(client_addr(), 3);
    assert!(!m.can_handle(&TaskMsg::Bind(ghost_id, 1)));
    assert!(!m.can_handle(&TaskMsg::Read(ghost_id, 1)));
    assert!(!m.can_handle(&TaskMsg::Write(ghost_id, vec![1], 0, 1)));
    assert!(m.can_handle(&TaskMsg::Close(ghost_id)));
    let (id, _) = new_socket(&mut m, client_addr());
    // a closed socket has no buffers and no backlog
    assert!(!m.can_handle(&TaskMsg::Accept(id)));
    assert!(!m.can_handle(&TaskMsg::Read(id, 1)));
    assert!(!m.can_handle(&TaskMsg::Write(id, vec![1], 0, 1)));
    // a packet for no socket
    let mut p = TransportPacket::new(1, 2, TransType::DATA, 0, 0, Some(vec![1]));
    p.src_addr = server_addr();
    p.dest_addr = server_addr();
    assert!(!m.can_receive(&p));
}

#[test]
fn write_past_buffer_end_cannot_be_handled() {
    let (client, _server, cid, _conn) = connected();
    assert!(!client.can_handle(&TaskMsg::Write(cid, vec![1, 2, 3], 2, 5)));
    assert!(client.can_handle(&TaskMsg::Write(cid, vec![1, 2, 3], 2, 1)));
    let c = contents(&client, &cid);
    assert!(!client.can_handle(&TaskMsg::SendNow(cid, c.send_next, 1)));
}

#[test]
fn data_in_syn_sent_cannot_be_handled() {
    let (_server, _sid, client, cid, _) = listening_server_and_connecting_client(1);
    let mut p = TransportPacket::new(88, 89, TransType::DATA, 0, 0, Some(vec![1]));
    p.src_addr = server_addr();
    p.dest_addr = client_addr();
    assert!(!client.can_receive(&p));
    let seq = contents(&client, &cid).send_base;
    let mut a = TransportPacket::new(88, 89, TransType::ACK, 0, seq + 2, None);
    a.src_addr = server_addr();
    a.dest_addr = client_addr();
    assert!(!client.can_receive(&a));
}

#[test]
fn sendnow_of_nothing_sends_empty_packet() {
    let (client, _server, cid, _conn) = connected();
    let next = contents(&client, &cid).send_next;
    let acts = client.handle_sendnow(cid, next, 0);
    assert_eq!(acts.len(), 1);
    assert!(matches!(&acts[0], ManagerAction::Send(PacketCmd::DATA(_, s, d)) if *s == next && d.is_empty()));
}

#[test]
fn bind_to_taken_port_fails() {
    let mut m = SocketManager::new();
    let (id1, _) = new_socket(&mut m, client_addr());
    let (id2, h2) = new_socket(&mut m, client_addr());
    let id1b = bind(&mut m, id1, 88);
    let acts = run(&mut m, TaskMsg::Bind(id2, 88));
    assert!(matches!(acts[0], ManagerAction::Reply(x, TaskRet::Bind(Err(-1))) if x == h2));
    assert!(m.socket_map.get(&id2.to_key()).is_some());
    assert!(m.socket_map.get(&id1b.to_key()).is_some());
    assert_eq!(m.socket_map.len(), 2);
    // a socket cannot bind the port it already holds either
    let acts = run(&mut m, TaskMsg::Bind(id1b, 88));
    assert!(matches!(acts[0], ManagerAction::Reply(_, TaskRet::Bind(Err(-1)))));
}

#[test]
fn new_socket_without_free_port_fails() {
    let mut m = SocketManager::new();
    m.ports_alloc = [true; 256];
    assert_eq!(m.new_socket_id(client_addr()), Err(()));
    let acts = run(&mut m, TaskMsg::New(client_addr()));
    assert!(matches!(acts[0], ManagerAction::NewReplyChannel(0)));
    assert!(matches!(acts[1], ManagerAction::Reply(0, TaskRet::New(Err(())))));
    assert!(m.socket_map.is_empty());
    m.ports_alloc[3] = false;
    m.ports_alloc[9] = false;
    assert_eq!(m.new_socket_id(client_addr()), Ok(SocketID::new(client_addr(), 3)));
}

#[test]
fn long_write_reaches_reader_in_order() {
    let (mut client, mut server, cid, conn) = connected();
    let data: Vec<u8> = (0..1000).map(|i| (i * 7 % 256) as u8).collect();
    assert_eq!(transfer(&mut client, &mut server, cid, data.clone()), 1000);
    let sc = contents(&server, &conn);
    assert_eq!(sc.recv_next - sc.recv_base, 1000);
    assert_eq!(read(&mut server, conn, 600), data[..600].to_vec());
    assert_eq!(read(&mut server, conn, 600), data[600..].to_vec());
}

#[test]
fn stale_ack_changes_nothing() {
    let (mut client, mut server, cid, _conn) = connected();
    transfer(&mut client, &mut server, cid, vec![1u8; 10]);
    run(&mut client, TaskMsg::Write(cid, vec![1, 2, 3], 0, 3));
    let c = contents(&client, &cid);
    let (base, next) = (c.send_base, c.send_next);
    let mut p = TransportPacket::new(88, 89, TransType::ACK, 4096, base - 5, None);
    p.src_addr = server_addr();
    p.dest_addr = client_addr();
    assert!(client.can_receive(&p));
    assert!(run(&mut client, TaskMsg::OnReceive(p)).is_empty());
    let c = contents(&client, &cid);
    assert_eq!(c.send_base, base);
    assert_eq!(c.send_next, next);
    assert_eq!(c.send_buf.as_ref().unwrap().len(), 3);
}

#[test]
fn empty_data_packet_is_acknowledged() {
    let (mut client, mut server, cid, conn) = connected();
    let next = contents(&client, &cid).send_next;
    // an empty SendNow, as a write on a full window schedules
    let packets = sent(&client.handle_sendnow(cid, next, 0));
    assert_eq!(packets.len(), 1);
    let p = route(packets[0].clone());
    assert!(p.payload.is_none());
    let expect = contents(&server, &conn).recv_next;
    let acts = run(&mut server, TaskMsg::OnReceive(p));
    match &sent(&acts)[0] {
        PacketCmd::ACK(id, w, s) => {
            assert_eq!(*id, conn);
            assert_eq!(*w, 4096);
            assert_eq!(*s, expect);
        },
        _ => panic!("expected ACK"),
    }
    assert!(contents(&server, &conn).recv_buf.as_ref().unwrap().is_empty());
}
