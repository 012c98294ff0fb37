use rand::Rng;
use std::collections::{HashMap, VecDeque};
use vstd::prelude::*;

use super::packet::{payload_bytes, payload_len, PacketView, TransType, TransportPacket, MAX_PAYLOAD_SIZE};
use super::socket::{key_port, lemma_key_port, port_of_key, Ipv4Addr, SocketID, SocketState};
use super::udp_utils::{PacketCmd, PacketCmdView};

verus! {

broadcast use vstd::std_specs::hash::group_hash_axioms;

/// How many bytes a send or receive buffer can hold.
pub const BUFFER_CAP: u32 = 4096;

/// A connection that a listening socket has set up and not yet handed out:
/// the id of the new socket and the reply channel that reaches it.
#[derive(Clone, Copy, Debug, PartialEq, Eq, Structural)]
pub struct Connection {
    pub id: SocketID,
    pub handle: u64,
}

/// What the manager keeps for one socket: its state, its buffers and its
/// sliding windows.  `ret_handle` names the channel on which the socket's
/// user gets the results of its calls.
pub struct SocketContents {
    pub state: SocketState,
    // we only need one of the bufs
    pub send_buf: Option<VecDeque<u8>>,
    pub recv_buf: Option<VecDeque<u8>>,
    pub ret_handle: u64,
    /// connections waiting to be accepted, for a server socket
    pub backlog_que: Option<VecDeque<Connection>>,
    /// the most connections that may wait in `backlog_que`
    pub backlog: u32,
    // ==== sliding window pos ====
    /// the start of sliding window, the first byte that is not acked
    pub send_base: u32,
    /// the start of range to be filled with new data
    pub send_next: u32,
    /// send window size
    pub send_wind: u32,
    /// the start of bytes to be read by user
    pub recv_base: u32,
    /// the start of bytes to be filled
    pub recv_next: u32,
    /// recv window size
    pub recv_wind: u32,
}

/// A [`SocketContents`] with its buffers as sequences.
pub struct ContentsView {
    pub state: SocketState,
    pub send_buf: Option<Seq<u8>>,
    pub recv_buf: Option<Seq<u8>>,
    pub ret_handle: u64,
    pub backlog_que: Option<Seq<Connection>>,
    pub backlog: u32,
    pub send_base: u32,
    pub send_next: u32,
    pub send_wind: u32,
    pub recv_base: u32,
    pub recv_next: u32,
    pub recv_wind: u32,
}

pub open spec fn opt_seq<T>(o: Option<VecDeque<T>>) -> Option<Seq<T>> {
    match o {
        Some(q) => Some(q@),
        None => None,
    }
}

impl View for SocketContents {
    type V = ContentsView;

    open spec fn view(&self) -> ContentsView {
        ContentsView {
            state: self.state,
            send_buf: opt_seq(self.send_buf),
            recv_buf: opt_seq(self.recv_buf),
            ret_handle: self.ret_handle,
            backlog_que: opt_seq(self.backlog_que),
            backlog: self.backlog,
            send_base: self.send_base,
            send_next: self.send_next,
            send_wind: self.send_wind,
            recv_base: self.recv_base,
            recv_next: self.recv_next,
            recv_wind: self.recv_wind,
        }
    }
}

/// A fresh socket: closed, without buffers, windows of `BUFFER_CAP` bytes.
pub open spec fn fresh_contents(h: u64) -> ContentsView {
    ContentsView {
        state: SocketState::CLOSED,
        send_buf: None,
        recv_buf: None,
        ret_handle: h,
        backlog_que: None,
        backlog: 0,
        send_base: 0,
        send_next: 0,
        send_wind: BUFFER_CAP,
        recv_base: 0,
        recv_next: 0,
        recv_wind: BUFFER_CAP,
    }
}

impl ContentsView {
    /// The send window covers exactly the buffered bytes: `send_buf` holds the
    /// bytes from `send_base` up to `send_next`.
    pub open spec fn send_synced(self) -> bool {
        self.send_buf matches Some(b) && self.send_base <= self.send_next && self.send_next
            - self.send_base == b.len()
    }

    /// A SYN is out and not yet acknowledged: the buffer is empty and the SYN
    /// takes up the one sequence number from `send_base`.
    pub open spec fn syn_pending(self) -> bool {
        self.send_buf matches Some(b) && b.len() == 0 && self.send_next == self.send_base + 1
    }

    /// The windows agree with the buffers.
    pub open spec fn wf(self) -> bool {
        &&& self.send_buf is Some ==> (self.send_synced() || (self.syn_pending() && (self.state
            == SocketState::SYN_SENT || self.state == SocketState::LISTEN)))
        &&& self.send_synced() ==> self.send_buf.unwrap().len() <= self.send_wind
        &&& self.state == SocketState::SYN_SENT ==> self.syn_pending()
        &&& self.recv_buf matches Some(b) ==> {
            &&& self.recv_base <= self.recv_next
            &&& self.recv_next - self.recv_base == b.len()
            &&& b.len() <= self.recv_wind
        }
        &&& self.state == SocketState::LISTEN ==> self.backlog_que is Some
    }
}

impl SocketContents {
    /// A fresh socket whose user is reached on the reply channel `ret_handle`.
    pub fn new(ret_handle: u64) -> (r: Self)
        ensures
            r@ == fresh_contents(ret_handle),
    {
        SocketContents {
            state: SocketState::CLOSED,
            send_buf: None,
            recv_buf: None,
            ret_handle,
            backlog_que: None,
            backlog: 0,
            send_base: 0,
            send_next: 0,
            send_wind: BUFFER_CAP,
            recv_base: 0,
            recv_next: 0,
            recv_wind: BUFFER_CAP,
        }
    }
}

/// Task messages from the socket API, the UDP receiver and the timer to the
/// manager.
#[derive(Debug)]
pub enum TaskMsg {
    // ==== for socket API
    /// (local_addr)
    New(Ipv4Addr),
    /// (sock_id, local_port)
    Bind(SocketID, u8),
    /// (sock_id, backlog)
    Listen(SocketID, u32),
    Accept(SocketID),
    /// (sock_id, dest_addr, dest_port)
    Connect(SocketID, Ipv4Addr, u8),
    /// (sock_id, buf, pos, len)
    Write(SocketID, Vec<u8>, u32, u32),
    /// (sock_id, len)
    Read(SocketID, u32),
    /// (sock_id)
    Close(SocketID),
    Release(SocketID),
    // ==== UDP packets related
    /// a new packet is received
    OnReceive(TransportPacket),
    /// schedule a sending task (sock_id, seq_start, len)
    SendNow(SocketID, u32, u32),
    // ==== for timer callback
    SYNTimeOut,
}

/// A [`TaskMsg`] with its byte buffers as sequences.
pub enum TaskView {
    New(Ipv4Addr),
    Bind(SocketID, u8),
    Listen(SocketID, u32),
    Accept(SocketID),
    Connect(SocketID, Ipv4Addr, u8),
    Write(SocketID, Seq<u8>, u32, u32),
    Read(SocketID, u32),
    Close(SocketID),
    Release(SocketID),
    OnReceive(PacketView),
    SendNow(SocketID, u32, u32),
    SYNTimeOut,
}

impl View for TaskMsg {
    type V = TaskView;

    open spec fn view(&self) -> TaskView {
        match self {
            TaskMsg::New(a) => TaskView::New(*a),
            TaskMsg::Bind(id, p) => TaskView::Bind(*id, *p),
            TaskMsg::Listen(id, b) => TaskView::Listen(*id, *b),
            TaskMsg::Accept(id) => TaskView::Accept(*id),
            TaskMsg::Connect(id, a, p) => TaskView::Connect(*id, *a, *p),
            TaskMsg::Write(id, buf, pos, len) => TaskView::Write(*id, buf@, *pos, *len),
            TaskMsg::Read(id, len) => TaskView::Read(*id, *len),
            TaskMsg::Close(id) => TaskView::Close(*id),
            TaskMsg::Release(id) => TaskView::Release(*id),
            TaskMsg::OnReceive(p) => TaskView::OnReceive(p@),
            TaskMsg::SendNow(id, s, l) => TaskView::SendNow(*id, *s, *l),
            TaskMsg::SYNTimeOut => TaskView::SYNTimeOut,
        }
    }
}

/// Return values of the socket calls.
#[derive(Debug)]
pub enum TaskRet {
    /// the assigned socket ID
    New(Result<SocketID, ()>),
    /// the updated sock ID
    Bind(Result<SocketID, isize>),
    Listen(Result<(), isize>),
    Accept(Result<Connection, isize>),
    /// the updated sock ID
    Connect(Result<SocketID, isize>),
    /// the number of bytes taken
    Write(Result<usize, isize>),
    Read(Result<Vec<u8>, isize>),
}

/// A [`TaskRet`] with the bytes read as a sequence.
pub enum TaskRetView {
    New(Result<SocketID, ()>),
    Bind(Result<SocketID, isize>),
    Listen(Result<(), isize>),
    Accept(Result<Connection, isize>),
    Connect(Result<SocketID, isize>),
    Write(Result<usize, isize>),
    Read(Result<Seq<u8>, isize>),
}

impl View for TaskRet {
    type V = TaskRetView;

    open spec fn view(&self) -> TaskRetView {
        match self {
            TaskRet::New(r) => TaskRetView::New(*r),
            TaskRet::Bind(r) => TaskRetView::Bind(*r),
            TaskRet::Listen(r) => TaskRetView::Listen(*r),
            TaskRet::Accept(r) => TaskRetView::Accept(*r),
            TaskRet::Connect(r) => TaskRetView::Connect(*r),
            TaskRet::Write(r) => TaskRetView::Write(*r),
            TaskRet::Read(r) => TaskRetView::Read(
                match r {
                    Ok(v) => Ok(v@),
                    Err(e) => Err(*e),
                },
            ),
        }
    }
}

/// What the manager asks the world around it to do after a task.
#[derive(Debug)]
pub enum ManagerAction {
    /// Open the reply channel `handle` and hand its receiving end to the
    /// caller that asked for a new socket.
    NewReplyChannel(u64),
    /// Open the reply channel `handle` for a connection that waits to be
    /// accepted; its receiving end goes out with the accepted connection.
    NewConnectionChannel(u64),
    /// Send a return value on the reply channel `handle`.
    Reply(u64, TaskRet),
    /// Hand a packet to the UDP sender.
    Send(PacketCmd),
    /// Put a `SendNow(sock_id, seq_start, len)` task into the task queue.
    ScheduleSendNow(SocketID, u32, u32),
}

/// A [`ManagerAction`] with its buffers as sequences.
pub enum ActionView {
    NewReplyChannel(u64),
    NewConnectionChannel(u64),
    Reply(u64, TaskRetView),
    Send(PacketCmdView),
    ScheduleSendNow(SocketID, u32, u32),
}

impl View for ManagerAction {
    type V = ActionView;

    open spec fn view(&self) -> ActionView {
        match self {
            ManagerAction::NewReplyChannel(h) => ActionView::NewReplyChannel(*h),
            ManagerAction::NewConnectionChannel(h) => ActionView::NewConnectionChannel(*h),
            ManagerAction::Reply(h, r) => ActionView::Reply(*h, r@),
            ManagerAction::Send(c) => ActionView::Send(c@),
            ManagerAction::ScheduleSendNow(id, s, l) => ActionView::ScheduleSendNow(*id, *s, *l),
        }
    }
}

/// The views of a list of actions.
pub open spec fn actions_view(v: Seq<ManagerAction>) -> Seq<ActionView> {
    v.map_values(|a: ManagerAction| a@)
}

/// What the manager holds: the sockets filed by the keys of their ids, the
/// table of allocated ports and the next free reply channel.
pub struct ManagerView {
    pub sockets: Map<u128, ContentsView>,
    pub ports_alloc: Seq<bool>,
    pub next_handle: u64,
}

impl ManagerView {
    /// The table covers every port, each socket's windows agree with its
    /// buffers, and the local port of every filed socket is allocated.
    pub open spec fn wf(self) -> bool {
        &&& self.ports_alloc.len() == 256
        &&& forall|k: u128| #[trigger] self.sockets.contains_key(k) ==> self.sockets[k].wf()
        &&& forall|k: u128| #[trigger] self.sockets.contains_key(k) ==> self.ports_alloc[key_port(k) as int]
    }

    pub open spec fn has(self, id: SocketID) -> bool {
        self.sockets.contains_key(id.key())
    }

    pub open spec fn get(self, id: SocketID) -> ContentsView {
        self.sockets[id.key()]
    }

    pub open spec fn with_sockets(self, sockets: Map<u128, ContentsView>) -> ManagerView {
        ManagerView { sockets, ..self }
    }
}

/// The socket manager: it governs all the sockets.
pub struct SocketManager {
    /// use hashmap to make recv packet mapping quick
    pub socket_map: HashMap<u128, SocketContents>,
    pub ports_alloc: [bool; 256],
    pub next_handle: u64,
}

impl View for SocketManager {
    type V = ManagerView;

    open spec fn view(&self) -> ManagerView {
        ManagerView {
            sockets: self.socket_map@.map_values(|c: SocketContents| c@),
            ports_alloc: self.ports_alloc@,
            next_handle: self.next_handle,
        }
    }
}

/// Some filed socket has the local port `p`.
pub open spec fn port_held(sockets: Map<u128, ContentsView>, p: u8) -> bool {
    exists|k: u128| #[trigger] sockets.contains_key(k) && key_port(k) == p
}

/// The table of ports after a socket that had the local port `p` has left
/// `sockets`: the port is freed unless another socket still has it.
pub open spec fn release_port(ports: Seq<bool>, sockets: Map<u128, ContentsView>, p: u8) -> Seq<bool> {
    if port_held(sockets, p) {
        ports
    } else {
        ports.update(p as int, false)
    }
}

/// The manager after the socket filed under `key`, if any, is dropped, with
/// its port freed when no other socket has it.
pub open spec fn drop_view(s: ManagerView, key: u128) -> ManagerView {
    if s.sockets.contains_key(key) {
        let rest = s.sockets.remove(key);
        ManagerView { sockets: rest, ports_alloc: release_port(s.ports_alloc, rest, key_port(key)), ..s }
    } else {
        s
    }
}

/// The first port from `i` on that is not allocated.
pub open spec fn first_free_port_from(ports: Seq<bool>, i: int) -> Option<u8>
    decreases 256 - i,
{
    if i < 0 || i >= 256 {
        None
    } else if !ports[i] {
        Some(i as u8)
    } else {
        first_free_port_from(ports, i + 1)
    }
}

impl SocketManager {
    /// A manager with no sockets and no allocated ports.
    pub fn new() -> (r: Self)
        ensures
            r@.sockets == Map::<u128, ContentsView>::empty(),
            r@.ports_alloc == Seq::new(256, |i: int| false),
            r@.next_handle == 0,
            r@.wf(),
    {
        let r = SocketManager { socket_map: HashMap::new(), ports_alloc: [false; 256], next_handle: 0 };
        assert(r@.sockets =~= Map::<u128, ContentsView>::empty());
        assert(r@.ports_alloc =~= Seq::new(256, |i: int| false));
        r
    }

    fn take(&mut self, key: u128) -> (c: SocketContents)
        requires
            old(self)@.sockets.contains_key(key),
        ensures
            c@ == old(self)@.sockets[key],
            final(self)@ == old(self)@.with_sockets(old(self)@.sockets.remove(key)),
    {
        let c = self.socket_map.remove(&key);
        assert(self@.sockets =~= old(self)@.sockets.remove(key));
        c.unwrap()
    }

    fn put(&mut self, key: u128, c: SocketContents)
        ensures
            final(self)@ == old(self)@.with_sockets(old(self)@.sockets.insert(key, c@)),
    {
        let ghost cv = c@;
        self.socket_map.insert(key, c);
        assert(self@.sockets =~= old(self)@.sockets.insert(key, cv));
    }

    fn drop_socket(&mut self, key: u128)
        ensures
            final(self)@ == old(self)@.with_sockets(old(self)@.sockets.remove(key)),
    {
        self.socket_map.remove(&key);
        assert(self@.sockets =~= old(self)@.sockets.remove(key));
    }

    /// Whether some filed socket has the local port `p`.
    fn port_in_use(&self, p: u8) -> (r: bool)
        ensures
            r == port_held(self@.sockets, p),
    {
        let mut found = false;
        for k in it: self.socket_map.keys()
            invariant
                it.seq().unref().to_set() == self.socket_map@.dom(),
                forall|j: int| 0 <= j < it.seq().len() ==> self@.sockets.contains_key(#[trigger] it.seq().unref()[j]),
                forall|j: int| #![trigger it.seq()[j]] 0 <= j < it.seq().len() ==> it.seq().unref()[j] == *it.seq()[j],
                forall|q: u128| #[trigger] self@.sockets.contains_key(q) ==> exists|j: int| 0 <= j < it.seq().len() && *it.seq()[j] == q,
                found == (exists|j: int| 0 <= j < it.index() && key_port(*it.seq()[j]) == p),
                it.index() == it.seq().len() ==> found == port_held(self@.sockets, p),
        {
            if port_of_key(*k) == p {
                found = true;
            }
        }
        found
    }

    /// Drops the socket filed under `key`, if any, and frees its port when no
    /// other socket has it.
    fn drop_and_release(&mut self, key: u128)
        requires
            old(self)@.wf(),
        ensures
            final(self)@ == drop_view(old(self)@, key),
            final(self)@.wf(),
    {
        if self.has_key(key) {
            self.drop_socket(key);
            let p = port_of_key(key);
            if !self.port_in_use(p) {
                self.ports_alloc[p as usize] = false;
            }
        }
    }

    fn has_key(&self, key: u128) -> (r: bool)
        ensures
            r == self@.sockets.contains_key(key),
    {
        self.socket_map.contains_key(&key)
    }

    /// Goes over the table of ports and gives the socket on `local_addr` the
    /// first free local port.
    pub fn new_socket_id(&self, local_addr: Ipv4Addr) -> (r: Result<SocketID, ()>)
        ensures
            r == (match first_free_port_from(self@.ports_alloc, 0) {
                Some(p) => Ok(
                    SocketID {
                        local_addr,
                        remote_addr: Ipv4Addr { a: 0, b: 0, c: 0, d: 0 },
                        local_port: p,
                        remote_port: 0,
                    },
                ),
                None => Err(()),
            }),
    {
        let mut port: usize = 0;
        while port < 256
            invariant
                0 <= port <= 256,
                self.ports_alloc@.len() == 256,
                first_free_port_from(self@.ports_alloc, 0) == first_free_port_from(
                    self@.ports_alloc,
                    port as int,
                ),
            decreases 256 - port,
        {
            if self.ports_alloc[port] == false {
                return Ok(SocketID::new(local_addr, port as u8));
            }
            port = port + 1;
        }
        Err(())
    }
}


// ==== what each task does, on the manager's view ====

/// The socket on `addr` whose local port is `port`, not connected.
pub open spec fn unbound_id(addr: Ipv4Addr, port: u8) -> SocketID {
    SocketID {
        local_addr: addr,
        remote_addr: Ipv4Addr { a: 0, b: 0, c: 0, d: 0 },
        local_port: port,
        remote_port: 0,
    }
}

/// `New(addr)`: a reply channel is opened for the caller; the socket gets the
/// first free local port on `addr`, which is marked as allocated, and is filed
/// as a fresh socket, or the caller learns that no port is free.
pub open spec fn spec_new(s: ManagerView, addr: Ipv4Addr) -> (ManagerView, Seq<ActionView>) {
    let h = s.next_handle;
    let s1 = ManagerView { next_handle: (h + 1) as u64, ..s };
    match first_free_port_from(s.ports_alloc, 0) {
        Some(p) => {
            let id = unbound_id(addr, p);
            (
                ManagerView {
                    sockets: s.sockets.insert(id.key(), fresh_contents(h)),
                    ports_alloc: s.ports_alloc.update(p as int, true),
                    ..s1
                },
                seq![
                    ActionView::NewReplyChannel(h),
                    ActionView::Reply(h, TaskRetView::New(Ok(id))),
                ],
            )
        },
        None => (
            s1,
            seq![ActionView::NewReplyChannel(h), ActionView::Reply(h, TaskRetView::New(Err(())))],
        ),
    }
}

/// `Bind(id, port)`: when the port is free the socket is filed again under
/// its id with the new local port, the new port is allocated and the old one
/// freed unless another socket still has it, and the caller gets the new id;
/// when the port is in use the caller gets -1 and nothing changes.
pub open spec fn spec_bind(s: ManagerView, id: SocketID, port: u8) -> (ManagerView, Seq<ActionView>) {
    let c = s.get(id);
    if !s.ports_alloc[port as int] {
        let nid = SocketID { local_port: port, ..id };
        let sockets = s.sockets.remove(id.key()).insert(nid.key(), c);
        (
            ManagerView {
                sockets,
                ports_alloc: release_port(s.ports_alloc, sockets, id.local_port).update(
                    port as int,
                    true,
                ),
                ..s
            },
            seq![ActionView::Reply(c.ret_handle, TaskRetView::Bind(Ok(nid)))],
        )
    } else {
        (s, seq![ActionView::Reply(c.ret_handle, TaskRetView::Bind(Err(-1isize)))])
    }
}

/// `Listen(id, backlog)`: a socket that has no backlog queue yet starts to
/// listen, with an empty queue of at most `backlog` connections; a second
/// call gets -1.
pub open spec fn spec_listen(s: ManagerView, id: SocketID, backlog: u32) -> (ManagerView, Seq<ActionView>) {
    let c = s.get(id);
    if c.backlog_que is Some {
        (s, seq![ActionView::Reply(c.ret_handle, TaskRetView::Listen(Err(-1isize)))])
    } else {
        let c2 = ContentsView {
            state: SocketState::LISTEN,
            backlog_que: Some(Seq::empty()),
            backlog,
            ..c
        };
        (
            s.with_sockets(s.sockets.insert(id.key(), c2)),
            seq![ActionView::Reply(c.ret_handle, TaskRetView::Listen(Ok(())))],
        )
    }
}

/// `Connect(id, addr, port)` with the initial sequence number `seq`: a
/// closed socket sends a SYN from its id with the remote end filled in, is
/// filed under that id, waits for the ACK with an empty send buffer whose
/// window starts at `seq`, and the caller gets the new id.  A socket in any
/// other state stays as it is and the caller gets -1.
pub open spec fn spec_connect(s: ManagerView, id: SocketID, addr: Ipv4Addr, port: u8, seq: u32) -> (ManagerView, Seq<ActionView>) {
    let c = s.get(id);
    if c.state == SocketState::CLOSED {
        let nid = SocketID { remote_addr: addr, remote_port: port, ..id };
        let c2 = ContentsView {
            state: SocketState::SYN_SENT,
            send_buf: Some(Seq::empty()),
            send_base: seq,
            send_next: (seq + 1) as u32,
            ..c
        };
        (
            s.with_sockets(s.sockets.remove(id.key()).insert(nid.key(), c2)),
            seq![
                ActionView::Send(PacketCmdView::SYN(nid, seq)),
                ActionView::Reply(c.ret_handle, TaskRetView::Connect(Ok(nid))),
            ],
        )
    } else {
        (s, seq![ActionView::Reply(c.ret_handle, TaskRetView::Connect(Err(-1isize)))])
    }
}

/// `Accept(id)`: the first connection waiting in the backlog is handed out,
/// or the caller gets 0 when none waits.
pub open spec fn spec_accept(s: ManagerView, id: SocketID) -> (ManagerView, Seq<ActionView>) {
    let c = s.get(id);
    let q = c.backlog_que.unwrap();
    if q.len() > 0 {
        (
            s.with_sockets(
                s.sockets.insert(id.key(), ContentsView { backlog_que: Some(q.drop_first()), ..c }),
            ),
            seq![ActionView::Reply(c.ret_handle, TaskRetView::Accept(Ok(q[0])))],
        )
    } else {
        (s, seq![ActionView::Reply(c.ret_handle, TaskRetView::Accept(Err(0isize)))])
    }
}

/// `Close(id)`: an unknown socket is left alone.  An established sending
/// socket whose data are all acknowledged sends FIN and waits for its ACK
/// (FIN_SENT); with data still unacknowledged it waits for them first
/// (FIN_WAIT).  An established receiving socket sends FIN at once.  Sockets
/// in any other state are dropped, and the port freed when no other socket
/// has it.
pub open spec fn spec_close(s: ManagerView, id: SocketID) -> (ManagerView, Seq<ActionView>) {
    let c = s.get(id);
    if !s.has(id) {
        (s, Seq::empty())
    } else if c.state == SocketState::ESTABLISHED {
        if c.send_buf is Some {
            if c.send_base == c.send_next {
                (
                    s.with_sockets(
                        s.sockets.insert(
                            id.key(),
                            ContentsView { state: SocketState::FIN_SENT, ..c },
                        ),
                    ),
                    seq![ActionView::Send(PacketCmdView::FIN(id, c.send_next))],
                )
            } else {
                (
                    s.with_sockets(
                        s.sockets.insert(
                            id.key(),
                            ContentsView { state: SocketState::FIN_WAIT, ..c },
                        ),
                    ),
                    Seq::empty(),
                )
            }
        } else {
            (
                s.with_sockets(
                    s.sockets.insert(id.key(), ContentsView { state: SocketState::FIN_SENT, ..c }),
                ),
                seq![ActionView::Send(PacketCmdView::FIN(id, c.send_next))],
            )
        }
    } else {
        (drop_view(s, id.key()), Seq::empty())
    }
}

/// `Release(id)`: the socket is dropped at once, and its port freed when no
/// other socket has it.
pub open spec fn spec_release(s: ManagerView, id: SocketID) -> (ManagerView, Seq<ActionView>) {
    (drop_view(s, id.key()), Seq::empty())
}

impl SocketManager {
    /// Handles `New(local_addr)`.
    pub fn handle_new(&mut self, local_addr: Ipv4Addr) -> (r: Vec<ManagerAction>)
        requires
            old(self)@.wf(),
            old(self).next_handle < u64::MAX,
        ensures
            final(self)@.wf(),
            final(self)@ == spec_new(old(self)@, local_addr).0,
            actions_view(r@) == spec_new(old(self)@, local_addr).1,
    {
        let h = self.next_handle;
        self.next_handle = h + 1;
        let mut acts: Vec<ManagerAction> = Vec::new();
        acts.push(ManagerAction::NewReplyChannel(h));
        let sock_content = SocketContents::new(h);
        match self.new_socket_id(local_addr) {
            Ok(sock_id) => {
                acts.push(ManagerAction::Reply(h, TaskRet::New(Ok(sock_id))));
                self.ports_alloc[sock_id.local_port as usize] = true;
                self.put(sock_id.to_key(), sock_content);
            },
            Err(()) => {
                acts.push(ManagerAction::Reply(h, TaskRet::New(Err(()))));
            },
        }
        assert(actions_view(acts@) =~= spec_new(old(self)@, local_addr).1);
        acts
    }

    /// Handles `Bind(id, port)`.
    pub fn handle_bind(&mut self, id: SocketID, port: u8) -> (r: Vec<ManagerAction>)
        requires
            old(self)@.wf(),
            old(self)@.has(id),
        ensures
            final(self)@.wf(),
            final(self)@ == spec_bind(old(self)@, id, port).0,
            actions_view(r@) == spec_bind(old(self)@, id, port).1,
    {
        let mut acts: Vec<ManagerAction> = Vec::new();
        if self.ports_alloc[port as usize] == false {
            let content = self.take(id.to_key());
            let nid = SocketID { local_port: port, ..id };
            acts.push(ManagerAction::Reply(content.ret_handle, TaskRet::Bind(Ok(nid))));
            self.put(nid.to_key(), content);
            if !self.port_in_use(id.local_port) {
                self.ports_alloc[id.local_port as usize] = false;
            }
            self.ports_alloc[port as usize] = true;
            proof {
                lemma_key_port(id);
                lemma_key_port(nid);
                let ghost s2 = spec_bind(old(self)@, id, port).0;
                assert(self@.ports_alloc =~= s2.ports_alloc);
                assert forall|k: u128| #[trigger] s2.sockets.contains_key(k) implies s2.ports_alloc[key_port(k) as int] by {
                    if k != nid.key() && key_port(k) != port {
                        assert(old(self)@.sockets.contains_key(k));
                    }
                }
            }
        } else {
            let content = self.take(id.to_key());
            acts.push(ManagerAction::Reply(content.ret_handle, TaskRet::Bind(Err(-1))));
            self.put(id.to_key(), content);
            assert(self@.sockets =~= old(self)@.sockets);
        }
        assert(actions_view(acts@) =~= spec_bind(old(self)@, id, port).1);
        acts
    }

    /// Handles `Listen(id, backlog)`.
    pub fn handle_listen(&mut self, id: SocketID, backlog: u32) -> (r: Vec<ManagerAction>)
        requires
            old(self)@.wf(),
            old(self)@.has(id),
        ensures
            final(self)@.wf(),
            final(self)@ == spec_listen(old(self)@, id, backlog).0,
            actions_view(r@) == spec_listen(old(self)@, id, backlog).1,
    {
        let mut acts: Vec<ManagerAction> = Vec::new();
        let key = id.to_key();
        let mut sock_content = self.take(key);
        if sock_content.backlog_que.is_some() {
            acts.push(ManagerAction::Reply(sock_content.ret_handle, TaskRet::Listen(Err(-1))));
        } else {
            // switch to ==== LISTEN ==== state
            sock_content.state = SocketState::LISTEN;
            sock_content.backlog_que = Some(VecDeque::new());
            sock_content.backlog = backlog;
            acts.push(ManagerAction::Reply(sock_content.ret_handle, TaskRet::Listen(Ok(()))));
        }
        // must put the entry back to hash map
        self.put(key, sock_content);
        assert(self@.sockets =~= spec_listen(old(self)@, id, backlog).0.sockets);
        assert(actions_view(acts@) =~= spec_listen(old(self)@, id, backlog).1);
        acts
    }

    /// Handles `Connect(id, dest_addr, dest_port)` with the initial sequence
    /// number `seq_num`.
    pub fn handle_connect(&mut self, id: SocketID, dest_addr: Ipv4Addr, dest_port: u8, seq_num: u32) -> (r: Vec<ManagerAction>)
        requires
            old(self)@.wf(),
            old(self)@.has(id),
            seq_num < u32::MAX,
        ensures
            final(self)@.wf(),
            final(self)@ == spec_connect(old(self)@, id, dest_addr, dest_port, seq_num).0,
            actions_view(r@) == spec_connect(old(self)@, id, dest_addr, dest_port, seq_num).1,
    {
        let mut acts: Vec<ManagerAction> = Vec::new();
        let mut sock_content = self.take(id.to_key());
        // check current state.
        if sock_content.state == SocketState::CLOSED {
            let nid = SocketID { remote_addr: dest_addr, remote_port: dest_port, ..id };
            acts.push(ManagerAction::Send(PacketCmd::SYN(nid, seq_num)));
            sock_content.state = SocketState::SYN_SENT;
            sock_content.send_buf = Some(VecDeque::new());
            // set up the window
            sock_content.send_base = seq_num;
            sock_content.send_next = seq_num + 1;
            acts.push(ManagerAction::Reply(sock_content.ret_handle, TaskRet::Connect(Ok(nid))));
            self.put(nid.to_key(), sock_content);
        } else {
            acts.push(ManagerAction::Reply(sock_content.ret_handle, TaskRet::Connect(Err(-1))));
            // must put the entry back to hash map
            self.put(id.to_key(), sock_content);
            assert(self@.sockets =~= old(self)@.sockets);
        }
        assert(actions_view(acts@) =~= spec_connect(old(self)@, id, dest_addr, dest_port, seq_num).1);
        acts
    }

    /// Handles `Accept(id)`.
    pub fn handle_accept(&mut self, id: SocketID) -> (r: Vec<ManagerAction>)
        requires
            old(self)@.wf(),
            old(self)@.has(id),
            old(self)@.get(id).backlog_que is Some,
        ensures
            final(self)@.wf(),
            final(self)@ == spec_accept(old(self)@, id).0,
            actions_view(r@) == spec_accept(old(self)@, id).1,
    {
        let mut acts: Vec<ManagerAction> = Vec::new();
        let key = id.to_key();
        let mut sock_content = self.take(key);
        // pop a incomming connection
        let mut que = sock_content.backlog_que.take().unwrap();
        let new_sock_try = que.pop_front();
        sock_content.backlog_que = Some(que);
        match new_sock_try {
            Some(sock) => {
                acts.push(ManagerAction::Reply(sock_content.ret_handle, TaskRet::Accept(Ok(sock))));
            },
            None => {
                acts.push(ManagerAction::Reply(sock_content.ret_handle, TaskRet::Accept(Err(0))));
            },
        }
        self.put(key, sock_content);
        assert(self@.sockets =~= spec_accept(old(self)@, id).0.sockets);
        assert(actions_view(acts@) =~= spec_accept(old(self)@, id).1);
        acts
    }

    /// Handles `Close(id)`: the socket stays open until all its data are sent.
    pub fn handle_close(&mut self, id: SocketID) -> (r: Vec<ManagerAction>)
        requires
            old(self)@.wf(),
            old(self)@.has(id) && old(self)@.get(id).state == SocketState::ESTABLISHED ==> (
            old(self)@.get(id).send_buf is Some || old(self)@.get(id).recv_buf is Some),
        ensures
            final(self)@.wf(),
            final(self)@ == spec_close(old(self)@, id).0,
            actions_view(r@) == spec_close(old(self)@, id).1,
    {
        let mut acts: Vec<ManagerAction> = Vec::new();
        let key = id.to_key();
        if !self.has_key(key) {
            // it has been closed
            assert(actions_view(acts@) =~= Seq::empty());
            return acts;
        }
        if self.contents(key).state != SocketState::ESTABLISHED {
            // any other state: the socket is dropped
            self.drop_and_release(key);
            assert(actions_view(acts@) =~= Seq::empty());
            return acts;
        }
        let mut sock_content = self.take(key);
        if sock_content.send_buf.is_some() {
            // a sending socket: check whether all data are acked
            if sock_content.send_base == sock_content.send_next {
                // send FIN and get into FIN_SENT
                acts.push(ManagerAction::Send(PacketCmd::FIN(id, sock_content.send_next)));
                sock_content.state = SocketState::FIN_SENT;
            } else {
                // get into FIN_WAIT, wait for retransmission and ack
                sock_content.state = SocketState::FIN_WAIT;
            }
        } else {
            // a receiving socket: send FIN, get into FIN_SENT state.
            acts.push(ManagerAction::Send(PacketCmd::FIN(id, sock_content.send_next)));
            sock_content.state = SocketState::FIN_SENT;
        }
        self.put(key, sock_content);
        assert(self@.sockets =~= spec_close(old(self)@, id).0.sockets);
        assert(actions_view(acts@) =~= spec_close(old(self)@, id).1);
        acts
    }

    /// Handles `Release(id)`: the socket's resources are freed at once.
    pub fn handle_release(&mut self, id: SocketID) -> (r: Vec<ManagerAction>)
        requires
            old(self)@.wf(),
        ensures
            final(self)@.wf(),
            final(self)@ == spec_release(old(self)@, id).0,
            actions_view(r@) == spec_release(old(self)@, id).1,
    {
        self.drop_and_release(id.to_key());
        let acts: Vec<ManagerAction> = Vec::new();
        assert(actions_view(acts@) =~= Seq::empty());
        acts
    }
}


// ==== writing, sending and reading data ====

/// The bytes a write takes: as many of `len` as the send window still has
/// room for.
pub open spec fn write_amount(c: ContentsView, len: u32) -> u32 {
    let room = c.send_base + c.send_wind - c.send_next;
    if room < len {
        room as u32
    } else {
        len
    }
}

/// A write neither overflows the window arithmetic nor reads past `buf`, and
/// the socket sends with its window covering its buffer.
pub open spec fn write_ok(s: ManagerView, id: SocketID, buf: Seq<u8>, pos: u32, len: u32) -> bool {
    let c = s.get(id);
    let tw = write_amount(c, len);
    &&& s.has(id)
    &&& c.send_synced()
    &&& c.send_base + c.send_wind <= u32::MAX
    &&& c.send_next <= c.send_base + c.send_wind
    &&& pos + tw <= u32::MAX
    &&& pos + tw <= buf.len()
}

/// `Write(id, buf, pos, len)`: as many bytes of `buf` from `pos` on as the
/// window has room for (at most `len`) are appended to the send buffer, a
/// `SendNow` task for them is scheduled, and the caller learns how many.
pub open spec fn spec_write(s: ManagerView, id: SocketID, buf: Seq<u8>, pos: u32, len: u32) -> (ManagerView, Seq<ActionView>) {
    let c = s.get(id);
    let tw = write_amount(c, len);
    let c2 = ContentsView {
        send_buf: Some(c.send_buf.unwrap() + buf.subrange(pos as int, pos + tw)),
        send_next: (c.send_next + tw) as u32,
        ..c
    };
    (
        s.with_sockets(s.sockets.insert(id.key(), c2)),
        seq![
            ActionView::ScheduleSendNow(id, c.send_next, tw),
            ActionView::Reply(c.ret_handle, TaskRetView::Write(Ok(tw as usize))),
        ],
    )
}

/// The DATA packets that carry `data` from sequence number `seq` on: one per
/// `MAX_PAYLOAD_SIZE` bytes, the last one holding the rest (an empty packet
/// when there is no data).
pub open spec fn data_segments(id: SocketID, seq: u32, data: Seq<u8>) -> Seq<PacketCmdView>
    decreases data.len(),
{
    if data.len() <= MAX_PAYLOAD_SIZE {
        seq![PacketCmdView::DATA(id, seq, data)]
    } else {
        seq![PacketCmdView::DATA(id, seq, data.take(MAX_PAYLOAD_SIZE as int))] + data_segments(
            id,
            (seq + MAX_PAYLOAD_SIZE) as u32,
            data.skip(MAX_PAYLOAD_SIZE as int),
        )
    }
}

/// The actions that send each of the packets.
pub open spec fn sends(cmds: Seq<PacketCmdView>) -> Seq<ActionView> {
    cmds.map_values(|c: PacketCmdView| ActionView::Send(c))
}

/// The bytes from sequence number `seq` on, `len` of them, are in the send
/// buffer.
pub open spec fn send_now_ok(s: ManagerView, id: SocketID, seq: u32, len: u32) -> bool {
    let c = s.get(id);
    &&& s.has(id)
    &&& c.send_buf is Some
    &&& c.send_base <= seq
    &&& seq - c.send_base + len <= c.send_buf.unwrap().len()
}

/// `SendNow(id, seq, len)`: the `len` buffered bytes from sequence number
/// `seq` on go out in DATA packets; the socket is unchanged.
pub open spec fn spec_send_now(s: ManagerView, id: SocketID, seq: u32, len: u32) -> (ManagerView, Seq<ActionView>) {
    let c = s.get(id);
    let start = seq - c.send_base;
    (s, sends(data_segments(id, seq, c.send_buf.unwrap().subrange(start, start + len))))
}

/// `Read(id, len)`: up to `len` received bytes are taken from the front of
/// the receive buffer and handed to the caller.  When the buffer was full and
/// the read freed room, an ACK advertises the new window, so that a sender
/// stalled by the full window can resume.
pub open spec fn spec_read(s: ManagerView, id: SocketID, len: u32) -> (ManagerView, Seq<ActionView>) {
    let c = s.get(id);
    let b = c.recv_buf.unwrap();
    let avail = c.recv_next - c.recv_base;
    let tr: u32 = if avail < len {
        avail as u32
    } else {
        len
    };
    let c2 = ContentsView {
        recv_buf: Some(b.skip(tr as int)),
        recv_base: (c.recv_base + tr) as u32,
        ..c
    };
    let reply = ActionView::Reply(c.ret_handle, TaskRetView::Read(Ok(b.take(tr as int))));
    (
        s.with_sockets(s.sockets.insert(id.key(), c2)),
        if avail == c.recv_wind && tr > 0 {
            seq![
                reply,
                ActionView::Send(
                    PacketCmdView::ACK(
                        id,
                        (c2.recv_wind - (c2.recv_next - c2.recv_base)) as u32,
                        c.recv_next,
                    ),
                ),
            ]
        } else {
            seq![reply]
        },
    )
}

impl SocketManager {
    fn contents(&self, key: u128) -> (r: &SocketContents)
        requires
            self@.sockets.contains_key(key),
        ensures
            r@ == self@.sockets[key],
    {
        let r = self.socket_map.get(&key);
        r.unwrap()
    }

    /// Handles `Write(id, buf, pos, len)`; this only copies the bytes.
    pub fn handle_write(&mut self, id: SocketID, buf: Vec<u8>, pos: u32, len: u32) -> (r: Vec<ManagerAction>)
        requires
            old(self)@.wf(),
            write_ok(old(self)@, id, buf@, pos, len),
        ensures
            final(self)@.wf(),
            final(self)@ == spec_write(old(self)@, id, buf@, pos, len).0,
            actions_view(r@) == spec_write(old(self)@, id, buf@, pos, len).1,
    {
        let key = id.to_key();
        let mut sock_content = self.take(key);
        let room = sock_content.send_base + sock_content.send_wind - sock_content.send_next;
        let to_write = if room < len {
            room
        } else {
            len
        };
        let mut sb = sock_content.send_buf.take().unwrap();
        let ghost b0 = sb@;
        let end = pos + to_write;
        let mut i = pos;
        while i < end
            invariant
                pos <= i <= end,
                end <= buf@.len(),
                sb@ == b0 + buf@.subrange(pos as int, i as int),
            decreases end - i,
        {
            sb.push_back(buf[i as usize]);
            i = i + 1;
            assert(sb@ =~= b0 + buf@.subrange(pos as int, i as int));
        }
        sock_content.send_buf = Some(sb);
        sock_content.send_next = sock_content.send_next + to_write;
        let mut acts: Vec<ManagerAction> = Vec::new();
        // schedule a sending task
        acts.push(
            ManagerAction::ScheduleSendNow(id, sock_content.send_next - to_write, to_write),
        );
        acts.push(ManagerAction::Reply(sock_content.ret_handle, TaskRet::Write(Ok(to_write as usize))));
        self.put(key, sock_content);
        assert(self@.sockets =~= spec_write(old(self)@, id, buf@, pos, len).0.sockets);
        assert(actions_view(acts@) =~= spec_write(old(self)@, id, buf@, pos, len).1);
        acts
    }

    /// Handles `SendNow(id, seq_num, len)`: sends packets until done.
    pub fn handle_sendnow(&self, id: SocketID, seq_num: u32, len: u32) -> (r: Vec<ManagerAction>)
        requires
            self@.wf(),
            send_now_ok(self@, id, seq_num, len),
        ensures
            actions_view(r@) == spec_send_now(self@, id, seq_num, len).1,
    {
        let sock_content = self.contents(id.to_key());
        let b = sock_content.send_buf.as_ref().unwrap();
        let ghost c = self@.get(id);
        let ghost start0 = seq_num - c.send_base;
        let ghost whole = b@.subrange(start0, start0 + len);
        let mut start: usize = (seq_num - sock_content.send_base) as usize;
        let mut seq = seq_num;
        let mut left = len;
        let mut acts: Vec<ManagerAction> = Vec::new();
        assert(c.send_base + b@.len() <= u32::MAX);
        loop
            invariant_except_break
                actions_view(acts@) + sends(
                    data_segments(id, seq, b@.subrange(start as int, start + left)),
                ) == sends(data_segments(id, seq_num, whole)),
            invariant
                start + left <= b@.len(),
                seq == c.send_base + start,
                c.send_base + b@.len() <= u32::MAX,
            ensures
                actions_view(acts@) == sends(data_segments(id, seq_num, whole)),
            decreases left,
        {
            let to_send: u32 = if left < MAX_PAYLOAD_SIZE as u32 {
                left
            } else {
                MAX_PAYLOAD_SIZE as u32
            };
            let ghost d = b@.subrange(start as int, start + left);
            let mut data: Vec<u8> = Vec::with_capacity(to_send as usize);
            let mut j: usize = 0;
            while j < to_send as usize
                invariant
                    j <= to_send,
                    start + to_send <= b@.len(),
                    b@.len() == b.len(),
                    data@ == b@.subrange(start as int, start + j),
                decreases to_send - j,
            {
                data.push(b[start + j]);
                j = j + 1;
                assert(data@ =~= b@.subrange(start as int, start + j));
            }
            let ghost dv = data@;
            acts.push(ManagerAction::Send(PacketCmd::DATA(id, seq, data)));
            if to_send >= left {
                assert(d.len() <= MAX_PAYLOAD_SIZE);
                assert(dv =~= d);
                assert(sends(data_segments(id, seq, d)) =~= seq![
                    ActionView::Send(PacketCmdView::DATA(id, seq, d)),
                ]);
                break;
            } else {
                let ghost prev = actions_view(acts@).drop_last();
                assert(d.take(MAX_PAYLOAD_SIZE as int) =~= dv);
                assert(d.skip(MAX_PAYLOAD_SIZE as int) =~= b@.subrange(
                    start + MAX_PAYLOAD_SIZE,
                    start + left,
                ));
                let ghost rest = data_segments(
                    id,
                    (seq + MAX_PAYLOAD_SIZE) as u32,
                    d.skip(MAX_PAYLOAD_SIZE as int),
                );
                assert(sends(data_segments(id, seq, d)) =~= seq![
                    ActionView::Send(PacketCmdView::DATA(id, seq, dv)),
                ] + sends(rest));
                left = left - to_send;
                seq = seq + to_send;
                start = start + to_send as usize;
                assert(actions_view(acts@) =~= prev + seq![
                    ActionView::Send(PacketCmdView::DATA(id, (seq - to_send) as u32, dv)),
                ]);
            }
        }
        acts
    }

    /// Handles `Read(id, len)`.
    pub fn handle_read(&mut self, id: SocketID, len: u32) -> (r: Vec<ManagerAction>)
        requires
            old(self)@.wf(),
            old(self)@.has(id),
            old(self)@.get(id).recv_buf is Some,
        ensures
            final(self)@.wf(),
            final(self)@ == spec_read(old(self)@, id, len).0,
            actions_view(r@) == spec_read(old(self)@, id, len).1,
    {
        let key = id.to_key();
        let mut sock_content = self.take(key);
        // derive the byte num to read
        let buf_left = sock_content.recv_next - sock_content.recv_base;
        let to_read: u32 = if buf_left < len {
            buf_left
        } else {
            len
        };
        let mut rb = sock_content.recv_buf.take().unwrap();
        let ghost b0 = rb@;
        let mut buf_read: Vec<u8> = Vec::with_capacity(to_read as usize);
        let mut i: u32 = 0;
        while i < to_read
            invariant
                i <= to_read,
                to_read <= b0.len(),
                buf_read@ == b0.take(i as int),
                rb@ == b0.skip(i as int),
            decreases to_read - i,
        {
            let x = rb.pop_front().unwrap();
            buf_read.push(x);
            i = i + 1;
            assert(buf_read@ =~= b0.take(i as int));
            assert(rb@ =~= b0.skip(i as int));
        }
        sock_content.recv_buf = Some(rb);
        let mut acts: Vec<ManagerAction> = Vec::new();
        acts.push(ManagerAction::Reply(sock_content.ret_handle, TaskRet::Read(Ok(buf_read))));
        // move window
        sock_content.recv_base = sock_content.recv_base + to_read;
        if buf_left == sock_content.recv_wind && to_read > 0 {
            // the full buffer got room again: advertise the new window
            let wind_left = sock_content.recv_wind - (sock_content.recv_next
                - sock_content.recv_base);
            acts.push(ManagerAction::Send(PacketCmd::ACK(id, wind_left, sock_content.recv_next)));
        }
        self.put(key, sock_content);
        assert(self@.sockets =~= spec_read(old(self)@, id, len).0.sockets);
        assert(actions_view(acts@) =~= spec_read(old(self)@, id, len).1);
        acts
    }
}


// ==== received packets ====

/// The id of the socket that a received packet is for: the packet's
/// destination is its local end, its source the remote end.
pub open spec fn packet_sock_id(p: PacketView) -> SocketID {
    SocketID {
        local_addr: p.dest_addr,
        local_port: p.dest_port,
        remote_addr: p.src_addr,
        remote_port: p.src_port,
    }
}

/// Where a received packet goes: to the socket of its own id when there is
/// one, else to the server socket listening on its local end.
pub open spec fn receiver_key(s: ManagerView, p: PacketView) -> u128 {
    let sid = packet_sock_id(p);
    if s.sockets.contains_key(sid.key()) {
        sid.key()
    } else {
        sid.spec_server_id().key()
    }
}

/// The socket that a packet goes to has the packet's destination port.
proof fn lemma_receiver_port(s: ManagerView, p: PacketView)
    ensures
        key_port(receiver_key(s, p)) == packet_sock_id(p).local_port,
{
    lemma_key_port(packet_sock_id(p));
    lemma_key_port(packet_sock_id(p).spec_server_id());
}

/// A received packet leaves every filed socket's port allocated.
pub proof fn lemma_receive_ports(s: ManagerView, p: PacketView)
    requires
        s.wf(),
        receive_ok(s, p),
    ensures
        forall|k: u128| #[trigger] spec_receive(s, p).0.sockets.contains_key(k)
            ==> spec_receive(s, p).0.ports_alloc[key_port(k) as int],
{
    lemma_receiver_port(s, p);
    lemma_key_port(packet_sock_id(p));
    let s2 = spec_receive(s, p).0;
    assert forall|k: u128| #[trigger] s2.sockets.contains_key(k) implies s2.ports_alloc[key_port(k) as int] by {
        if s.sockets.contains_key(k) {
            assert(s.ports_alloc[key_port(k) as int]);
        } else {
            assert(s.sockets.contains_key(receiver_key(s, p)));
        }
    }
}

/// The bytes an in-order DATA packet adds to the receive buffer: as many of
/// its payload bytes as the receive window still has room for.
pub open spec fn recv_amount(c: ContentsView, p: PacketView) -> u32 {
    let left = c.recv_wind - (c.recv_next - c.recv_base);
    let plen = payload_len(p.payload);
    if left < plen {
        left as u32
    } else {
        plen as u32
    }
}

/// A SYN for a listening socket whose backlog has room sets up a connection.
pub open spec fn syn_accepted(c: ContentsView) -> bool {
    c.state == SocketState::LISTEN && c.backlog_que.unwrap().len() < c.backlog
}

/// The packet can be handled: some socket takes it, it comes in a state
/// where it is expected, and the numbers it carries fit the window
/// arithmetic.
pub open spec fn receive_ok(s: ManagerView, p: PacketView) -> bool {
    let k = receiver_key(s, p);
    let c = s.sockets[k];
    let seq = p.seq_num;
    &&& s.sockets.contains_key(k)
    &&& match p.t_type {
        TransType::SYN => syn_accepted(c) ==> seq < u32::MAX && s.next_handle < u64::MAX,
        TransType::ACK => {
            &&& c.state == SocketState::SYN_SENT ==> seq == c.send_base + 1
            &&& c.state == SocketState::ESTABLISHED ==> seq < c.send_base || (c.send_buf is Some
                && seq - c.send_base <= c.send_buf.unwrap().len())
            &&& c.state == SocketState::FIN_WAIT ==> seq == c.send_next || seq < c.send_base || (
            c.send_buf is Some && seq - c.send_base <= c.send_buf.unwrap().len())
        },
        TransType::DATA => {
            &&& c.state == SocketState::ESTABLISHED || c.state == SocketState::FIN_SENT
            &&& c.state == SocketState::ESTABLISHED ==> {
                &&& c.recv_wind + c.recv_base <= u32::MAX
                &&& if seq == c.recv_next {
                    &&& c.recv_buf is Some
                    &&& payload_len(p.payload) <= u32::MAX
                } else {
                    c.recv_next <= c.recv_wind + c.recv_base
                }
            }
        },
        TransType::FIN => {
            &&& c.state == SocketState::ESTABLISHED
            &&& (c.send_buf is Some || c.recv_buf is Some) ==> seq < u32::MAX
        },
    }
}

/// What a received packet does to the socket it is for (see
/// [`receiver_key`]); `sid` is the packet's own id.
///
/// SYN: a listening socket with room in its backlog answers with an ACK of
/// the next sequence number and a full window, and files a new established
/// socket under `sid` whose receive window starts there; the connection
/// waits in the backlog.  Other SYNs are ignored.
///
/// ACK: in SYN_SENT it establishes the connection; in ESTABLISHED and
/// FIN_WAIT it drops the acknowledged bytes from the send buffer and slides
/// the window (a stale ACK below the window changes nothing), and once in FIN_WAIT everything is acknowledged the socket
/// sends FIN (FIN_SENT); in FIN_SENT it ends the connection, dropping the
/// socket filed under `sid` and freeing its port when no other socket has it.
///
/// DATA: an established socket takes an in-order packet's bytes (none when
/// it has no payload) as far as its window has room, and acknowledges with what it expects next and how
/// much room is left; out of order it takes nothing and acknowledges the
/// same way.  In FIN_SENT data are ignored.
///
/// FIN: an established sending socket closes at once, a receiving one
/// shuts down and keeps its data for the user; both acknowledge.
pub open spec fn spec_receive(s: ManagerView, p: PacketView) -> (ManagerView, Seq<ActionView>) {
    let sid = packet_sock_id(p);
    let k = receiver_key(s, p);
    let c = s.sockets[k];
    let seq = p.seq_num;
    match p.t_type {
        TransType::SYN => {
            if syn_accepted(c) {
                let h = s.next_handle;
                let conn = ContentsView {
                    state: SocketState::ESTABLISHED,
                    recv_buf: Some(Seq::empty()),
                    recv_base: (seq + 1) as u32,
                    recv_next: (seq + 1) as u32,
                    ..fresh_contents(h)
                };
                let c2 = ContentsView {
                    backlog_que: Some(c.backlog_que.unwrap().push(Connection { id: sid, handle: h })),
                    ..c
                };
                (
                    ManagerView {
                        sockets: s.sockets.insert(k, c2).insert(sid.key(), conn),
                        next_handle: (h + 1) as u64,
                        ..s
                    },
                    seq![
                        ActionView::Send(PacketCmdView::ACK(sid, BUFFER_CAP, (seq + 1) as u32)),
                        ActionView::NewConnectionChannel(h),
                    ],
                )
            } else {
                (s, Seq::empty())
            }
        },
        TransType::ACK => {
            if c.state == SocketState::SYN_SENT {
                (
                    s.with_sockets(
                        s.sockets.insert(
                            k,
                            ContentsView { state: SocketState::ESTABLISHED, send_base: seq, ..c },
                        ),
                    ),
                    Seq::empty(),
                )
            } else if c.state == SocketState::FIN_WAIT && seq == c.send_next {
                (
                    s.with_sockets(
                        s.sockets.insert(k, ContentsView { state: SocketState::FIN_SENT, ..c }),
                    ),
                    seq![ActionView::Send(PacketCmdView::FIN(sid, c.send_next))],
                )
            } else if (c.state == SocketState::ESTABLISHED || c.state == SocketState::FIN_WAIT)
                && seq < c.send_base {
                (s, Seq::empty())
            } else if c.state == SocketState::ESTABLISHED || c.state == SocketState::FIN_WAIT {
                let b = c.send_buf.unwrap();
                (
                    s.with_sockets(
                        s.sockets.insert(
                            k,
                            ContentsView {
                                send_buf: Some(b.skip(seq - c.send_base)),
                                send_base: seq,
                                ..c
                            },
                        ),
                    ),
                    Seq::empty(),
                )
            } else if c.state == SocketState::FIN_SENT {
                (drop_view(s, sid.key()), Seq::empty())
            } else {
                (s, Seq::empty())
            }
        },
        TransType::DATA => {
            if c.state == SocketState::ESTABLISHED {
                if seq == c.recv_next {
                    let tr = recv_amount(c, p);
                    let next = (c.recv_next + tr) as u32;
                    let c2 = ContentsView {
                        recv_buf: Some(
                            c.recv_buf.unwrap() + payload_bytes(p.payload).take(tr as int),
                        ),
                        recv_next: next,
                        ..c
                    };
                    (
                        s.with_sockets(s.sockets.insert(k, c2)),
                        seq![
                            ActionView::Send(
                                PacketCmdView::ACK(
                                    sid,
                                    (c.recv_wind + c.recv_base - next) as u32,
                                    next,
                                ),
                            ),
                        ],
                    )
                } else {
                    (
                        s,
                        seq![
                            ActionView::Send(
                                PacketCmdView::ACK(
                                    sid,
                                    (c.recv_wind + c.recv_base - c.recv_next) as u32,
                                    c.recv_next,
                                ),
                            ),
                        ],
                    )
                }
            } else {
                (s, Seq::empty())
            }
        },
        TransType::FIN => {
            if c.send_buf is Some {
                (
                    s.with_sockets(
                        s.sockets.insert(
                            k,
                            ContentsView {
                                state: SocketState::CLOSED,
                                send_buf: None,
                                send_base: 0,
                                send_next: 0,
                                ..c
                            },
                        ),
                    ),
                    seq![ActionView::Send(PacketCmdView::ACK(sid, 0, (seq + 1) as u32))],
                )
            } else if c.recv_buf is Some {
                (
                    s.with_sockets(
                        s.sockets.insert(k, ContentsView { state: SocketState::SHUTDOWN, ..c }),
                    ),
                    seq![ActionView::Send(PacketCmdView::ACK(sid, 0, (seq + 1) as u32))],
                )
            } else {
                (s, Seq::empty())
            }
        },
    }
}

/// Drops the first `n` bytes of a buffer.
fn drain_front(buf: &mut VecDeque<u8>, n: usize)
    requires
        n <= old(buf)@.len(),
    ensures
        final(buf)@ == old(buf)@.skip(n as int),
{
    let rest = buf.split_off(n);
    *buf = rest;
    assert(final(buf)@ =~= old(buf)@.skip(n as int));
}

impl SocketManager {
    /// Handles a received packet.  When an ACK comes in, the data in the
    /// send buffer it acknowledges are dropped and the window slides.
    #[verifier::rlimit(50)]
    pub fn handle_receive(&mut self, packet: TransportPacket) -> (r: Vec<ManagerAction>)
        requires
            old(self)@.wf(),
            receive_ok(old(self)@, packet@),
        ensures
            final(self)@.wf(),
            final(self)@ == spec_receive(old(self)@, packet@).0,
            actions_view(r@) == spec_receive(old(self)@, packet@).1,
    {
        let ghost s = old(self)@;
        let ghost p = packet@;
        let sock_id = packet.get_sock_id();
        let key = sock_id.to_key();
        // try normal socket first, then the server socket
        let tk = if self.has_key(key) {
            key
        } else {
            let server_sock_id = SocketID {
                remote_addr: Ipv4Addr::unspecified(),
                remote_port: 0,
                ..sock_id
            };
            server_sock_id.to_key()
        };
        assert(tk == receiver_key(s, p));
        proof {
            lemma_receiver_port(s, p);
        }
        let mut c = self.take(tk);
        let ghost c0 = c@;
        let mut acts: Vec<ManagerAction> = Vec::new();
        let seq = packet.get_seq_num();
        match packet.get_type() {
            TransType::SYN => {
                let accepted = c.state == SocketState::LISTEN && match &c.backlog_que {
                    Some(q) => q.len() < c.backlog as usize,
                    None => false,
                };
                if accepted {
                    // Send ACK for SYN
                    acts.push(ManagerAction::Send(PacketCmd::ACK(sock_id, BUFFER_CAP, seq + 1)));
                    // init a new socket for the incoming connection
                    let h = self.next_handle;
                    self.next_handle = h + 1;
                    acts.push(ManagerAction::NewConnectionChannel(h));
                    let mut new_sock_content = SocketContents::new(h);
                    new_sock_content.state = SocketState::ESTABLISHED;
                    new_sock_content.recv_buf = Some(VecDeque::new());
                    // set up window
                    new_sock_content.recv_base = seq + 1;
                    new_sock_content.recv_next = seq + 1;
                    // the connection waits in the backlog
                    let mut q = c.backlog_que.take().unwrap();
                    q.push_back(Connection { id: sock_id, handle: h });
                    c.backlog_que = Some(q);
                    self.put(tk, c);
                    self.put(key, new_sock_content);
                } else {
                    // SYN arrived at a wrong time, or the backlog is full
                    self.put(tk, c);
                    assert(self@.sockets =~= s.sockets);
                }
            },
            TransType::ACK => {
                if c.state == SocketState::SYN_SENT {
                    // switch to established state, move the window
                    c.state = SocketState::ESTABLISHED;
                    c.send_base = seq;
                    self.put(tk, c);
                } else if c.state == SocketState::FIN_WAIT && seq == c.send_next {
                    // we are good to close now: send FIN, get into FIN_SENT state.
                    acts.push(ManagerAction::Send(PacketCmd::FIN(sock_id, c.send_next)));
                    c.state = SocketState::FIN_SENT;
                    self.put(tk, c);
                } else if (c.state == SocketState::ESTABLISHED || c.state == SocketState::FIN_WAIT)
                    && seq < c.send_base {
                    // a stale ACK: everything it acknowledges was acknowledged before
                    self.put(tk, c);
                    assert(self@.sockets =~= s.sockets);
                } else if c.state == SocketState::ESTABLISHED || c.state == SocketState::FIN_WAIT {
                    // delete acknowledged data in buf, move the window
                    let to_drain = seq - c.send_base;
                    let mut sb = c.send_buf.take().unwrap();
                    drain_front(&mut sb, to_drain as usize);
                    c.send_buf = Some(sb);
                    c.send_base = seq;
                    self.put(tk, c);
                } else if c.state == SocketState::FIN_SENT {
                    // all done, connection is closed.
                    self.put(tk, c);
                    assert(self@.sockets =~= s.sockets);
                    self.drop_and_release(key);
                } else {
                    self.put(tk, c);
                    assert(self@.sockets =~= s.sockets);
                }
            },
            TransType::DATA => {
                if c.state == SocketState::ESTABLISHED {
                    // First, check the seq_num to see whether a packet is lost.
                    if seq == c.recv_next {
                        // copy as many as we can, discard the rest.
                        let buf_left = c.recv_wind - (c.recv_next - c.recv_base);
                        let plen = packet.get_payload_len();
                        let to_recv = if buf_left < plen {
                            buf_left
                        } else {
                            plen
                        };
                        let mut rb = c.recv_buf.take().unwrap();
                        let ghost b0 = rb@;
                        // a packet without payload brings no bytes
                        if let Some(load) = &packet.payload {
                            let mut i: u32 = 0;
                            while i < to_recv
                                invariant
                                    i <= to_recv,
                                    to_recv <= load@.len(),
                                    rb@ == b0 + load@.take(i as int),
                                decreases to_recv - i,
                            {
                                rb.push_back(load[i as usize]);
                                i = i + 1;
                                assert(rb@ =~= b0 + load@.take(i as int));
                            }
                        } else {
                            assert(b0 + payload_bytes(p.payload).take(0) =~= b0);
                        }
                        c.recv_buf = Some(rb);
                        c.recv_next = c.recv_next + to_recv;
                        // send ACK for DATA packet
                        let wind_left = c.recv_wind + c.recv_base - c.recv_next;
                        acts.push(ManagerAction::Send(PacketCmd::ACK(sock_id, wind_left, c.recv_next)));
                        self.put(tk, c);
                    } else {
                        // we do not take that data; send ACK for DATA packet
                        let wind_left = c.recv_wind + c.recv_base - c.recv_next;
                        acts.push(ManagerAction::Send(PacketCmd::ACK(sock_id, wind_left, c.recv_next)));
                        self.put(tk, c);
                        assert(self@.sockets =~= s.sockets);
                    }
                } else {
                    // in FIN_SENT we refuse to provide any service
                    self.put(tk, c);
                    assert(self@.sockets =~= s.sockets);
                }
            },
            TransType::FIN => {
                if c.send_buf.is_some() {
                    // a sending socket: close immediately, the server just hang up.
                    c.state = SocketState::CLOSED;
                    c.send_buf = None;
                    c.send_base = 0;
                    c.send_next = 0;
                    acts.push(ManagerAction::Send(PacketCmd::ACK(sock_id, 0, seq + 1)));
                    self.put(tk, c);
                } else if c.recv_buf.is_some() {
                    // the connection is closed, but user can still read buf.
                    c.state = SocketState::SHUTDOWN;
                    acts.push(ManagerAction::Send(PacketCmd::ACK(sock_id, 0, seq + 1)));
                    self.put(tk, c);
                } else {
                    self.put(tk, c);
                    assert(self@.sockets =~= s.sockets);
                }
            },
        }
        assert(self@.sockets =~= spec_receive(s, p).0.sockets);
        proof {
            lemma_receive_ports(s, p);
        }
        assert(actions_view(acts@) =~= spec_receive(s, p).1);
        acts
    }
}


// ==== one task ====

/// Initial sequence numbers are drawn from `0..INITIAL_SEQ_RANGE`.
pub const INITIAL_SEQ_RANGE: u32 = 2048;

/// What a task does, with `seq` as the initial sequence number that a
/// `Connect` draws.
pub open spec fn spec_task(s: ManagerView, t: TaskView, seq: u32) -> (ManagerView, Seq<ActionView>) {
    match t {
        TaskView::New(a) => spec_new(s, a),
        TaskView::Bind(id, port) => spec_bind(s, id, port),
        TaskView::Listen(id, backlog) => spec_listen(s, id, backlog),
        TaskView::Accept(id) => spec_accept(s, id),
        TaskView::Connect(id, a, port) => spec_connect(s, id, a, port, seq),
        TaskView::Write(id, buf, pos, len) => spec_write(s, id, buf, pos, len),
        TaskView::Read(id, len) => spec_read(s, id, len),
        TaskView::Close(id) => spec_close(s, id),
        TaskView::Release(id) => spec_release(s, id),
        TaskView::OnReceive(p) => spec_receive(s, p),
        TaskView::SendNow(id, seq_start, len) => spec_send_now(s, id, seq_start, len),
        TaskView::SYNTimeOut => (s, Seq::empty()),
    }
}

/// The manager can handle the task without failing: the socket it names
/// exists (a `Close` of an unknown socket is fine), it is in a state where
/// the task makes sense, and the numbers involved fit.
pub open spec fn task_ok(s: ManagerView, t: TaskView) -> bool {
    match t {
        TaskView::New(_) => s.next_handle < u64::MAX,
        TaskView::Bind(id, _) => s.has(id),
        TaskView::Listen(id, _) => s.has(id),
        TaskView::Accept(id) => s.has(id) && s.get(id).backlog_que is Some,
        TaskView::Connect(id, _, _) => s.has(id),
        TaskView::Write(id, buf, pos, len) => write_ok(s, id, buf, pos, len),
        TaskView::Read(id, _) => s.has(id) && s.get(id).recv_buf is Some,
        TaskView::Close(id) => s.has(id) && s.get(id).state == SocketState::ESTABLISHED ==> (
        s.get(id).send_buf is Some || s.get(id).recv_buf is Some),
        TaskView::Release(_) => true,
        TaskView::OnReceive(p) => receive_ok(s, p),
        TaskView::SendNow(id, seq, len) => send_now_ok(s, id, seq, len),
        TaskView::SYNTimeOut => true,
    }
}

/// Calls `rand::thread_rng().gen_range(0..bound)`, which draws a number from
/// `0..bound`.  Which one it draws is left open.
#[verifier::external_body]
fn random_below(bound: u32) -> (r: u32)
    requires
        bound > 0,
    ensures
        r < bound,
{
    rand::thread_rng().gen_range(0..bound)
}

impl SocketManager {
    /// Checks [`task_ok`]: whether the manager can handle `task`.
    pub fn can_handle(&self, task: &TaskMsg) -> (r: bool)
        requires
            self@.wf(),
        ensures
            r == task_ok(self@, task@),
    {
        match task {
            TaskMsg::New(_) => self.next_handle < u64::MAX,
            TaskMsg::Bind(id, _) => self.has_key(id.to_key()),
            TaskMsg::Listen(id, _) => self.has_key(id.to_key()),
            TaskMsg::Accept(id) => {
                let k = id.to_key();
                self.has_key(k) && self.contents(k).backlog_que.is_some()
            },
            TaskMsg::Connect(id, _, _) => self.has_key(id.to_key()),
            TaskMsg::Write(id, buf, pos, len) => {
                let k = id.to_key();
                if !self.has_key(k) {
                    return false;
                }
                let c = self.contents(k);
                let sb_len = match &c.send_buf {
                    Some(b) => b.len() as u64,
                    None => {
                        return false;
                    },
                };
                let base = c.send_base as u64;
                let next = c.send_next as u64;
                let wind = c.send_wind as u64;
                if !(base <= next && next - base == sb_len) {
                    return false;
                }
                if !(base + wind <= u32::MAX as u64 && next <= base + wind) {
                    return false;
                }
                let room = base + wind - next;
                let tw = if room < *len as u64 {
                    room
                } else {
                    *len as u64
                };
                (*pos as u64) + tw <= u32::MAX as u64 && (*pos as u64) + tw <= buf.len() as u64
            },
            TaskMsg::Read(id, _) => {
                let k = id.to_key();
                self.has_key(k) && self.contents(k).recv_buf.is_some()
            },
            TaskMsg::Close(id) => {
                let k = id.to_key();
                if self.has_key(k) {
                    let c = self.contents(k);
                    !(c.state == SocketState::ESTABLISHED) || c.send_buf.is_some()
                        || c.recv_buf.is_some()
                } else {
                    true
                }
            },
            TaskMsg::Release(_) => true,
            TaskMsg::OnReceive(p) => self.can_receive(p),
            TaskMsg::SendNow(id, seq, len) => {
                let k = id.to_key();
                if !self.has_key(k) {
                    return false;
                }
                let c = self.contents(k);
                match &c.send_buf {
                    Some(b) => c.send_base <= *seq && ((*seq - c.send_base) as u64) + (*len as u64)
                        <= b.len() as u64,
                    None => false,
                }
            },
            TaskMsg::SYNTimeOut => true,
        }
    }

    /// Checks [`receive_ok`]: whether the manager can handle a received packet.
    pub fn can_receive(&self, packet: &TransportPacket) -> (r: bool)
        requires
            self@.wf(),
        ensures
            r == receive_ok(self@, packet@),
    {
        let sock_id = packet.get_sock_id();
        let key = sock_id.to_key();
        let tk = if self.has_key(key) {
            key
        } else {
            SocketID { remote_addr: Ipv4Addr::unspecified(), remote_port: 0, ..sock_id }.to_key()
        };
        if !self.has_key(tk) {
            return false;
        }
        let c = self.contents(tk);
        let seq = packet.seq_num;
        match packet.t_type {
            TransType::SYN => {
                let accepted = c.state == SocketState::LISTEN && match &c.backlog_que {
                    Some(q) => q.len() < c.backlog as usize,
                    None => false,
                };
                !accepted || (seq < u32::MAX && self.next_handle < u64::MAX)
            },
            TransType::ACK => {
                let sb_len = match &c.send_buf {
                    Some(b) => Some(b.len() as u64),
                    None => None,
                };
                if c.state == SocketState::SYN_SENT {
                    seq as u64 == c.send_base as u64 + 1
                } else if c.state == SocketState::ESTABLISHED {
                    seq < c.send_base || match sb_len {
                        Some(n) => ((seq - c.send_base) as u64) <= n,
                        None => false,
                    }
                } else if c.state == SocketState::FIN_WAIT {
                    seq == c.send_next || seq < c.send_base || match sb_len {
                        Some(n) => ((seq - c.send_base) as u64) <= n,
                        None => false,
                    }
                } else {
                    true
                }
            },
            TransType::DATA => {
                if c.state == SocketState::FIN_SENT {
                    true
                } else if c.state == SocketState::ESTABLISHED {
                    let top = c.recv_wind as u64 + c.recv_base as u64;
                    if top > u32::MAX as u64 {
                        false
                    } else if seq == c.recv_next {
                        c.recv_buf.is_some() && match &packet.payload {
                            Some(load) => load.len() as u64 <= u32::MAX as u64,
                            None => true,
                        }
                    } else {
                        c.recv_next as u64 <= top
                    }
                } else {
                    false
                }
            },
            TransType::FIN => {
                c.state == SocketState::ESTABLISHED && (!(c.send_buf.is_some()
                    || c.recv_buf.is_some()) || seq < u32::MAX)
            },
        }
    }

    /// Handles one task, as the manager's task loop does for each task it
    /// takes from its queue.  A `Connect` draws its initial sequence number
    /// at random from `0..INITIAL_SEQ_RANGE`.
    pub fn handle_task(&mut self, task: TaskMsg) -> (r: Vec<ManagerAction>)
        requires
            old(self)@.wf(),
            task_ok(old(self)@, task@),
        ensures
            final(self)@.wf(),
            !(task@ is Connect) ==> final(self)@ == spec_task(old(self)@, task@, 0).0
                && actions_view(r@) == spec_task(old(self)@, task@, 0).1,
            task@ is Connect ==> exists|seq: u32|
                #![trigger spec_task(old(self)@, task@, seq)]
                seq < INITIAL_SEQ_RANGE && final(self)@ == spec_task(old(self)@, task@, seq).0
                    && actions_view(r@) == spec_task(old(self)@, task@, seq).1,
    {
        match task {
            TaskMsg::New(local_addr) => self.handle_new(local_addr),
            TaskMsg::Bind(id, port) => self.handle_bind(id, port),
            TaskMsg::Listen(id, backlog) => self.handle_listen(id, backlog),
            TaskMsg::Connect(id, dest_addr, dest_port) => {
                let seq_num = random_below(INITIAL_SEQ_RANGE);
                let r = self.handle_connect(id, dest_addr, dest_port, seq_num);
                assert(spec_task(old(self)@, task@, seq_num).0 == final(self)@);
                r
            },
            TaskMsg::Accept(id) => self.handle_accept(id),
            TaskMsg::Write(id, buf, pos, len) => self.handle_write(id, buf, pos, len),
            TaskMsg::Read(id, len) => self.handle_read(id, len),
            TaskMsg::Close(id) => self.handle_close(id),
            TaskMsg::Release(id) => self.handle_release(id),
            TaskMsg::SendNow(id, seq_num, len) => self.handle_sendnow(id, seq_num, len),
            TaskMsg::OnReceive(packet) => self.handle_receive(packet),
            TaskMsg::SYNTimeOut => {
                let acts: Vec<ManagerAction> = Vec::new();
                assert(actions_view(acts@) =~= Seq::empty());
                acts
            },
        }
    }
}

} // verus!
