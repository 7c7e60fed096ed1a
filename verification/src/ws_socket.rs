//! The sockets of the relay transport and the multiplexer that fans one
//! shared connection out into them.
//!
//! A direct socket wraps the transport one-to-one for sessions with exactly
//! one peer.  A virtual socket stands for one logical peer link on the
//! shared connection; the multiplexer owns the address table, the private
//! inbound queue of every virtual socket, and the shared outbound queue.
//! Socket identity is a creation-order integer, never the peer identifier,
//! so two sockets for the same peer made at different times stay distinct.

use vstd::prelude::*;
use vstd::slice::slice_to_vec;
use crate::commands::{decode_command, encode_command, Command, CommandView, command_text};
use crate::frames::{assemble_frame, bytes_eq, split_frame, Frame, FrameView, TransportEvent,
    PUBKEY_BYTES_LEN};
use crate::model::{
    binary_post, command_post, create_post, disconnect_post, forward_post, has_id, has_peer,
    id_at, initial_mux, payload_of, peer_at, peer_of, read_post, reject_post, send_post,
    stopped_socket, BinaryDispatchView, EntryView, HandledMsgView, MuxView, ReadStepView,
    SubSocketView,
};
use crate::queues::{byte_queue_new, byte_queue_push, byte_queue_try_pop, byte_queue_view,
    frame_queue_new, frame_queue_push, frame_queue_try_pop, frame_queue_view, ByteQueue,
    FrameQueue};

verus! {

broadcast use vstd::seq_lib::group_seq_properties;

/// The one failure a socket read reports: the connection behind the socket
/// is gone.
#[derive(Debug, PartialEq, Eq)]
pub enum SocketError {
    ConnectionFailed,
}

/// A direct, non-multiplexed socket: the transport carries exactly this one
/// peer, so frames need no address prefix.  The socket itself holds only
/// its identity; the transport stays with the caller, who forwards what
/// [`Self::send_data`] assembles and feeds [`Self::read`] what arrived.
#[derive(Clone, Copy, Debug, Hash, PartialEq, Eq, Structural)]
pub struct WsTcpSocketDescriptor {
    id: u64,
}

impl WsTcpSocketDescriptor {
    /// A direct socket under the given creation identity.
    pub fn new(id: u64) -> (r: Self)
        ensures
            r.spec_id() == id,
    {
        WsTcpSocketDescriptor { id }
    }

    /// The creation identity; equality and hashing go by it alone.
    pub closed spec fn spec_id(&self) -> u64 {
        self.id
    }

    /// The creation identity, for callers outside the proof.
    pub fn id(&self) -> (r: u64)
        ensures
            r == self.spec_id(),
    {
        self.id
    }

    /// The compute half of a send: the binary frame the transport is to
    /// carry, unprefixed, and the byte count the socket reports.  A direct
    /// send is fire-and-forget and never fails.
    pub fn send_data(&self, data: &Vec<u8>) -> (r: (Frame, usize))
        ensures
            r.0@ == crate::frames::FrameView::Binary(data@),
            r.1 == data@.len(),
    {
        let n: usize = data.len();
        (Frame::Binary(slice_to_vec(data.as_slice())), n)
    }

    /// The compute half of a read: what one transport event means to this
    /// socket.  Bytes come through; text on the direct socket is ignored;
    /// a transport failure is the connection failing.
    pub fn read(&self, event: TransportEvent) -> (r: Option<Result<Vec<u8>, SocketError>>)
        ensures
            ({
                match event {
                    TransportEvent::Frame(Frame::Binary(b)) => r matches Some(Ok(out))
                        && out@ == b@,
                    TransportEvent::Frame(Frame::Text(_)) => r is None,
                    TransportEvent::Failed => r == Some(
                        Err::<Vec<u8>, SocketError>(SocketError::ConnectionFailed),
                    ),
                    TransportEvent::Quiet => r is None,
                }
            }),
    {
        match event {
            TransportEvent::Frame(Frame::Binary(b)) => Some(Ok(b)),
            TransportEvent::Frame(Frame::Text(_)) => None,
            TransportEvent::Failed => Some(Err(SocketError::ConnectionFailed)),
            TransportEvent::Quiet => None,
        }
    }
}

/// A virtual socket: one logical peer link on the shared connection.  The
/// value here is the handle the peer manager holds — identity, the two peer
/// identifiers, and a stop mark; its inbound queue lives in the
/// multiplexer's address table, which keeps the authoritative copy of this
/// handle.
#[derive(Debug, Hash)]
pub struct SubWsSocketDescriptor {
    id: u64,
    peer_pubkey_bytes: Vec<u8>,
    our_pubkey_bytes: Vec<u8>,
    stopped: bool,
}

impl View for SubWsSocketDescriptor {
    type V = SubSocketView;

    closed spec fn view(&self) -> SubSocketView {
        SubSocketView {
            id: self.id,
            peer: self.peer_pubkey_bytes@,
            our: self.our_pubkey_bytes@,
            stopped: self.stopped,
        }
    }
}

impl SubWsSocketDescriptor {
    /// A virtual socket under the given creation identity, not yet stopped.
    pub fn new(id: u64, peer_pubkey_bytes: Vec<u8>, our_pubkey_bytes: Vec<u8>) -> (r: Self)
        ensures
            r@ == (SubSocketView {
                id: id,
                peer: peer_pubkey_bytes@,
                our: our_pubkey_bytes@,
                stopped: false,
            }),
    {
        SubWsSocketDescriptor { id, peer_pubkey_bytes, our_pubkey_bytes, stopped: false }
    }

    /// Mark the socket stopped; reads through a stopped handle fail.
    pub fn stop_reading(&mut self)
        ensures
            final(self)@ == stopped_socket(old(self)@),
    {
        self.stopped = true;
    }

    /// The creation identity, for callers outside the proof.
    pub fn id(&self) -> (r: u64)
        ensures
            r == self@.id,
    {
        self.id
    }

    /// The identifier of the remote peer this socket reaches.
    pub fn peer_pubkey(&self) -> (r: &Vec<u8>)
        ensures
            r@ == self@.peer,
    {
        &self.peer_pubkey_bytes
    }

    /// The identifier this side goes by on this link.
    pub fn our_pubkey(&self) -> (r: &Vec<u8>)
        ensures
            r@ == self@.our,
    {
        &self.our_pubkey_bytes
    }

    /// Whether this handle has seen the stop mark.
    pub fn is_stopped(&self) -> (r: bool)
        ensures
            r == self@.stopped,
    {
        self.stopped
    }
}

impl Clone for SubWsSocketDescriptor {
    /// A duplicate handle: same identity, same peers, same stop mark.
    fn clone(&self) -> (r: Self)
        ensures
            r@ == self@,
    {
        SubWsSocketDescriptor {
            id: self.id,
            peer_pubkey_bytes: slice_to_vec(self.peer_pubkey_bytes.as_slice()),
            our_pubkey_bytes: slice_to_vec(self.our_pubkey_bytes.as_slice()),
            stopped: self.stopped,
        }
    }
}

impl PartialEq for SubWsSocketDescriptor {
    /// Sockets compare by creation identity alone, never by peer, so two
    /// sockets for the same peer made at different times are distinct.
    fn eq(&self, other: &Self) -> (r: bool) {
        self.id == other.id
    }
}

impl vstd::std_specs::cmp::PartialEqSpecImpl for SubWsSocketDescriptor {
    open spec fn obeys_eq_spec() -> bool {
        true
    }

    open spec fn eq_spec(&self, other: &Self) -> bool {
        self@.id == other@.id
    }
}

/// What one non-blocking read attempt on a virtual socket produced.  The
/// peer manager polls; on `Pending` it sleeps a short fixed interval and
/// polls again.
#[derive(Debug)]
pub enum ReadStep {
    /// The socket is stopped or gone; the peer manager must give it up.
    Failed,
    /// The oldest queued payload.
    Data(Vec<u8>),
    /// Nothing queued yet.
    Pending,
}

impl View for ReadStep {
    type V = ReadStepView;

    open spec fn view(&self) -> ReadStepView {
        match self {
            ReadStep::Failed => ReadStepView::Failed,
            ReadStep::Data(data) => ReadStepView::Data(data@),
            ReadStep::Pending => ReadStepView::Pending,
        }
    }
}

/// What the dispatch of one binary frame produced.
pub enum BinaryDispatch {
    /// The frame was too short to carry an address and was dropped.
    Dropped,
    /// The payload went to the queue of an already registered socket.
    Routed,
    /// A socket was created and registered for an unseen peer; the payload
    /// waits for the peer manager's verdict on that socket.
    NewPeer(SubWsSocketDescriptor, Vec<u8>),
}

impl View for BinaryDispatch {
    type V = BinaryDispatchView;

    open spec fn view(&self) -> BinaryDispatchView {
        match self {
            BinaryDispatch::Dropped => BinaryDispatchView::Dropped,
            BinaryDispatch::Routed => BinaryDispatchView::Routed,
            BinaryDispatch::NewPeer(socket, payload) => BinaryDispatchView::NewPeer(
                socket@,
                payload@,
            ),
        }
    }
}

/// The view of an optionally returned socket handle.
pub open spec fn opt_socket_view(r: Option<SubWsSocketDescriptor>) -> Option<SubSocketView> {
    match r {
        Some(socket) => Some(socket@),
        None => None,
    }
}

/// What one cycle of the dispatch loop brought, when it brought no frame.
pub enum ListenEvent {
    /// The transport failed; the loop must end.
    Failed,
    /// A read that yielded nothing.
    Quiet,
    /// The fixed timeout tick raced the read and won.
    Tick,
}

/// One row of the address table: the authoritative copy of a virtual
/// socket's handle and its private inbound queue.
struct SocketEntry {
    socket: SubWsSocketDescriptor,
    inbound: ByteQueue,
}

impl View for SocketEntry {
    type V = EntryView;

    closed spec fn view(&self) -> EntryView {
        EntryView { socket: self.socket@, inbound: byte_queue_view(self.inbound) }
    }
}

/// The multiplexer: owner of the address table, the shared outbound queue,
/// and the session flags.  One of these stands for one shared relay
/// connection; the loops that pump the transport drive it from outside,
/// one frame or one tick at a time.
pub struct MultiWsSocketDescriptor {
    entries: Vec<SocketEntry>,
    outbound: FrameQueue,
    our_peer_pubkey: Vec<u8>,
    next_id: u64,
    attached: bool,
    connected: bool,
    stop: bool,
}

impl View for MultiWsSocketDescriptor {
    type V = MuxView;

    closed spec fn view(&self) -> MuxView {
        MuxView {
            entries: self.entries@.map_values(|e: SocketEntry| e@),
            outbound: frame_queue_view(self.outbound),
            our: self.our_peer_pubkey@,
            next_id: self.next_id,
            attached: self.attached,
            connected: self.connected,
            stop: self.stop,
        }
    }
}

impl MultiWsSocketDescriptor {
    /// A multiplexer for a session this side identifies itself on as
    /// `our_peer_pubkey`: empty table, nothing queued, no transport yet.
    pub fn new(our_peer_pubkey: Vec<u8>) -> (r: Self)
        ensures
            r@ == initial_mux(our_peer_pubkey@),
            r@.wf(),
    {
        let r = MultiWsSocketDescriptor {
            entries: Vec::new(),
            outbound: frame_queue_new(),
            our_peer_pubkey,
            next_id: 0,
            attached: false,
            connected: false,
            stop: false,
        };
        proof {
            assert(r@ =~= initial_mux(r.our_peer_pubkey@));
        }
        r
    }

    /// Whether the installed transport is live.
    pub fn connected(&self) -> (r: bool)
        ensures
            r == self@.connected,
    {
        self.connected
    }

    /// The creation identity the next socket would take.  Callers that
    /// cannot reason about the identity budget test this against the
    /// largest identity before asking for a socket.
    pub fn next_socket_id(&self) -> (r: u64)
        ensures
            r == self@.next_id,
    {
        self.next_id
    }

    /// The index of the table entry registered for `peer`, if any.
    fn index_of_peer(&self, peer: &Vec<u8>) -> (r: Option<usize>)
        ensures
            r matches Some(i) ==> peer_at(self@, peer@, i as int),
            r is None ==> !has_peer(self@, peer@),
    {
        let mut i: usize = 0;
        while i < self.entries.len()
            invariant
                i <= self.entries.len(),
                forall|j: int| 0 <= j < i ==> self@.entries[j].socket.peer != peer@,
            decreases self.entries.len() - i,
        {
            if bytes_eq(self.entries[i].socket.peer_pubkey(), peer) {
                return Some(i);
            }
            i = i + 1;
        }
        None
    }

    /// The index of the table entry whose socket carries identity `id`, if
    /// any.
    fn index_of_id(&self, id: u64) -> (r: Option<usize>)
        ensures
            r matches Some(i) ==> id_at(self@, id, i as int),
            r is None ==> !has_id(self@, id),
    {
        let mut i: usize = 0;
        while i < self.entries.len()
            invariant
                i <= self.entries.len(),
                forall|j: int| 0 <= j < i ==> self@.entries[j].socket.id != id,
            decreases self.entries.len() - i,
        {
            if self.entries[i].socket.id() == id {
                return Some(i);
            }
            i = i + 1;
        }
        None
    }

    /// Ask the session to stop; the dispatch loop exits at its next tick.
    pub fn stop(&mut self)
        ensures
            final(self)@ == (MuxView { stop: true, ..old(self)@ }),
    {
        self.stop = true;
    }

    /// Send a keep-alive ping towards the relay if a transport is attached;
    /// a no-op before the first connect.
    pub fn attempt_keep_alive(&mut self)
        ensures
            old(self)@.attached ==> final(self)@ == (MuxView {
                outbound: old(self)@.outbound.push(
                    FrameView::Text(command_text(CommandView::Ping)),
                ),
                ..old(self)@
            }),
            !old(self)@.attached ==> final(self)@ == old(self)@,
    {
        if self.attached {
            let text = encode_command(&Command::Ping);
            frame_queue_push(&mut self.outbound, Frame::Text(text));
        }
    }

    /// The oldest frame waiting for the transport, if any: one step of the
    /// outbound pump loop.
    pub fn next_outbound(&mut self) -> (r: Option<Frame>)
        ensures
            old(self)@.outbound.len() == 0 ==> r is None && final(self)@ == old(self)@,
            old(self)@.outbound.len() > 0 ==> {
                &&& r matches Some(f) && f@ == old(self)@.outbound[0]
                &&& final(self)@ == (MuxView {
                    outbound: old(self)@.outbound.drop_first(),
                    ..old(self)@
                })
            },
    {
        frame_queue_try_pop(&mut self.outbound)
    }

    /// The dispatch loop's decision for one cycle that brought no frame:
    /// whether to keep listening.  A transport failure ends the loop, as
    /// does a timeout tick once the session stop flag is set; leaving the
    /// loop marks the connection dead.  The table is left untouched.
    pub fn listen_step(&mut self, event: ListenEvent) -> (r: bool)
        ensures
            r == (event is Quiet || (event is Tick && !old(self)@.stop)),
            r ==> final(self)@ == old(self)@,
            !r ==> final(self)@ == (MuxView { connected: false, ..old(self)@ }),
    {
        match event {
            ListenEvent::Quiet => true,
            ListenEvent::Failed => {
                self.connected = false;
                false
            },
            ListenEvent::Tick => {
                if self.stop {
                    self.connected = false;
                    false
                } else {
                    true
                }
            },
        }
    }

    /// Forward a raw payload to the socket registered for `peer`: it joins
    /// that socket's private inbound queue.  With no entry for `peer` the
    /// payload is dropped and the result says so.
    pub fn forward_to_subsocket(&mut self, peer: &Vec<u8>, payload: Vec<u8>) -> (r: bool)
        requires
            old(self)@.wf(),
        ensures
            final(self)@.wf(),
            forward_post(old(self)@, peer@, payload@, r, final(self)@),
    {
        let ghost pre = self@;
        let ghost pl = payload@;
        match self.index_of_peer(peer) {
            Some(i) => {
                let entry = &mut self.entries[i];
                byte_queue_push(&mut entry.inbound, payload);
                proof {
                    let post_entry = EntryView {
                        inbound: pre.entries[i as int].inbound.push(pl),
                        ..pre.entries[i as int]
                    };
                    assert(self@.entries =~= pre.entries.update(i as int, post_entry));
                    assert(self@ =~= (MuxView {
                        entries: pre.entries.update(i as int, post_entry),
                        ..pre
                    }));
                    assert forall|k: int| #[trigger] peer_at(pre, peer@, k) implies self@
                        == (MuxView {
                        entries: pre.entries.update(
                            k,
                            EntryView { inbound: pre.entries[k].inbound.push(pl), ..pre.entries[k] },
                        ),
                        ..pre
                    }) by {
                        assert(k == i as int);
                    }
                    crate::model::lemma_wf_same_identities(pre, self@);
                }
                true
            },
            None => false,
        }
    }

    /// Tear one logical peer link down, as the peer manager asks: queue a
    /// disconnect command for the relay and mark the socket stopped.
    /// Idempotent — a second call for the same socket moves nothing — and a
    /// no-op for a socket the table no longer knows.
    pub fn disconnect_socket(&mut self, socket: &SubWsSocketDescriptor)
        requires
            old(self)@.wf(),
        ensures
            final(self)@.wf(),
            disconnect_post(old(self)@, socket@.id, final(self)@),
    {
        let ghost pre = self@;
        match self.index_of_id(socket.id()) {
            None => (),
            Some(i) => {
                if !self.entries[i].socket.is_stopped() {
                    let to = slice_to_vec(self.entries[i].socket.peer_pubkey().as_slice());
                    let from = slice_to_vec(self.entries[i].socket.our_pubkey().as_slice());
                    let text = encode_command(&Command::Disconnect { to, from });
                    frame_queue_push(&mut self.outbound, Frame::Text(text));
                    let entry = &mut self.entries[i];
                    entry.socket.stop_reading();
                    proof {
                        let post_entry = EntryView {
                            socket: stopped_socket(pre.entries[i as int].socket),
                            ..pre.entries[i as int]
                        };
                        assert(self@.entries =~= pre.entries.update(i as int, post_entry));
                        assert(self@ =~= (MuxView {
                            entries: pre.entries.update(i as int, post_entry),
                            outbound: pre.outbound.push(
                                crate::model::disconnect_text(pre.entries[i as int].socket),
                            ),
                            ..pre
                        }));
                        crate::model::lemma_wf_same_identities(pre, self@);
                    }
                }
                proof {
                    assert forall|k: int| #[trigger] id_at(pre, socket@.id, k) implies k
                        == i as int by {
                        if k != i as int {
                            assert(pre.entries[k].socket.id != pre.entries[i as int].socket.id);
                        }
                    }
                }
            },
        }
    }

    /// Send peer payload through a virtual socket: on a live socket the
    /// payload, prefixed with the peer identifier, joins the shared
    /// outbound queue and the payload's length comes back; on a stopped or
    /// removed socket nothing is sent and the count is zero.  Never blocks,
    /// never fails loudly.
    pub fn send_data(&mut self, socket: &SubWsSocketDescriptor, data: &Vec<u8>) -> (r: usize)
        requires
            old(self)@.wf(),
        ensures
            final(self)@.wf(),
            send_post(old(self)@, socket@.id, data@, r as nat, final(self)@),
    {
        let ghost pre = self@;
        match self.index_of_id(socket.id()) {
            None => 0,
            Some(i) => {
                proof {
                    assert forall|k: int| #[trigger] id_at(pre, socket@.id, k) implies k
                        == i as int by {
                        if k != i as int {
                            assert(pre.entries[k].socket.id != pre.entries[i as int].socket.id);
                        }
                    }
                }
                if self.entries[i].socket.is_stopped() {
                    0
                } else {
                    let framed = assemble_frame(self.entries[i].socket.peer_pubkey(), data);
                    frame_queue_push(&mut self.outbound, Frame::Binary(framed));
                    proof {
                        assert(self@ =~= (MuxView {
                            outbound: pre.outbound.push(
                                FrameView::Binary(pre.entries[i as int].socket.peer + data@),
                            ),
                            ..pre
                        }));
                        crate::model::lemma_wf_same_identities(pre, self@);
                    }
                    data.len()
                }
            },
        }
    }

    /// One non-blocking read attempt on a virtual socket, polled by the
    /// peer manager: a stopped or removed socket fails, else the oldest
    /// queued payload comes out, or nothing has arrived yet.
    pub fn try_read(&mut self, socket: &SubWsSocketDescriptor) -> (r: ReadStep)
        requires
            old(self)@.wf(),
        ensures
            final(self)@.wf(),
            read_post(old(self)@, socket@.id, r@, final(self)@),
    {
        let ghost pre = self@;
        match self.index_of_id(socket.id()) {
            None => ReadStep::Failed,
            Some(i) => {
                proof {
                    assert forall|k: int| #[trigger] id_at(pre, socket@.id, k) implies k
                        == i as int by {
                        if k != i as int {
                            assert(pre.entries[k].socket.id != pre.entries[i as int].socket.id);
                        }
                    }
                }
                if self.entries[i].socket.is_stopped() {
                    ReadStep::Failed
                } else {
                    let entry = &mut self.entries[i];
                    let popped = byte_queue_try_pop(&mut entry.inbound);
                    proof {
                        let post_entry = EntryView {
                            inbound: pre.entries[i as int].inbound.drop_first(),
                            ..pre.entries[i as int]
                        };
                        if pre.entries[i as int].inbound.len() == 0 {
                            assert(self@.entries =~= pre.entries);
                            assert(self@ =~= pre);
                        } else {
                            assert(self@.entries =~= pre.entries.update(i as int, post_entry));
                            assert(self@ =~= (MuxView {
                                entries: pre.entries.update(i as int, post_entry),
                                ..pre
                            }));
                        }
                        crate::model::lemma_wf_same_identities(pre, self@);
                    }
                    match popped {
                        Some(data) => ReadStep::Data(data),
                        None => ReadStep::Pending,
                    }
                }
            },
        }
    }

    /// Dispatch one text frame: a command from the relay.  A disconnect
    /// command for a known peer stops that socket, drops its table entry,
    /// and hands the stopped socket back so the peer manager can be told.
    /// Malformed text, inbound pings, and disconnects for unknown peers are
    /// dropped without effect.
    pub fn handle_command(&mut self, text: &str) -> (r: Option<SubWsSocketDescriptor>)
        requires
            old(self)@.wf(),
        ensures
            final(self)@.wf(),
            command_post(old(self)@, text@, opt_socket_view(r), final(self)@),
    {
        let ghost pre = self@;
        match decode_command(text) {
            None => None,  // not a command; dropped, non-fatal
            Some(Command::Ping) => None,  // keep-alives flow outbound only
            Some(Command::Disconnect { to: _to, from }) => {
                match self.index_of_peer(&from) {
                    None => None,  // unknown peer; nothing to tear down
                    Some(i) => {
                        let mut entry = self.entries.remove(i);
                        entry.socket.stop_reading();
                        proof {
                            assert(self@.entries =~= pre.entries.remove(i as int));
                            assert(self@ =~= (MuxView {
                                entries: pre.entries.remove(i as int),
                                ..pre
                            }));
                            assert forall|k: int| #[trigger] peer_at(pre, from@, k) implies k
                                == i as int by {
                                if k != i as int {
                                    assert(pre.entries[k].socket.peer
                                        != pre.entries[i as int].socket.peer);
                                }
                            }
                            crate::model::lemma_wf_remove(pre, i as int, self@);
                        }
                        Some(entry.socket)
                    },
                }
            },
        }
    }

    /// Dispatch the body of one binary frame: peer traffic addressed by its
    /// leading peer identifier.  Undersized frames are dropped; payloads
    /// for registered peers join their sockets' queues; an unseen peer gets
    /// a fresh registered socket, reported with the payload still pending
    /// the peer manager's verdict.
    pub fn handle_binary(&mut self, msg: Vec<u8>) -> (r: BinaryDispatch)
        requires
            old(self)@.wf(),
            old(self)@.next_id < u64::MAX,
        ensures
            final(self)@.wf(),
            binary_post(old(self)@, msg@, r@, final(self)@),
    {
        let ghost pre = self@;
        match split_frame(&msg) {
            None => BinaryDispatch::Dropped,
            Some((id_bytes, payload)) => {
                match self.index_of_peer(&id_bytes) {
                    Some(_) => {
                        let _routed = self.forward_to_subsocket(&id_bytes, payload);
                        BinaryDispatch::Routed
                    },
                    None => {
                        let socket = create_new_subsocket(self, id_bytes);
                        BinaryDispatch::NewPeer(socket, payload)
                    },
                }
            },
        }
    }

    /// Unwind a just-created inbound socket the peer manager refused:
    /// disconnect it, drop its table entry, and hand back the stopped
    /// socket so the peer manager can be told it is gone.
    pub fn reject_inbound(&mut self, peer: &Vec<u8>) -> (r: Option<SubWsSocketDescriptor>)
        requires
            old(self)@.wf(),
        ensures
            final(self)@.wf(),
            reject_post(old(self)@, peer@, opt_socket_view(r), final(self)@),
    {
        let ghost pre = self@;
        match self.index_of_peer(peer) {
            None => None,
            Some(i) => {
                if !self.entries[i].socket.is_stopped() {
                    let to = slice_to_vec(self.entries[i].socket.peer_pubkey().as_slice());
                    let from = slice_to_vec(self.entries[i].socket.our_pubkey().as_slice());
                    let text = encode_command(&Command::Disconnect { to, from });
                    frame_queue_push(&mut self.outbound, Frame::Text(text));
                }
                let mut entry = self.entries.remove(i);
                entry.socket.stop_reading();
                proof {
                    assert(self@.entries =~= pre.entries.remove(i as int));
                    if pre.entries[i as int].socket.stopped {
                        assert(self@ =~= (MuxView {
                            entries: pre.entries.remove(i as int),
                            ..pre
                        }));
                    } else {
                        assert(self@ =~= (MuxView {
                            entries: pre.entries.remove(i as int),
                            outbound: pre.outbound.push(
                                crate::model::disconnect_text(pre.entries[i as int].socket),
                            ),
                            ..pre
                        }));
                    }
                    assert forall|k: int| #[trigger] peer_at(pre, peer@, k) implies k
                        == i as int by {
                        if k != i as int {
                            assert(pre.entries[k].socket.peer
                                != pre.entries[i as int].socket.peer);
                        }
                    }
                    crate::model::lemma_wf_remove(pre, i as int, self@);
                }
                Some(entry.socket)
            },
        }
    }

    /// Handle one inbound frame from the shared connection, consulting the
    /// peer manager where a verdict is its to give.  Text frames are
    /// control commands; binary frames are addressed peer traffic.  The
    /// result says which of the five things happened — and the contract
    /// pins the state change of each: dropped without effect; payload
    /// routed to a registered socket; a peer link torn down at the relay's
    /// word, the peer manager told; a fresh inbound socket registered and
    /// accepted, the payload first in its queue; or the fresh socket
    /// refused and fully unwound.
    pub fn handle_incoming_msg<P: PeerManager>(
        &mut self,
        peer_manager: &mut P,
        msg: Frame,
    ) -> (r: HandledMsg)
        requires
            old(self)@.wf(),
            old(self)@.next_id < u64::MAX,
        ensures
            final(self)@.wf(),
            crate::model::handled_post(old(self)@, msg@, r@, final(self)@),
    {
        let ghost pre = self@;
        let ghost mv = msg@;
        match msg {
            Frame::Text(text) => {
                match self.handle_command(text.as_str()) {
                    Some(socket) => {
                        proof {
                            assert(crate::model::handled_post(
                                pre,
                                mv,
                                HandledMsgView::PeerDisconnected(socket@),
                                self@,
                            ));
                        }
                        peer_manager.socket_disconnected(&socket);
                        HandledMsg::PeerDisconnected(socket)
                    },
                    None => {
                        proof {
                            assert(crate::model::handled_post(
                                pre,
                                mv,
                                HandledMsgView::Ignored,
                                self@,
                            ));
                        }
                        HandledMsg::Ignored
                    },
                }
            },
            Frame::Binary(bytes) => {
                let ghost bv = bytes@;
                match self.handle_binary(bytes) {
                    BinaryDispatch::Dropped => HandledMsg::Ignored,
                    BinaryDispatch::Routed => HandledMsg::Routed,
                    BinaryDispatch::NewPeer(socket, payload) => {
                        let ghost mid = self@;
                        proof {
                            assert(peer_at(mid, socket@.peer, mid.entries.len() - 1));
                        }
                        let accepted = peer_manager.new_inbound_connection(
                            socket.clone(),
                        ).is_ok();
                        if accepted {
                            let _routed = self.forward_to_subsocket(socket.peer_pubkey(), payload);
                            proof {
                                assert(mv == FrameView::Binary(bv));
                                let last: int = mid.entries.len() - 1;
                                assert forall|k: int| #[trigger] peer_at(mid, socket@.peer, k)
                                    implies k == last by {
                                    if k != last {
                                        assert(mid.entries[k].socket.peer
                                            != mid.entries[last].socket.peer);
                                    }
                                }
                                assert(self@.entries =~= pre.entries.push(
                                    EntryView {
                                        socket: crate::model::fresh_socket(pre, peer_of(bv)),
                                        inbound: seq![payload_of(bv)],
                                    },
                                ));
                                assert(self@ =~= (MuxView {
                                    entries: pre.entries.push(
                                        EntryView {
                                            socket: crate::model::fresh_socket(pre, peer_of(bv)),
                                            inbound: seq![payload_of(bv)],
                                        },
                                    ),
                                    next_id: (pre.next_id + 1) as u64,
                                    ..pre
                                }));
                                assert(crate::model::handled_post(
                                    pre,
                                    mv,
                                    HandledMsgView::NewInbound(socket@),
                                    self@,
                                ));
                            }
                            HandledMsg::NewInbound(socket)
                        } else {
                            let gone = self.reject_inbound(socket.peer_pubkey());
                            proof {
                                assert forall|k: int| #[trigger] peer_at(mid, socket@.peer, k)
                                    implies k == mid.entries.len() - 1 by {
                                    if k != mid.entries.len() - 1 {
                                        assert(mid.entries[k].socket.peer != mid.entries[
                                            mid.entries.len() - 1
                                        ].socket.peer);
                                    }
                                }
                                assert(opt_socket_view(gone) == Some(stopped_socket(socket@)));
                                assert(mv == FrameView::Binary(bv));
                                assert(self@.entries =~= pre.entries);
                                assert(self@ =~= (MuxView {
                                    outbound: pre.outbound.push(
                                        crate::model::disconnect_text(
                                            crate::model::fresh_socket(pre, peer_of(bv)),
                                        ),
                                    ),
                                    next_id: (pre.next_id + 1) as u64,
                                    ..pre
                                }));
                                assert(crate::model::handled_post(
                                    pre,
                                    mv,
                                    HandledMsgView::InboundRejected,
                                    self@,
                                ));
                            }
                            match gone {
                                Some(stopped) => peer_manager.socket_disconnected(&stopped),
                                None => (),
                            }
                            HandledMsg::InboundRejected
                        }
                    },
                }
            },
        }
    }

    /// Install a (new) transport: the step the caller takes right before
    /// spawning the dispatch and pump loops.  Every entry still in the
    /// table is stale — it belongs to the connection that went away — so
    /// each is disconnected and dropped, and comes back in `stale`, exactly
    /// once and in table order, for the peer manager to be told.  The
    /// transport counts as attached (write-once) and live from here on.
    pub fn connect(&mut self) -> (stale: Vec<SubWsSocketDescriptor>)
        requires
            old(self)@.wf(),
        ensures
            final(self)@.wf(),
            crate::model::connect_post(
                old(self)@,
                stale@.map_values(|s: SubWsSocketDescriptor| s@),
                final(self)@,
            ),
    {
        let ghost pre = self@;
        let mut stale: Vec<SubWsSocketDescriptor> = Vec::new();
        proof {
            assert(pre.entries.skip(0) =~= pre.entries);
            assert(pre.entries.take(0) =~= Seq::<EntryView>::empty());
            assert(pre.outbound + crate::model::disconnect_texts(pre.entries.take(0))
                =~= pre.outbound);
        }
        while self.entries.len() > 0
            invariant
                stale@.len() <= pre.entries.len(),
                self@.entries == pre.entries.skip(stale@.len() as int),
                self@.outbound == pre.outbound + crate::model::disconnect_texts(
                    pre.entries.take(stale@.len() as int),
                ),
                self@.our == pre.our,
                self@.next_id == pre.next_id,
                self@.attached == pre.attached,
                self@.connected == pre.connected,
                self@.stop == pre.stop,
                forall|j: int| 0 <= j < stale@.len() ==> #[trigger] stale@[j]@ == stopped_socket(
                    pre.entries[j].socket,
                ),
            decreases self.entries.len(),
        {
            let ghost n = stale@.len() as int;
            proof {
                vstd::seq_lib::lemma_seq_skip_len(pre.entries, n);
                assert(self@.entries.len() == pre.entries.len() - n);
                assert(n < pre.entries.len());
                vstd::seq_lib::lemma_seq_skip_index(pre.entries, n, 0);
                assert(self@.entries[0] == pre.entries[n]);
            }
            let mut entry = self.entries.remove(0);
            if !entry.socket.is_stopped() {
                let to = slice_to_vec(entry.socket.peer_pubkey().as_slice());
                let from = slice_to_vec(entry.socket.our_pubkey().as_slice());
                let text = encode_command(&Command::Disconnect { to, from });
                frame_queue_push(&mut self.outbound, Frame::Text(text));
            }
            entry.socket.stop_reading();
            stale.push(entry.socket);
            proof {
                assert(self@.entries =~= pre.entries.skip(n + 1));
                assert(pre.entries.take(n + 1) =~= pre.entries.take(n).push(pre.entries[n]));
                crate::model::lemma_disconnect_texts_push(pre.entries.take(n), pre.entries[n]);
                assert(self@.outbound =~= pre.outbound + crate::model::disconnect_texts(
                    pre.entries.take(n + 1),
                ));
            }
        }
        self.attached = true;
        self.connected = true;
        proof {
            assert(pre.entries.take(stale@.len() as int) =~= pre.entries);
            assert(self@ =~= (MuxView {
                entries: Seq::empty(),
                outbound: pre.outbound + crate::model::disconnect_texts(pre.entries),
                attached: true,
                connected: true,
                ..pre
            }));
        }
        stale
    }

    /// Install a (new) transport and tell the peer manager of every stale
    /// socket, each exactly once: [`Self::connect`] with the notifications
    /// delivered rather than handed back.
    pub fn connect_with<P: PeerManager>(&mut self, peer_manager: &mut P)
        requires
            old(self)@.wf(),
        ensures
            final(self)@.wf(),
            crate::model::connect_post(
                old(self)@,
                crate::model::stale_sockets(old(self)@),
                final(self)@,
            ),
    {
        let ghost pre = self@;
        let stale = self.connect();
        proof {
            assert(stale@.map_values(|s: SubWsSocketDescriptor| s@) =~= crate::model::stale_sockets(
                pre,
            ));
        }
        let mut i: usize = 0;
        while i < stale.len()
            decreases stale@.len() - i,
        {
            peer_manager.socket_disconnected(&stale[i]);
            i = i + 1;
        }
    }

    /// Build and register a virtual socket for an outbound-initiated
    /// connection to `id`.
    pub fn create_new_subsocket(&mut self, id: Vec<u8>) -> (r: SubWsSocketDescriptor)
        requires
            old(self)@.wf(),
            old(self)@.next_id < u64::MAX,
            id@.len() == PUBKEY_BYTES_LEN,
        ensures
            final(self)@.wf(),
            create_post(old(self)@, id@, r@, final(self)@),
    {
        create_new_subsocket(self, id)
    }
}

/// The narrow capability consumed from the peer-connection manager: take a
/// fresh inbound socket, or learn that a socket is gone.  The protocol
/// engine behind it lives outside this crate and nothing is assumed of what
/// these calls do; the multiplexer's contracts hold for every answer.
pub trait PeerManager {
    /// Offer a fresh inbound socket; an error refuses the peer.
    fn new_inbound_connection(&mut self, socket: SubWsSocketDescriptor) -> Result<(), ()>;

    /// Learn that a socket will never carry traffic again.  Owed exactly
    /// once for every socket that was registered.
    fn socket_disconnected(&mut self, socket: &SubWsSocketDescriptor);
}

/// What handling one inbound frame amounted to — and what the caller owes:
/// on `NewInbound`, start polling that socket's reads.
pub enum HandledMsg {
    /// Nothing to do: malformed text, an inbound ping, a disconnect for an
    /// unknown peer, or an undersized binary frame.
    Ignored,
    /// Peer payload joined an existing socket's inbound queue.
    Routed,
    /// The relay tore a peer link down; the peer manager has been told.
    PeerDisconnected(SubWsSocketDescriptor),
    /// A fresh inbound socket was accepted by the peer manager, and the
    /// frame's payload is the first thing in its queue.
    NewInbound(SubWsSocketDescriptor),
    /// The peer manager refused the fresh socket; it was unwound and the
    /// peer manager told it is gone.
    InboundRejected,
}

impl View for HandledMsg {
    type V = HandledMsgView;

    open spec fn view(&self) -> HandledMsgView {
        match self {
            HandledMsg::Ignored => HandledMsgView::Ignored,
            HandledMsg::Routed => HandledMsgView::Routed,
            HandledMsg::PeerDisconnected(socket) => HandledMsgView::PeerDisconnected(socket@),
            HandledMsg::NewInbound(socket) => HandledMsgView::NewInbound(socket@),
            HandledMsg::InboundRejected => HandledMsgView::InboundRejected,
        }
    }
}

/// Build a virtual socket for `peer_pubkey`, give it the next creation
/// identity and a fresh empty inbound queue, and register it in the address
/// table; a stale entry for the same peer is replaced.
pub fn create_new_subsocket(
    mux: &mut MultiWsSocketDescriptor,
    peer_pubkey: Vec<u8>,
) -> (r: SubWsSocketDescriptor)
    requires
        old(mux)@.wf(),
        old(mux)@.next_id < u64::MAX,
        peer_pubkey@.len() == PUBKEY_BYTES_LEN,
    ensures
        final(mux)@.wf(),
        create_post(old(mux)@, peer_pubkey@, r@, final(mux)@),
{
    let ghost pre = mux@;
    let idx = mux.index_of_peer(&peer_pubkey);
    let id: u64 = mux.next_id;
    let our = slice_to_vec(mux.our_peer_pubkey.as_slice());
    let socket = SubWsSocketDescriptor::new(id, peer_pubkey, our);
    let entry = SocketEntry { socket: socket.clone(), inbound: byte_queue_new() };
    let ghost entry_view = entry@;
    mux.next_id = id + 1;
    match idx {
        Some(i) => {
            mux.entries.remove(i);
            mux.entries.insert(i, entry);
            proof {
                assert(mux@.entries =~= pre.entries.update(i as int, entry_view));
                assert forall|k: int| #[trigger] peer_at(pre, socket@.peer, k) implies mux@.entries
                    == pre.entries.update(k, entry_view) by {
                    assert(k == i);
                }
            }
        },
        None => {
            mux.entries.push(entry);
            proof {
                assert(mux@.entries =~= pre.entries.push(entry_view));
            }
        },
    }
    proof {
        assert(create_post(pre, socket@.peer, socket@, mux@));
        crate::model::lemma_create_preserves_wf(pre, socket@.peer, socket@, mux@);
    }
    socket
}

} // verus!
