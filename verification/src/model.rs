//! Mathematical model of the multiplexer.
//!
//! Every state-changing operation of the multiplexer has its meaning written
//! once, here, as a relation between the state before and the state after.
//! The executable operations promise exactly these relations in their
//! `ensures`, and the laws in [`crate::laws`] are proved from the relations
//! alone.

use vstd::prelude::*;
use crate::commands::{command_text, CommandView};
use crate::frames::{FrameView, PUBKEY_BYTES_LEN};

verus! {

/// Model of one virtual socket: its creation identity, the two peer
/// identifiers it speaks for, and whether it has been told to stop.
#[verifier::ext_equal]
pub struct SubSocketView {
    /// Creation-order integer; the sole carrier of equality and hashing.
    pub id: u64,
    /// Identifier of the remote peer this socket reaches.
    pub peer: Seq<u8>,
    /// Identifier this side goes by.
    pub our: Seq<u8>,
    /// Set once the socket is disconnected; never cleared.
    pub stopped: bool,
}

/// Model of one address-table entry: the registered socket and its private
/// inbound queue, oldest payload first.
#[verifier::ext_equal]
pub struct EntryView {
    pub socket: SubSocketView,
    pub inbound: Seq<Seq<u8>>,
}

/// Model of the whole multiplexer.
#[verifier::ext_equal]
pub struct MuxView {
    /// The address table, in registration order; at most one entry per peer.
    pub entries: Seq<EntryView>,
    /// The shared outbound queue, oldest frame first.
    pub outbound: Seq<FrameView>,
    /// Identifier this side goes by.
    pub our: Seq<u8>,
    /// The next creation identity to hand out.
    pub next_id: u64,
    /// Whether a transport has ever been installed; never cleared.
    pub attached: bool,
    /// Whether the installed transport is live.
    pub connected: bool,
    /// Cooperative shutdown flag of the session.
    pub stop: bool,
}

impl MuxView {
    /// The invariants of the address table: one entry per peer, identities
    /// unique and below the counter, every entry speaking for this side,
    /// every peer identifier of full length.
    pub open spec fn wf(self) -> bool {
        &&& forall|i: int, j: int|
            #![trigger self.entries[i].socket, self.entries[j].socket]
            0 <= i < self.entries.len() && 0 <= j < self.entries.len() && i != j ==> {
                &&& self.entries[i].socket.id != self.entries[j].socket.id
                &&& self.entries[i].socket.peer != self.entries[j].socket.peer
            }
        &&& forall|i: int| #![trigger self.entries[i]] 0 <= i < self.entries.len() ==> {
                &&& self.entries[i].socket.id < self.next_id
                &&& self.entries[i].socket.our == self.our
                &&& self.entries[i].socket.peer.len() == PUBKEY_BYTES_LEN
            }
    }
}

/// The table has an entry for `peer` at index `i`.
pub open spec fn peer_at(m: MuxView, peer: Seq<u8>, i: int) -> bool {
    0 <= i < m.entries.len() && m.entries[i].socket.peer == peer
}

/// The table has an entry for `peer`.
pub open spec fn has_peer(m: MuxView, peer: Seq<u8>) -> bool {
    exists|i: int| peer_at(m, peer, i)
}

/// The table has an entry whose socket carries identity `id`, at index `i`.
pub open spec fn id_at(m: MuxView, id: u64, i: int) -> bool {
    0 <= i < m.entries.len() && m.entries[i].socket.id == id
}

/// The table has an entry whose socket carries identity `id`.
pub open spec fn has_id(m: MuxView, id: u64) -> bool {
    exists|i: int| id_at(m, id, i)
}

/// The socket as it stands once told to stop.
pub open spec fn stopped_socket(s: SubSocketView) -> SubSocketView {
    SubSocketView { stopped: true, ..s }
}

/// The disconnect command a socket sends for its own peer link.
pub open spec fn disconnect_command(s: SubSocketView) -> CommandView {
    CommandView::Disconnect { to: s.peer, from: s.our }
}

/// The text frame carrying a socket's disconnect command.
pub open spec fn disconnect_text(s: SubSocketView) -> FrameView {
    FrameView::Text(command_text(disconnect_command(s)))
}

/// A freshly created multiplexer: empty table, empty outbound queue, no
/// transport attached, counter at zero.
pub open spec fn initial_mux(our: Seq<u8>) -> MuxView {
    MuxView {
        entries: Seq::empty(),
        outbound: Seq::empty(),
        our: our,
        next_id: 0,
        attached: false,
        connected: false,
        stop: false,
    }
}

/// Creating and registering a virtual socket for `peer`: the socket takes
/// the next identity and an empty inbound queue; an existing entry for the
/// same peer is replaced, else the entry is appended.  Nothing else moves.
pub open spec fn create_post(
    pre: MuxView,
    peer: Seq<u8>,
    s: SubSocketView,
    post: MuxView,
) -> bool {
    &&& s == (SubSocketView { id: pre.next_id, peer: peer, our: pre.our, stopped: false })
    &&& post.next_id == pre.next_id + 1
    &&& post == (MuxView { entries: post.entries, next_id: post.next_id, ..pre })
    &&& (!has_peer(pre, peer) ==> post.entries == pre.entries.push(
        EntryView { socket: s, inbound: Seq::empty() },
    ))
    &&& forall|i: int| #[trigger] peer_at(pre, peer, i) ==> post.entries == pre.entries.update(
        i,
        EntryView { socket: s, inbound: Seq::empty() },
    )
}

/// Creating and registering a socket keeps the table well-formed: the fresh
/// identity is above every identity in the table, and the peer slot it
/// takes is either new or the one entry that already spoke for that peer.
pub proof fn lemma_create_preserves_wf(
    pre: MuxView,
    peer: Seq<u8>,
    s: SubSocketView,
    post: MuxView,
)
    requires
        pre.wf(),
        peer.len() == PUBKEY_BYTES_LEN,
        create_post(pre, peer, s, post),
    ensures
        post.wf(),
{
    let e = EntryView { socket: s, inbound: Seq::empty() };
    let newi: int = if has_peer(pre, peer) {
        choose|i: int| peer_at(pre, peer, i)
    } else {
        pre.entries.len() as int
    };
    if has_peer(pre, peer) {
        assert(peer_at(pre, peer, newi));
        assert(post.entries == pre.entries.update(newi, e));
    } else {
        assert(post.entries == pre.entries.push(e));
    }
    assert forall|k: int| #![trigger post.entries[k]]
        0 <= k < post.entries.len() implies {
        &&& post.entries[k].socket.id < post.next_id
        &&& post.entries[k].socket.our == post.our
        &&& post.entries[k].socket.peer.len() == PUBKEY_BYTES_LEN
    } by {
        if k != newi {
            assert(post.entries[k] == pre.entries[k]);
        }
    }
    assert forall|k: int, l: int|
        #![trigger post.entries[k].socket, post.entries[l].socket]
        0 <= k < post.entries.len() && 0 <= l < post.entries.len() && k != l implies {
        &&& post.entries[k].socket.id != post.entries[l].socket.id
        &&& post.entries[k].socket.peer != post.entries[l].socket.peer
    } by {
        if k == newi && 0 <= l < pre.entries.len() {
            assert(post.entries[l] == pre.entries[l]);
            assert(!peer_at(pre, peer, l) ==> pre.entries[l].socket.peer != peer);
        } else if l == newi && 0 <= k < pre.entries.len() {
            assert(post.entries[k] == pre.entries[k]);
            assert(!peer_at(pre, peer, k) ==> pre.entries[k].socket.peer != peer);
        } else {
            assert(post.entries[k] == pre.entries[k]);
            assert(post.entries[l] == pre.entries[l]);
        }
    }
}

/// Well-formedness cares only about each socket's identity, peer and side:
/// a state whose entries keep those three (queues and stop marks free to
/// differ) is well-formed too.
pub proof fn lemma_wf_same_identities(a: MuxView, b: MuxView)
    requires
        a.wf(),
        b.next_id == a.next_id,
        b.our == a.our,
        b.entries.len() == a.entries.len(),
        forall|i: int| #![trigger b.entries[i]] 0 <= i < a.entries.len() ==> {
            &&& b.entries[i].socket.id == a.entries[i].socket.id
            &&& b.entries[i].socket.peer == a.entries[i].socket.peer
            &&& b.entries[i].socket.our == a.entries[i].socket.our
        },
    ensures
        b.wf(),
{
    assert forall|k: int, l: int|
        #![trigger b.entries[k].socket, b.entries[l].socket]
        0 <= k < b.entries.len() && 0 <= l < b.entries.len() && k != l implies {
        &&& b.entries[k].socket.id != b.entries[l].socket.id
        &&& b.entries[k].socket.peer != b.entries[l].socket.peer
    } by {
        assert(a.entries[k].socket.id != a.entries[l].socket.id);
    }
    assert forall|k: int| #![trigger b.entries[k]] 0 <= k < b.entries.len() implies {
        &&& b.entries[k].socket.id < b.next_id
        &&& b.entries[k].socket.our == b.our
        &&& b.entries[k].socket.peer.len() == PUBKEY_BYTES_LEN
    } by {
        assert(a.entries[k].socket.id < a.next_id);
    }
}

/// Removing a table entry keeps the table well-formed.
pub proof fn lemma_wf_remove(a: MuxView, i: int, b: MuxView)
    requires
        a.wf(),
        0 <= i < a.entries.len(),
        b.entries == a.entries.remove(i),
        b.next_id == a.next_id,
        b.our == a.our,
    ensures
        b.wf(),
{
    assert forall|k: int| #![trigger b.entries[k]] 0 <= k < b.entries.len() implies {
        &&& b.entries[k].socket.id < b.next_id
        &&& b.entries[k].socket.our == b.our
        &&& b.entries[k].socket.peer.len() == PUBKEY_BYTES_LEN
    } by {
        if k < i {
            assert(b.entries[k] == a.entries[k]);
        } else {
            assert(b.entries[k] == a.entries[k + 1]);
        }
    }
    assert forall|k: int, l: int|
        #![trigger b.entries[k].socket, b.entries[l].socket]
        0 <= k < b.entries.len() && 0 <= l < b.entries.len() && k != l implies {
        &&& b.entries[k].socket.id != b.entries[l].socket.id
        &&& b.entries[k].socket.peer != b.entries[l].socket.peer
    } by {
        let k0: int = if k < i { k } else { k + 1 };
        let l0: int = if l < i { l } else { l + 1 };
        assert(b.entries[k] == a.entries[k0]);
        assert(b.entries[l] == a.entries[l0]);
        assert(a.entries[k0].socket.id != a.entries[l0].socket.id);
    }
}

/// Disconnecting the socket with identity `id`: idempotent and total.  A
/// live entry is marked stopped and its disconnect command joins the
/// outbound queue; an already stopped entry, or an unknown identity, moves
/// nothing.  The entry stays in the table.
pub open spec fn disconnect_post(pre: MuxView, id: u64, post: MuxView) -> bool {
    &&& (!has_id(pre, id) ==> post == pre)
    &&& forall|i: int| #[trigger] id_at(pre, id, i) ==> if pre.entries[i].socket.stopped {
        post == pre
    } else {
        post == (MuxView {
            entries: pre.entries.update(
                i,
                EntryView { socket: stopped_socket(pre.entries[i].socket), ..pre.entries[i] },
            ),
            outbound: pre.outbound.push(disconnect_text(pre.entries[i].socket)),
            ..pre
        })
    }
}

/// Handling one text frame.  `r` is the socket the peer manager must be
/// told about, if any.  A frame that parses as a disconnect command for a
/// known peer stops that socket, removes its entry, and reports it; every
/// other text — malformed, a ping, or a disconnect for an unknown peer —
/// moves nothing.
pub open spec fn command_post(
    pre: MuxView,
    text: Seq<char>,
    r: Option<SubSocketView>,
    post: MuxView,
) -> bool {
    match crate::commands::parsed_command(text) {
        Some(CommandView::Disconnect { to, from }) => {
            &&& (!has_peer(pre, from) ==> post == pre && r is None)
            &&& forall|i: int| #[trigger] peer_at(pre, from, i) ==> {
                &&& post == (MuxView { entries: pre.entries.remove(i), ..pre })
                &&& r == Some(stopped_socket(pre.entries[i].socket))
            }
        },
        Some(CommandView::Ping) => post == pre && r is None,
        None => post == pre && r is None,
    }
}

/// Forwarding a raw payload to the entry registered for `peer`: the payload
/// joins that entry's inbound queue, stopped or not; with no entry, nothing
/// moves.  `r` says whether an entry was found.
pub open spec fn forward_post(
    pre: MuxView,
    peer: Seq<u8>,
    payload: Seq<u8>,
    r: bool,
    post: MuxView,
) -> bool {
    &&& (r <==> has_peer(pre, peer))
    &&& (!r ==> post == pre)
    &&& forall|i: int| #[trigger] peer_at(pre, peer, i) ==> post == (MuxView {
        entries: pre.entries.update(
            i,
            EntryView { inbound: pre.entries[i].inbound.push(payload), ..pre.entries[i] },
        ),
        ..pre
    })
}

/// Unwinding a just-created socket the peer manager refused: the socket is
/// disconnected (command queued, flag set) and its entry removed; `r` is the
/// stopped socket to report.  An unknown peer moves nothing.
pub open spec fn reject_post(
    pre: MuxView,
    peer: Seq<u8>,
    r: Option<SubSocketView>,
    post: MuxView,
) -> bool {
    &&& (!has_peer(pre, peer) ==> post == pre && r is None)
    &&& forall|i: int| #[trigger] peer_at(pre, peer, i) ==> {
        &&& post == (MuxView {
            entries: pre.entries.remove(i),
            outbound: if pre.entries[i].socket.stopped {
                pre.outbound
            } else {
                pre.outbound.push(disconnect_text(pre.entries[i].socket))
            },
            ..pre
        })
        &&& r == Some(stopped_socket(pre.entries[i].socket))
    }
}

/// Sending peer payload through the socket with identity `id`: on a live
/// entry, the payload is prefixed with that entry's peer identifier and the
/// binary frame joins the outbound queue, and `sent` is the payload's
/// length; on a stopped or removed socket nothing moves and `sent` is zero.
pub open spec fn send_post(
    pre: MuxView,
    id: u64,
    data: Seq<u8>,
    sent: nat,
    post: MuxView,
) -> bool {
    &&& ((!has_id(pre, id)) ==> post == pre && sent == 0)
    &&& forall|i: int| #[trigger] id_at(pre, id, i) ==> if pre.entries[i].socket.stopped {
        post == pre && sent == 0
    } else {
        &&& post == (MuxView {
            outbound: pre.outbound.push(
                FrameView::Binary(pre.entries[i].socket.peer + data),
            ),
            ..pre
        })
        &&& sent == data.len()
    }
}

/// What the dispatch of one binary frame produced.
#[verifier::ext_equal]
pub enum BinaryDispatchView {
    /// The frame was too short to carry an address and was dropped.
    Dropped,
    /// The payload went to the queue of an already registered socket.
    Routed,
    /// A socket was created and registered for an unseen peer; the payload
    /// is held back for the peer manager's verdict on that socket.
    NewPeer(SubSocketView, Seq<u8>),
}

/// The address of a binary frame body: its leading peer identifier.
pub open spec fn peer_of(msg: Seq<u8>) -> Seq<u8>
    recommends
        msg.len() >= PUBKEY_BYTES_LEN,
{
    msg.subrange(0, PUBKEY_BYTES_LEN as int)
}

/// The raw protocol payload of a binary frame body: what follows the
/// address.
pub open spec fn payload_of(msg: Seq<u8>) -> Seq<u8>
    recommends
        msg.len() >= PUBKEY_BYTES_LEN,
{
    msg.subrange(PUBKEY_BYTES_LEN as int, msg.len() as int)
}

/// Dispatching the body of one binary frame: an undersized frame is
/// dropped and nothing moves; a frame for a known peer has its payload
/// forwarded to that entry's inbound queue; a frame for an unseen peer
/// registers a fresh socket and reports it with the pending payload.
pub open spec fn binary_post(
    pre: MuxView,
    msg: Seq<u8>,
    r: BinaryDispatchView,
    post: MuxView,
) -> bool {
    if msg.len() < PUBKEY_BYTES_LEN {
        &&& post == pre
        &&& r == BinaryDispatchView::Dropped
    } else {
        let peer = peer_of(msg);
        let payload = payload_of(msg);
        if has_peer(pre, peer) {
            &&& r == BinaryDispatchView::Routed
            &&& forward_post(pre, peer, payload, true, post)
        } else {
            &&& r matches BinaryDispatchView::NewPeer(s, pl)
            &&& pl == payload
            &&& create_post(pre, peer, s, post)
        }
    }
}

/// What one non-blocking read attempt on a virtual socket produced.
#[verifier::ext_equal]
pub enum ReadStepView {
    /// The socket is stopped or gone; the peer manager must give it up.
    Failed,
    /// The oldest queued payload.
    Data(Seq<u8>),
    /// Nothing queued yet; poll again later.
    Pending,
}

/// One non-blocking read attempt on the socket with identity `id`: a
/// stopped or removed socket fails; otherwise the oldest queued payload
/// comes out of its inbound queue, or the attempt is pending.
pub open spec fn read_post(
    pre: MuxView,
    id: u64,
    r: ReadStepView,
    post: MuxView,
) -> bool {
    &&& ((!has_id(pre, id)) ==> post == pre && r == ReadStepView::Failed)
    &&& forall|i: int| #[trigger] id_at(pre, id, i) ==> if pre.entries[i].socket.stopped {
        post == pre && r == ReadStepView::Failed
    } else if pre.entries[i].inbound.len() == 0 {
        post == pre && r == ReadStepView::Pending
    } else {
        &&& r == ReadStepView::Data(pre.entries[i].inbound[0])
        &&& post == (MuxView {
            entries: pre.entries.update(
                i,
                EntryView { inbound: pre.entries[i].inbound.drop_first(), ..pre.entries[i] },
            ),
            ..pre
        })
    }
}

/// What handling one inbound frame amounted to.
#[verifier::ext_equal]
pub enum HandledMsgView {
    /// Nothing to do: malformed text, an inbound ping, a disconnect for an
    /// unknown peer, or an undersized binary frame.
    Ignored,
    /// Peer payload joined an existing socket's inbound queue.
    Routed,
    /// The relay tore a peer link down; the socket was stopped and removed.
    PeerDisconnected(SubSocketView),
    /// A fresh inbound socket was registered and accepted; the payload is
    /// first in its queue.
    NewInbound(SubSocketView),
    /// The peer manager refused the fresh socket; it was unwound.
    InboundRejected,
}

/// The socket that the next creation in state `pre` would hand out for
/// `peer`.
pub open spec fn fresh_socket(pre: MuxView, peer: Seq<u8>) -> SubSocketView {
    SubSocketView { id: pre.next_id, peer: peer, our: pre.our, stopped: false }
}

/// Handling one inbound frame, with the peer manager's verdict folded in:
/// the result names which of the five things happened, and each case names
/// its exact state change.  A text frame is ignored or tears one link down;
/// a binary frame is dropped, routed, or — for an unseen peer — creates a
/// socket that the verdict then accepts (entry registered, the payload its
/// whole queue) or refuses (nothing registered, a disconnect command queued,
/// the spent identity withheld).
pub open spec fn handled_post(
    pre: MuxView,
    msg: FrameView,
    r: HandledMsgView,
    post: MuxView,
) -> bool {
    match msg {
        FrameView::Text(text) => {
            ||| (r == HandledMsgView::Ignored && command_post(pre, text, None, post))
            ||| (r matches HandledMsgView::PeerDisconnected(s) && command_post(
                pre,
                text,
                Some(s),
                post,
            ))
        },
        FrameView::Binary(bytes) => {
            ||| (r == HandledMsgView::Ignored && binary_post(
                pre,
                bytes,
                BinaryDispatchView::Dropped,
                post,
            ))
            ||| (r == HandledMsgView::Routed && binary_post(
                pre,
                bytes,
                BinaryDispatchView::Routed,
                post,
            ))
            ||| {
                &&& bytes.len() >= PUBKEY_BYTES_LEN
                &&& !has_peer(pre, peer_of(bytes))
                &&& r == HandledMsgView::NewInbound(fresh_socket(pre, peer_of(bytes)))
                &&& post == (MuxView {
                    entries: pre.entries.push(
                        EntryView {
                            socket: fresh_socket(pre, peer_of(bytes)),
                            inbound: seq![payload_of(bytes)],
                        },
                    ),
                    next_id: (pre.next_id + 1) as u64,
                    ..pre
                })
            }
            ||| {
                &&& bytes.len() >= PUBKEY_BYTES_LEN
                &&& !has_peer(pre, peer_of(bytes))
                &&& r == HandledMsgView::InboundRejected
                &&& post == (MuxView {
                    outbound: pre.outbound.push(
                        disconnect_text(fresh_socket(pre, peer_of(bytes))),
                    ),
                    next_id: (pre.next_id + 1) as u64,
                    ..pre
                })
            }
        },
    }
}

/// The disconnect commands that clearing a table queues: one text frame per
/// entry not already stopped, in table order.
pub open spec fn disconnect_texts(entries: Seq<EntryView>) -> Seq<FrameView>
    decreases entries.len(),
{
    if entries.len() == 0 {
        Seq::empty()
    } else {
        (if entries[0].socket.stopped {
            Seq::<FrameView>::empty()
        } else {
            seq![disconnect_text(entries[0].socket)]
        }) + disconnect_texts(entries.drop_first())
    }
}

/// One more entry at the end of a table adds its disconnect command — if it
/// still owes one — behind those of the entries before it.
pub proof fn lemma_disconnect_texts_push(s: Seq<EntryView>, e: EntryView)
    ensures
        disconnect_texts(s.push(e)) == disconnect_texts(s) + (if e.socket.stopped {
            Seq::<FrameView>::empty()
        } else {
            seq![disconnect_text(e.socket)]
        }),
    decreases s.len(),
{
    let tail: Seq<FrameView> = if e.socket.stopped {
        Seq::empty()
    } else {
        seq![disconnect_text(e.socket)]
    };
    if s.len() == 0 {
        assert(s.push(e).drop_first() =~= s);
        assert(disconnect_texts(s.push(e)) =~= disconnect_texts(s) + tail);
    } else {
        assert(s.push(e).drop_first() =~= s.drop_first().push(e));
        assert(s.push(e)[0] == s[0]);
        lemma_disconnect_texts_push(s.drop_first(), e);
        let head: Seq<FrameView> = if s[0].socket.stopped {
            Seq::empty()
        } else {
            seq![disconnect_text(s[0].socket)]
        };
        assert(disconnect_texts(s.push(e)) == head + (disconnect_texts(s.drop_first()) + tail));
        assert(head + (disconnect_texts(s.drop_first()) + tail) =~= (head + disconnect_texts(
            s.drop_first(),
        )) + tail);
    }
}

/// The sockets a table would hand back as stale on reconnection: each
/// entry's socket, stopped, in table order.
pub open spec fn stale_sockets(pre: MuxView) -> Seq<SubSocketView> {
    pre.entries.map_values(|e: EntryView| stopped_socket(e.socket))
}

/// Installing a transport: every stale entry's socket is stopped (queueing
/// its disconnect command) and leaves the table, `stale` reports each of
/// them exactly once in table order, the transport is attached and live.
/// Identities already handed out stay reserved.
pub open spec fn connect_post(pre: MuxView, stale: Seq<SubSocketView>, post: MuxView) -> bool {
    &&& stale.len() == pre.entries.len()
    &&& forall|i: int| 0 <= i < pre.entries.len() ==> #[trigger] stale[i] == stopped_socket(
        pre.entries[i].socket,
    )
    &&& post == (MuxView {
        entries: Seq::empty(),
        outbound: pre.outbound + disconnect_texts(pre.entries),
        attached: true,
        connected: true,
        ..pre
    })
}

} // verus!
