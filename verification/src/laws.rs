//! The laws of the multiplexer, proved from the model relations alone.
//!
//! Each law here states one promise of the transport layer over the
//! relations of [`crate::model`] that the executable operations ensure, so
//! whatever sequence of operations a caller runs, these hold of it.

use vstd::prelude::*;
use vstd::std_specs::cmp::PartialEqSpec;
use crate::commands::{command_text, CommandView};
use crate::frames::{FrameView, PUBKEY_BYTES_LEN};
use crate::model::{
    binary_post, connect_post, create_post, disconnect_command, disconnect_post,
    disconnect_text, disconnect_texts, handled_post, has_id, has_peer, id_at, payload_of,
    peer_at, peer_of, read_post, reject_post, send_post, stopped_socket, BinaryDispatchView,
    EntryView, HandledMsgView, MuxView, ReadStepView, SubSocketView,
};
use crate::ws_socket::SubWsSocketDescriptor;

verus! {

/// Sockets registered for distinct peers carry distinct creation
/// identities, so they compare unequal — even when created at the same
/// instant, since identities in a well-formed table are pairwise distinct
/// however the table was built.
pub proof fn lemma_distinct_peers_distinct_sockets(m: MuxView, i: int, j: int)
    requires
        m.wf(),
        0 <= i < m.entries.len(),
        0 <= j < m.entries.len(),
        i != j,
    ensures
        m.entries[i].socket.id != m.entries[j].socket.id,
        m.entries[i].socket.peer != m.entries[j].socket.peer,
{
}

/// Two sockets created one after the other carry distinct identities,
/// whether for distinct peers or for the same one.
pub proof fn lemma_consecutive_creations_distinct(
    pre: MuxView,
    peer1: Seq<u8>,
    s1: SubSocketView,
    mid: MuxView,
    peer2: Seq<u8>,
    s2: SubSocketView,
    post: MuxView,
)
    requires
        create_post(pre, peer1, s1, mid),
        create_post(mid, peer2, s2, post),
    ensures
        s1.id != s2.id,
{
}

/// A socket handle equals its own duplicate: equality goes by the creation
/// identity the duplicate shares.
pub proof fn lemma_duplicate_socket_equal(a: &SubWsSocketDescriptor, b: &SubWsSocketDescriptor)
    requires
        a@ == b@,
    ensures
        a.eq_spec(b),
{
}

/// No socket in a well-formed table equals the socket a later creation
/// returns — a fresh identity sits above every stored one — so a socket
/// made for the same peer at a different time is a different socket.
pub proof fn lemma_fresh_socket_unequal(
    m: MuxView,
    i: int,
    peer: Seq<u8>,
    s: SubSocketView,
    post: MuxView,
)
    requires
        m.wf(),
        0 <= i < m.entries.len(),
        create_post(m, peer, s, post),
    ensures
        m.entries[i].socket.id != s.id,
{
}

/// Disconnecting a socket twice has the observable effect of once: the
/// second call moves nothing — no second command, no state change.
pub proof fn lemma_disconnect_idempotent(pre: MuxView, id: u64, mid: MuxView, post: MuxView)
    requires
        pre.wf(),
        disconnect_post(pre, id, mid),
        disconnect_post(mid, id, post),
    ensures
        post == mid,
{
    if has_id(pre, id) {
        let i: int = choose|i: int| id_at(pre, id, i);
        assert(id_at(pre, id, i));
        if pre.entries[i].socket.stopped {
            assert(mid == pre);
        } else {
            assert(mid.entries == pre.entries.update(
                i,
                EntryView { socket: stopped_socket(pre.entries[i].socket), ..pre.entries[i] },
            ));
            assert(id_at(mid, id, i));
            assert(mid.entries[i].socket.stopped);
        }
    } else {
        assert(mid == pre);
    }
}

/// A frame addressed to a registered, live socket with an empty queue
/// yields exactly its payload — the empty payload included — at that
/// socket's next read, leaving the queue empty again: no loss, no
/// duplication.
pub proof fn lemma_dispatch_read_round_trip(
    pre: MuxView,
    msg: Seq<u8>,
    mid: MuxView,
    i: int,
    r: ReadStepView,
    post: MuxView,
)
    requires
        pre.wf(),
        msg.len() >= PUBKEY_BYTES_LEN,
        peer_at(pre, peer_of(msg), i),
        !pre.entries[i].socket.stopped,
        pre.entries[i].inbound.len() == 0,
        binary_post(pre, msg, BinaryDispatchView::Routed, mid),
        read_post(mid, pre.entries[i].socket.id, r, post),
    ensures
        r == ReadStepView::Data(payload_of(msg)),
        post.entries[i].inbound == Seq::<Seq<u8>>::empty(),
{
    assert forall|k: int| #[trigger] peer_at(pre, peer_of(msg), k) implies k == i by {
        if k != i {
            assert(pre.entries[k].socket.peer != pre.entries[i].socket.peer);
        }
    }
    assert(mid.entries == pre.entries.update(
        i,
        EntryView {
            inbound: pre.entries[i].inbound.push(payload_of(msg)),
            ..pre.entries[i]
        },
    ));
    assert(id_at(mid, pre.entries[i].socket.id, i));
    assert forall|k: int| #[trigger] id_at(mid, pre.entries[i].socket.id, k) implies k == i by {
        if k != i {
            assert(mid.entries[k] == pre.entries[k]);
            assert(pre.entries[k].socket.id != pre.entries[i].socket.id);
        }
    }
    assert(mid.entries[i].inbound == pre.entries[i].inbound.push(payload_of(msg)));
    assert(mid.entries[i].inbound[0] == payload_of(msg));
    assert(post.entries[i].inbound =~= Seq::<Seq<u8>>::empty());
}

/// Installing a transport over a table with stale entries reports each of
/// them exactly once — their identities are pairwise distinct, so no
/// socket is reported twice — and leaves the table empty before any new
/// frame is dispatched.
pub proof fn lemma_connect_notifies_each_stale_once(
    pre: MuxView,
    stale: Seq<SubSocketView>,
    post: MuxView,
)
    requires
        pre.wf(),
        connect_post(pre, stale, post),
    ensures
        post.entries.len() == 0,
        stale.len() == pre.entries.len(),
        forall|i: int| 0 <= i < stale.len() ==> #[trigger] stale[i] == stopped_socket(
            pre.entries[i].socket,
        ),
        forall|i: int, j: int|
            #![trigger stale[i], stale[j]]
            0 <= i < stale.len() && 0 <= j < stale.len() && i != j ==> stale[i].id != stale[j].id,
{
    assert forall|i: int, j: int|
        #![trigger stale[i], stale[j]]
        0 <= i < stale.len() && 0 <= j < stale.len() && i != j implies stale[i].id
        != stale[j].id by {
        assert(pre.entries[i].socket.id != pre.entries[j].socket.id);
    }
}

/// Two back-to-back binary frames for the same unseen peer do not make two
/// sockets: the first creation wins, and the second frame's payload routes
/// to the already-created socket's queue — where it waits beside whatever
/// the peer manager's pending verdict will let in.
pub proof fn lemma_second_frame_routes_to_first_socket(
    pre: MuxView,
    msg1: Seq<u8>,
    s: SubSocketView,
    pending: Seq<u8>,
    mid: MuxView,
    msg2: Seq<u8>,
    r2: BinaryDispatchView,
    post: MuxView,
)
    requires
        pre.wf(),
        msg1.len() >= PUBKEY_BYTES_LEN,
        msg2.len() >= PUBKEY_BYTES_LEN,
        peer_of(msg2) == peer_of(msg1),
        !has_peer(pre, peer_of(msg1)),
        binary_post(pre, msg1, BinaryDispatchView::NewPeer(s, pending), mid),
        binary_post(mid, msg2, r2, post),
    ensures
        r2 == BinaryDispatchView::Routed,
        post.entries.len() == mid.entries.len(),
        mid.entries.len() == pre.entries.len() + 1,
        post.entries[pre.entries.len() as int].socket == s,
        post.entries[pre.entries.len() as int].inbound == Seq::<Seq<u8>>::empty().push(
            payload_of(msg2),
        ),
{
    let last = pre.entries.len() as int;
    assert(mid.entries == pre.entries.push(EntryView { socket: s, inbound: Seq::empty() }));
    assert(peer_at(mid, peer_of(msg2), last));
    assert forall|k: int| #[trigger] peer_at(mid, peer_of(msg2), k) implies k == last by {
        if k != last {
            assert(mid.entries[k] == pre.entries[k]);
            assert(!peer_at(pre, peer_of(msg1), k));
        }
    }
    assert(post.entries == mid.entries.update(
        last,
        EntryView {
            inbound: mid.entries[last].inbound.push(payload_of(msg2)),
            ..mid.entries[last]
        },
    ));
    assert(post.entries[last].inbound =~= Seq::<Seq<u8>>::empty().push(payload_of(msg2)));
}

/// A frame fit for the text channel: some control command's text.
pub open spec fn control_text(f: FrameView) -> bool {
    exists|c: CommandView| f == FrameView::Text(#[trigger] command_text(c))
}

/// A frame fit for the binary channel: long enough to open with a full
/// peer identifier.
pub open spec fn addressed_binary(f: FrameView) -> bool {
    f matches FrameView::Binary(b) && b.len() >= PUBKEY_BYTES_LEN
}

/// What the two-channel discipline lets onto the shared connection: text
/// frames are always control commands, binary frames always open with a
/// peer identifier; the channels are never intermixed.
pub open spec fn wire_ok(f: FrameView) -> bool {
    control_text(f) || addressed_binary(f)
}

/// Every frame of the sequence obeys the two-channel discipline.
pub open spec fn all_wire_ok(frames: Seq<FrameView>) -> bool {
    forall|k: int| 0 <= k < frames.len() ==> wire_ok(#[trigger] frames[k])
}

/// One more disciplined frame keeps a disciplined queue disciplined.
pub proof fn lemma_wire_ok_push(frames: Seq<FrameView>, f: FrameView)
    requires
        all_wire_ok(frames),
        wire_ok(f),
    ensures
        all_wire_ok(frames.push(f)),
{
    assert forall|k: int| 0 <= k < frames.push(f).len() implies wire_ok(
        #[trigger] frames.push(f)[k],
    ) by {
        if k == frames.len() {
            assert(frames.push(f)[k] == f);
        }
    }
}

/// Disciplined queues concatenate to a disciplined queue.
pub proof fn lemma_wire_ok_add(a: Seq<FrameView>, b: Seq<FrameView>)
    requires
        all_wire_ok(a),
        all_wire_ok(b),
    ensures
        all_wire_ok(a + b),
{
    assert forall|k: int| 0 <= k < (a + b).len() implies wire_ok(#[trigger] (a + b)[k]) by {
        if k < a.len() {
            assert((a + b)[k] == a[k]);
        } else {
            assert((a + b)[k] == b[k - a.len()]);
        }
    }
}

/// A socket's disconnect command is a control text.
pub proof fn lemma_disconnect_text_is_control(s: SubSocketView)
    ensures
        control_text(disconnect_text(s)),
{
    assert(disconnect_text(s) == FrameView::Text(command_text(disconnect_command(s))));
}

/// Every frame that clearing a table queues is a control text.
pub proof fn lemma_disconnect_texts_are_control(entries: Seq<EntryView>)
    ensures
        all_wire_ok(disconnect_texts(entries)),
    decreases entries.len(),
{
    if entries.len() > 0 {
        lemma_disconnect_texts_are_control(entries.drop_first());
        let head: Seq<FrameView> = if entries[0].socket.stopped {
            Seq::empty()
        } else {
            seq![disconnect_text(entries[0].socket)]
        };
        lemma_disconnect_text_is_control(entries[0].socket);
        lemma_wire_ok_add(head, disconnect_texts(entries.drop_first()));
    }
}

/// Sending peer payload keeps the two-channel discipline: what a live
/// socket queues is a binary frame opening with that peer's full-length
/// identifier.
pub proof fn lemma_send_keeps_discipline(
    pre: MuxView,
    id: u64,
    data: Seq<u8>,
    sent: nat,
    post: MuxView,
)
    requires
        pre.wf(),
        all_wire_ok(pre.outbound),
        send_post(pre, id, data, sent, post),
    ensures
        all_wire_ok(post.outbound),
{
    if has_id(pre, id) {
        let i: int = choose|i: int| id_at(pre, id, i);
        assert(id_at(pre, id, i));
        if !pre.entries[i].socket.stopped {
            assert((pre.entries[i].socket.peer + data).len() >= PUBKEY_BYTES_LEN);
            lemma_wire_ok_push(
                pre.outbound,
                FrameView::Binary(pre.entries[i].socket.peer + data),
            );
        }
    }
}

/// Disconnecting a socket keeps the two-channel discipline: at most one
/// control text joins the queue.
pub proof fn lemma_disconnect_keeps_discipline(pre: MuxView, id: u64, post: MuxView)
    requires
        pre.wf(),
        all_wire_ok(pre.outbound),
        disconnect_post(pre, id, post),
    ensures
        all_wire_ok(post.outbound),
{
    if has_id(pre, id) {
        let i: int = choose|i: int| id_at(pre, id, i);
        assert(id_at(pre, id, i));
        if !pre.entries[i].socket.stopped {
            lemma_disconnect_text_is_control(pre.entries[i].socket);
            lemma_wire_ok_push(pre.outbound, disconnect_text(pre.entries[i].socket));
        }
    }
}

/// Unwinding a refused socket keeps the two-channel discipline.
pub proof fn lemma_reject_keeps_discipline(
    pre: MuxView,
    peer: Seq<u8>,
    r: Option<SubSocketView>,
    post: MuxView,
)
    requires
        pre.wf(),
        all_wire_ok(pre.outbound),
        reject_post(pre, peer, r, post),
    ensures
        all_wire_ok(post.outbound),
{
    if has_peer(pre, peer) {
        let i: int = choose|i: int| peer_at(pre, peer, i);
        assert(peer_at(pre, peer, i));
        if !pre.entries[i].socket.stopped {
            lemma_disconnect_text_is_control(pre.entries[i].socket);
            lemma_wire_ok_push(pre.outbound, disconnect_text(pre.entries[i].socket));
        }
    }
}

/// Installing a transport keeps the two-channel discipline: the commands
/// that clearing the table queues are all control texts.
pub proof fn lemma_connect_keeps_discipline(
    pre: MuxView,
    stale: Seq<SubSocketView>,
    post: MuxView,
)
    requires
        pre.wf(),
        all_wire_ok(pre.outbound),
        connect_post(pre, stale, post),
    ensures
        all_wire_ok(post.outbound),
{
    lemma_disconnect_texts_are_control(pre.entries);
    lemma_wire_ok_add(pre.outbound, disconnect_texts(pre.entries));
}

/// Handling one inbound frame keeps the two-channel discipline, whatever
/// the frame held and whatever the peer manager answered.
pub proof fn lemma_dispatch_keeps_discipline(
    pre: MuxView,
    msg: FrameView,
    r: HandledMsgView,
    post: MuxView,
)
    requires
        pre.wf(),
        all_wire_ok(pre.outbound),
        handled_post(pre, msg, r, post),
    ensures
        all_wire_ok(post.outbound),
{
    match msg {
        FrameView::Text(text) => {
            match crate::commands::parsed_command(text) {
                Some(CommandView::Disconnect { to, from }) => {
                    if has_peer(pre, from) {
                        let i: int = choose|i: int| peer_at(pre, from, i);
                        assert(peer_at(pre, from, i));
                        assert(post.outbound == pre.outbound);
                    }
                },
                Some(CommandView::Ping) => {},
                None => {},
            }
        },
        FrameView::Binary(bytes) => {
            match r {
                HandledMsgView::Routed => {
                    let peer = peer_of(bytes);
                    if has_peer(pre, peer) {
                        let i: int = choose|i: int| peer_at(pre, peer, i);
                        assert(peer_at(pre, peer, i));
                        assert(post.outbound == pre.outbound);
                    }
                },
                HandledMsgView::InboundRejected => {
                    lemma_disconnect_text_is_control(
                        crate::model::fresh_socket(pre, peer_of(bytes)),
                    );
                    lemma_wire_ok_push(
                        pre.outbound,
                        disconnect_text(crate::model::fresh_socket(pre, peer_of(bytes))),
                    );
                },
                _ => {},
            }
        },
    }
}

} // verus!
