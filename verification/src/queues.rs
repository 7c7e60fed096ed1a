//! The multiplexer's queues, carried by crossbeam channels.
//!
//! Two kinds of queue move traffic between the dispatch side and the socket
//! side: one shared outbound queue of frames bound for the transport, and
//! one private inbound queue of raw payloads per virtual socket.  Each queue
//! owns both endpoints of one unbounded channel, so nothing else can push
//! into or drain it: its contents are exactly what was pushed and not yet
//! popped, oldest first.

use vstd::prelude::*;
use crate::frames::{Frame, FrameView};

verus! {

/// A first-in-first-out queue of raw payloads: the private inbound queue of
/// one virtual socket.
#[verifier::external_body]
pub struct ByteQueue {
    tx: crossbeam_channel::Sender<Vec<u8>>,
    rx: crossbeam_channel::Receiver<Vec<u8>>,
}

/// The payloads a byte queue holds, oldest first.
pub uninterp spec fn byte_queue_view(q: ByteQueue) -> Seq<Seq<u8>>;

/// Relies on crossbeam_channel::unbounded: a fresh channel holds nothing.
#[verifier::external_body]
pub fn byte_queue_new() -> (q: ByteQueue)
    ensures
        byte_queue_view(q) == Seq::<Seq<u8>>::empty(),
{
    let (tx, rx) = crossbeam_channel::unbounded();
    ByteQueue { tx, rx }
}

/// Relies on crossbeam_channel::Sender::send: on an unbounded channel whose
/// receiver is alive it neither blocks nor fails, and it appends the message
/// behind all earlier ones.
#[verifier::external_body]
pub fn byte_queue_push(q: &mut ByteQueue, data: Vec<u8>)
    ensures
        byte_queue_view(*final(q)) == byte_queue_view(*old(q)).push(data@),
{
    let _ = q.tx.send(data);
}

/// Relies on crossbeam_channel::Receiver::try_recv: without blocking, it
/// takes the oldest message, or reports the channel empty.
#[verifier::external_body]
pub fn byte_queue_try_pop(q: &mut ByteQueue) -> (r: Option<Vec<u8>>)
    ensures
        byte_queue_view(*old(q)).len() == 0 ==> {
            &&& r is None
            &&& byte_queue_view(*final(q)) == byte_queue_view(*old(q))
        },
        byte_queue_view(*old(q)).len() > 0 ==> {
            &&& r matches Some(data) && data@ == byte_queue_view(*old(q))[0]
            &&& byte_queue_view(*final(q)) == byte_queue_view(*old(q)).drop_first()
        },
{
    q.rx.try_recv().ok()
}

/// A first-in-first-out queue of whole frames: the shared outbound queue
/// that the pump loop drains towards the transport.
#[verifier::external_body]
pub struct FrameQueue {
    tx: crossbeam_channel::Sender<Frame>,
    rx: crossbeam_channel::Receiver<Frame>,
}

/// The frames a frame queue holds, oldest first.
pub uninterp spec fn frame_queue_view(q: FrameQueue) -> Seq<FrameView>;

/// Relies on crossbeam_channel::unbounded: a fresh channel holds nothing.
#[verifier::external_body]
pub fn frame_queue_new() -> (q: FrameQueue)
    ensures
        frame_queue_view(q) == Seq::<FrameView>::empty(),
{
    let (tx, rx) = crossbeam_channel::unbounded();
    FrameQueue { tx, rx }
}

/// Relies on crossbeam_channel::Sender::send: on an unbounded channel whose
/// receiver is alive it neither blocks nor fails, and it appends the message
/// behind all earlier ones.
#[verifier::external_body]
pub fn frame_queue_push(q: &mut FrameQueue, frame: Frame)
    ensures
        frame_queue_view(*final(q)) == frame_queue_view(*old(q)).push(frame@),
{
    let _ = q.tx.send(frame);
}

/// Relies on crossbeam_channel::Receiver::try_recv: without blocking, it
/// takes the oldest message, or reports the channel empty.
#[verifier::external_body]
pub fn frame_queue_try_pop(q: &mut FrameQueue) -> (r: Option<Frame>)
    ensures
        frame_queue_view(*old(q)).len() == 0 ==> {
            &&& r is None
            &&& frame_queue_view(*final(q)) == frame_queue_view(*old(q))
        },
        frame_queue_view(*old(q)).len() > 0 ==> {
            &&& r matches Some(frame) && frame@ == frame_queue_view(*old(q))[0]
            &&& frame_queue_view(*final(q)) == frame_queue_view(*old(q)).drop_first()
        },
{
    q.rx.try_recv().ok()
}

} // verus!
