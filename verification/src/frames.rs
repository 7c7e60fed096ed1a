//! Frames of the shared relay connection.
//!
//! The transport delivers discrete frames of two kinds: binary frames carry
//! addressed peer traffic (`peer id ‖ payload`), text frames carry control
//! commands.  The two channels are never intermixed.

use vstd::prelude::*;
use vstd::slice::{slice_subrange, slice_to_vec};

verus! {

/// Number of bytes in a peer identifier (a compressed public key).
pub const PUBKEY_BYTES_LEN: usize = 33;

/// One message unit as the transport delivers it.
pub enum Frame {
    Binary(Vec<u8>),
    Text(String),
}

/// Mathematical model of a frame.
#[verifier::ext_equal]
pub enum FrameView {
    Binary(Seq<u8>),
    Text(Seq<char>),
}

impl View for Frame {
    type V = FrameView;

    open spec fn view(&self) -> FrameView {
        match self {
            Frame::Binary(bytes) => FrameView::Binary(bytes@),
            Frame::Text(text) => FrameView::Text(text@),
        }
    }
}

/// What one attempt to receive from the transport produced.
pub enum TransportEvent {
    /// A frame arrived.
    Frame(Frame),
    /// The transport failed; the connection is gone.
    Failed,
    /// Nothing arrived (a graceful close, or a read that yielded nothing).
    Quiet,
}

/// Prefix `data` with the peer identifier it is addressed to, forming the
/// body of one binary frame for the shared connection.
pub fn assemble_frame(peer: &Vec<u8>, data: &Vec<u8>) -> (r: Vec<u8>)
    ensures
        r@ == peer@ + data@,
{
    let mut out: Vec<u8> = Vec::new();
    let mut i: usize = 0;
    while i < peer.len()
        invariant
            i <= peer@.len(),
            out@ == peer@.subrange(0, i as int),
        decreases peer@.len() - i,
    {
        out.push(peer[i]);
        assert(out@ =~= peer@.subrange(0, i + 1 as int));
        i = i + 1;
    }
    assert(out@ =~= peer@);
    let mut j: usize = 0;
    while j < data.len()
        invariant
            j <= data@.len(),
            out@ == peer@ + data@.subrange(0, j as int),
        decreases data@.len() - j,
    {
        out.push(data[j]);
        assert(out@ =~= peer@ + data@.subrange(0, j + 1 as int));
        j = j + 1;
    }
    assert(out@ =~= peer@ + data@);
    out
}

/// Split the body of a binary frame into the addressed peer identifier and
/// the raw payload.  A frame too short to hold a peer identifier is
/// malformed and yields nothing.
pub fn split_frame(msg: &Vec<u8>) -> (r: Option<(Vec<u8>, Vec<u8>)>)
    ensures
        msg@.len() < PUBKEY_BYTES_LEN ==> r is None,
        msg@.len() >= PUBKEY_BYTES_LEN ==> {
            &&& r matches Some(parts)
            &&& parts.0@ == msg@.subrange(0, PUBKEY_BYTES_LEN as int)
            &&& parts.1@ == msg@.subrange(PUBKEY_BYTES_LEN as int, msg@.len() as int)
        },
{
    if msg.len() < PUBKEY_BYTES_LEN {
        return None;
    }
    let id = slice_to_vec(slice_subrange(msg.as_slice(), 0, PUBKEY_BYTES_LEN));
    let payload = slice_to_vec(slice_subrange(msg.as_slice(), PUBKEY_BYTES_LEN, msg.len()));
    Some((id, payload))
}

/// Whether two byte strings are the same, byte for byte — how peer
/// identifiers are compared.
pub fn bytes_eq(a: &Vec<u8>, b: &Vec<u8>) -> (r: bool)
    ensures
        r <==> a@ == b@,
{
    if a.len() != b.len() {
        return false;
    }
    let mut i: usize = 0;
    while i < a.len()
        invariant
            i <= a@.len(),
            a@.len() == b@.len(),
            forall|j: int| 0 <= j < i ==> a@[j] == b@[j],
        decreases a@.len() - i,
    {
        if a[i] != b[i] {
            return false;
        }
        i = i + 1;
    }
    proof {
        assert(a@ =~= b@);
    }
    true
}

/// An assembled frame splits back into exactly the peer identifier and the
/// payload it was built from, for every payload, the empty one included.
pub proof fn lemma_frame_round_trip(peer: Seq<u8>, payload: Seq<u8>)
    requires
        peer.len() == PUBKEY_BYTES_LEN,
    ensures
        (peer + payload).len() >= PUBKEY_BYTES_LEN,
        (peer + payload).subrange(0, PUBKEY_BYTES_LEN as int) == peer,
        (peer + payload).subrange(PUBKEY_BYTES_LEN as int, (peer + payload).len() as int)
            == payload,
{
    assert((peer + payload).subrange(0, PUBKEY_BYTES_LEN as int) =~= peer);
    assert((peer + payload).subrange(PUBKEY_BYTES_LEN as int, (peer + payload).len() as int)
        =~= payload);
}

} // verus!
