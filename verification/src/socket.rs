//! The socket capability as the peer manager sees it: a closed union of
//! exactly two cases — a direct socket over its own transport, and a
//! virtual socket on the shared multiplexed connection.  No third variant
//! is anticipated.

use vstd::prelude::*;
use crate::model::SubSocketView;
use crate::ws_socket::{SubWsSocketDescriptor, WsTcpSocketDescriptor};

verus! {

/// One socket, of either kind.
#[derive(Debug)]
pub enum MutinySocketDescriptor {
    /// A direct, non-multiplexed socket.
    Tcp(WsTcpSocketDescriptor),
    /// A virtual socket on the shared connection.
    Mutiny(SubWsSocketDescriptor),
}

/// Mathematical model of a socket descriptor.
#[verifier::ext_equal]
pub enum SocketDescriptorView {
    Tcp(u64),
    Mutiny(SubSocketView),
}

impl View for MutinySocketDescriptor {
    type V = SocketDescriptorView;

    open spec fn view(&self) -> SocketDescriptorView {
        match self {
            MutinySocketDescriptor::Tcp(socket) => SocketDescriptorView::Tcp(socket.spec_id()),
            MutinySocketDescriptor::Mutiny(socket) => SocketDescriptorView::Mutiny(socket@),
        }
    }
}

impl Clone for MutinySocketDescriptor {
    /// A duplicate handle of the same socket.
    fn clone(&self) -> (r: Self)
        ensures
            r@ == self@,
    {
        match self {
            MutinySocketDescriptor::Tcp(socket) => MutinySocketDescriptor::Tcp(*socket),
            MutinySocketDescriptor::Mutiny(socket) => MutinySocketDescriptor::Mutiny(
                socket.clone(),
            ),
        }
    }
}

impl PartialEq for MutinySocketDescriptor {
    /// Descriptors are equal when they are the same kind of socket and
    /// carry the same creation identity — never by peer.
    fn eq(&self, other: &Self) -> (r: bool) {
        match (self, other) {
            (MutinySocketDescriptor::Tcp(a), MutinySocketDescriptor::Tcp(b)) => a.id() == b.id(),
            (MutinySocketDescriptor::Mutiny(a), MutinySocketDescriptor::Mutiny(b)) => a.id()
                == b.id(),
            _ => false,
        }
    }
}

impl vstd::std_specs::cmp::PartialEqSpecImpl for MutinySocketDescriptor {
    open spec fn obeys_eq_spec() -> bool {
        true
    }

    open spec fn eq_spec(&self, other: &Self) -> bool {
        match (self, other) {
            (MutinySocketDescriptor::Tcp(a), MutinySocketDescriptor::Tcp(b)) => a.spec_id()
                == b.spec_id(),
            (MutinySocketDescriptor::Mutiny(a), MutinySocketDescriptor::Mutiny(b)) => a@.id
                == b@.id,
            _ => false,
        }
    }
}

} // verus!
