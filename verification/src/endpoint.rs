//! Endpoints: who takes part in the relay, and how far along each one is.

use vstd::prelude::*;

verus! {

/// The identity of an endpoint.
///
/// There is one local endpoint. Each remote connection gets a number of its
/// own from the routing table, and no number is given out twice: a peer that
/// connects again is a new endpoint.
#[derive(Clone, Copy, Debug, PartialEq, Eq, Hash, Structural)]
pub enum EndpointId {
    /// The local stream pair.
    Local,
    /// A remote connection, by its number.
    Remote(u64),
}

/// How far along an endpoint is. An endpoint starts out connecting, becomes
/// active, and ends up closed; it never goes back.
#[derive(Clone, Copy, Debug, PartialEq, Eq, Structural)]
pub enum Liveness {
    /// Not connected yet.
    Connecting,
    /// Connected: messages go to it and come from it.
    Active,
    /// Gone for good.
    Closed,
}

impl Liveness {
    /// How far along a state is, as a number.
    pub open spec fn rank(self) -> int {
        match self {
            Liveness::Connecting => 0,
            Liveness::Active => 1,
            Liveness::Closed => 2,
        }
    }

    /// Whether an endpoint in this state can later be found in `next`: in the
    /// same state or further along, never further back.
    pub open spec fn can_become(self, next: Liveness) -> bool {
        self.rank() <= next.rank()
    }

    /// The state after the connection is established.
    pub open spec fn spec_activated(self) -> Liveness {
        match self {
            Liveness::Connecting => Liveness::Active,
            other => other,
        }
    }

    /// The state after the connection is established: a connecting endpoint
    /// becomes active, any other stays as it is.
    pub fn activated(self) -> (next: Liveness)
        ensures
            next == self.spec_activated(),
            self.can_become(next),
    {
        match self {
            Liveness::Connecting => Liveness::Active,
            other => other,
        }
    }

    /// The state after the endpoint is lost: closed, whatever it was.
    pub fn closed(self) -> (next: Liveness)
        ensures
            next == Liveness::Closed,
            self.can_become(next),
    {
        Liveness::Closed
    }
}

/// Once closed, always closed: whatever a closed endpoint can become is
/// closed.
pub proof fn lemma_closed_is_terminal(next: Liveness)
    requires
        Liveness::Closed.can_become(next),
    ensures
        next == Liveness::Closed,
{
}

} // verus!
