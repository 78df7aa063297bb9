//! The relay itself: what to do about each thing that happens on a stream.
//!
//! The readers of all streams put what they get into one queue. Whoever takes
//! from that queue hands each event to the relay, in the order of the queue,
//! and carries out the actions that the relay answers with, in their order.

use vstd::prelude::*;
use crate::byte_order::ByteOrder;
use crate::codec::TransportOrders;
use crate::endpoint::{EndpointId, Liveness};
use crate::frame::{FrameError, checked_length, encode_frame, frame_bytes};
use crate::message::{Message, message_payload, payload_message};
use crate::router::{ForwardingPolicy, RegisterError, RoutingTable, TableView};

verus! {

/// Something that happened on a stream.
#[derive(Clone, Debug, PartialEq, Eq)]
pub enum RelayEvent {
    /// The payload of a complete frame was read from `source`.
    Payload { source: EndpointId, payload: Vec<u8> },
    /// Reading from `source` came to an end: the stream ended, in the middle
    /// of a frame or between two, or could not be read.
    ReadEnded { source: EndpointId },
    /// A frame could not be written to `destination`.
    WriteFailed { destination: EndpointId },
}

/// Why a message was not forwarded.
#[derive(Clone, Copy, Debug, PartialEq, Eq, Structural)]
pub enum DiscardReason {
    /// It came from an endpoint that is not active.
    SourceNotActive,
    /// No endpoint is there to take it.
    NoDestination,
    /// It could not be written as a frame.
    Encoding(FrameError),
}

/// Something that the caller has to do.
#[derive(Clone, Debug, PartialEq, Eq)]
pub enum RelayAction {
    /// Write `frame` to `destination`, whole and with nothing in between.
    Send { destination: EndpointId, frame: Vec<u8> },
    /// Shut the connection of `endpoint`, which has left the routing table.
    Close { endpoint: EndpointId },
    /// Note that a message from `source` was not forwarded.
    Discard { source: EndpointId, reason: DiscardReason },
    /// Stop the relay: nothing more will be forwarded.
    Stop,
}

/// An event as the contracts see it: the same event, with the payload as a
/// sequence of bytes.
pub enum EventView {
    /// The payload of a complete frame was read from `source`.
    Payload { source: EndpointId, payload: Seq<u8> },
    /// Reading from `source` came to an end.
    ReadEnded { source: EndpointId },
    /// A frame could not be written to `destination`.
    WriteFailed { destination: EndpointId },
}

/// An action as the contracts see it: the same action, with the frame as a
/// sequence of bytes.
pub enum ActionView {
    /// Write `frame` to `destination`.
    Send { destination: EndpointId, frame: Seq<u8> },
    /// Shut the connection of `endpoint`.
    Close { endpoint: EndpointId },
    /// Note that a message from `source` was not forwarded.
    Discard { source: EndpointId, reason: DiscardReason },
    /// Stop the relay.
    Stop,
}

impl View for RelayEvent {
    type V = EventView;

    open spec fn view(&self) -> EventView {
        match *self {
            RelayEvent::Payload { source, payload } => EventView::Payload {
                source,
                payload: payload@,
            },
            RelayEvent::ReadEnded { source } => EventView::ReadEnded { source },
            RelayEvent::WriteFailed { destination } => EventView::WriteFailed { destination },
        }
    }
}

impl View for RelayAction {
    type V = ActionView;

    open spec fn view(&self) -> ActionView {
        match *self {
            RelayAction::Send { destination, frame } => ActionView::Send {
                destination,
                frame: frame@,
            },
            RelayAction::Close { endpoint } => ActionView::Close { endpoint },
            RelayAction::Discard { source, reason } => ActionView::Discard { source, reason },
            RelayAction::Stop => ActionView::Stop,
        }
    }
}

/// The actions of a list, each as the contracts see it.
pub open spec fn action_views(actions: Seq<RelayAction>) -> Seq<ActionView> {
    actions.map_values(|action: RelayAction| action@)
}

/// The relay as the contracts see it.
pub struct RelayView {
    /// The byte orders of the two transports.
    pub orders: TransportOrders,
    /// The routing table.
    pub table: TableView,
    /// Whether the relay is still forwarding.
    pub running: bool,
}

/// The relay: the byte orders of its transports, its routing table, and
/// whether it is still forwarding.
#[derive(Debug)]
pub struct Relay {
    orders: TransportOrders,
    table: RoutingTable,
    running: bool,
}

/// The byte order of the frames that go to an endpoint: that of the local
/// stream for the local endpoint, that of the network for a remote one.
pub open spec fn order_for(orders: TransportOrders, destination: EndpointId) -> ByteOrder {
    match destination {
        EndpointId::Local => orders.local_stream,
        EndpointId::Remote(_) => orders.network,
    }
}

/// One frame of `payload` to each of the destinations, in their order, each
/// in the byte order of its transport.
pub open spec fn sends(payload: Seq<u8>, destinations: Seq<EndpointId>, orders: TransportOrders) -> Seq<
    ActionView,
> {
    destinations.map_values(
        |destination: EndpointId|
            ActionView::Send {
                destination,
                frame: frame_bytes(payload, order_for(orders, destination)),
            },
    )
}

/// The order to shut the connection of each of the endpoints, in their order.
pub open spec fn closes(endpoints: Seq<EndpointId>) -> Seq<ActionView> {
    endpoints.map_values(|endpoint: EndpointId| ActionView::Close { endpoint })
}

impl RelayView {
    /// The relay at its start: running, with the local endpoint alone.
    pub open spec fn initial(policy: ForwardingPolicy, orders: TransportOrders) -> RelayView {
        RelayView { orders, table: TableView::initial(policy), running: true }
    }

    /// What every relay satisfies: its routing table is valid.
    pub open spec fn valid(self) -> bool {
        self.table.valid()
    }

    /// Whether the relay takes in a remote endpoint, and if not, why: not
    /// once it has stopped, and else as its routing table decides.
    pub open spec fn admits(self) -> Result<(), RegisterError> {
        if !self.running {
            Err(RegisterError::Stopped)
        } else {
            self.table.admits()
        }
    }

    /// The relay after a remote peer has connected: with the peer on its
    /// routing table where it takes the peer in, as it was where it does not.
    pub open spec fn with_admission(self) -> RelayView {
        match self.admits() {
            Ok(()) => RelayView { table: self.table.with_new_remote(), ..self },
            Err(_) => self,
        }
    }

    /// What the loss of an endpoint leads to.
    ///
    /// The loss of the local endpoint ends the relay: every remote endpoint
    /// leaves the table and has its connection shut, in the order in which
    /// they were added, and the relay stops. The loss of an active remote
    /// endpoint takes it off the table and has its connection shut; under the
    /// point-to-point policy the relay then stops as well, since nobody is
    /// left to forward to, under the broadcast policy it goes on with the
    /// others. The loss of an endpoint that is not active changes nothing.
    pub open spec fn lose(self, endpoint: EndpointId) -> (RelayView, Seq<ActionView>) {
        match endpoint {
            EndpointId::Local => (
                RelayView { table: self.table.without_remotes(), running: false, ..self },
                closes(self.table.route(EndpointId::Local)) + seq![ActionView::Stop],
            ),
            EndpointId::Remote(_) => if self.table.liveness(endpoint) != Liveness::Active {
                (self, Seq::empty())
            } else if self.table.policy == ForwardingPolicy::PointToPoint {
                (
                    RelayView { table: self.table.without(endpoint), running: false, ..self },
                    seq![ActionView::Close { endpoint }, ActionView::Stop],
                )
            } else {
                (
                    RelayView { table: self.table.without(endpoint), ..self },
                    seq![ActionView::Close { endpoint }],
                )
            },
        }
    }

    /// What a payload from `source` leads to.
    ///
    /// A payload from an endpoint that is not active is discarded. A payload
    /// that is not a message is a failure to decode, and the endpoint that
    /// sent it is lost. A message is written anew, as its own payload, and
    /// goes in one frame to each endpoint that the routing table names for
    /// its source; it is discarded where its payload cannot be written, is too
    /// long for a frame, or has nowhere to go.
    pub open spec fn forward(self, source: EndpointId, payload: Seq<u8>) -> (
        RelayView,
        Seq<ActionView>,
    ) {
        if self.table.liveness(source) != Liveness::Active {
            (
                self,
                seq![ActionView::Discard { source, reason: DiscardReason::SourceNotActive }],
            )
        } else {
            match payload_message(payload) {
                None => self.lose(source),
                Some(message) => match message_payload(message) {
                    None => (
                        self,
                        seq![
                            ActionView::Discard {
                                source,
                                reason: DiscardReason::Encoding(FrameError::NotSerializable),
                            },
                        ],
                    ),
                    Some(written) => if written.len() > u32::MAX {
                        (
                            self,
                            seq![
                                ActionView::Discard {
                                    source,
                                    reason: DiscardReason::Encoding(FrameError::FrameTooLarge),
                                },
                            ],
                        )
                    } else if self.table.route(source).len() == 0 {
                        (
                            self,
                            seq![
                                ActionView::Discard { source, reason: DiscardReason::NoDestination },
                            ],
                        )
                    } else {
                        (self, sends(written, self.table.route(source), self.orders))
                    },
                },
            }
        }
    }

    /// The state of the relay after an event, and the actions that it answers
    /// with. A relay that has stopped answers nothing and stays as it is.
    pub open spec fn step(self, event: EventView) -> (RelayView, Seq<ActionView>) {
        if !self.running {
            (self, Seq::empty())
        } else {
            match event {
                EventView::Payload { source, payload } => self.forward(source, payload),
                EventView::ReadEnded { source } => self.lose(source),
                EventView::WriteFailed { destination } => self.lose(destination),
            }
        }
    }
}

/// The views of a list with one more action are the views of the list with
/// the view of that action added.
proof fn lemma_one_more_action(actions: Seq<RelayAction>, action: RelayAction)
    ensures
        action_views(actions.push(action)) == action_views(actions).push(action@),
{
    assert(action_views(actions.push(action)) =~= action_views(actions).push(action@));
}

/// The orders to close one more endpoint.
proof fn lemma_one_more_close(endpoints: Seq<EndpointId>, endpoint: EndpointId)
    ensures
        closes(endpoints.push(endpoint)) == closes(endpoints).push(ActionView::Close { endpoint }),
{
    assert(closes(endpoints.push(endpoint)) =~= closes(endpoints).push(
        ActionView::Close { endpoint },
    ));
}

/// The frames for one more destination.
proof fn lemma_one_more_send(
    payload: Seq<u8>,
    destinations: Seq<EndpointId>,
    destination: EndpointId,
    orders: TransportOrders,
)
    ensures
        sends(payload, destinations.push(destination), orders) == sends(
            payload,
            destinations,
            orders,
        ).push(
            ActionView::Send {
                destination,
                frame: frame_bytes(payload, order_for(orders, destination)),
            },
        ),
{
    assert(sends(payload, destinations.push(destination), orders) =~= sends(
        payload,
        destinations,
        orders,
    ).push(
        ActionView::Send {
            destination,
            frame: frame_bytes(payload, order_for(orders, destination)),
        },
    ));
}

impl View for Relay {
    type V = RelayView;

    closed spec fn view(&self) -> RelayView {
        RelayView { orders: self.orders, table: self.table@, running: self.running }
    }
}

impl Relay {
    /// A relay at its start: running, with the local endpoint alone.
    pub fn new(policy: ForwardingPolicy, orders: TransportOrders) -> (relay: Relay)
        ensures
            relay@ == RelayView::initial(policy, orders),
            relay@.valid(),
    {
        Relay { orders, table: RoutingTable::new(policy), running: true }
    }

    /// Whether the relay is still forwarding.
    pub fn is_running(&self) -> (running: bool)
        ensures
            running == self@.running,
    {
        self.running
    }

    /// The byte orders of the two transports.
    pub fn orders(&self) -> (orders: TransportOrders)
        ensures
            orders == self@.orders,
    {
        self.orders
    }

    /// The routing table.
    pub fn table(&self) -> (table: &RoutingTable)
        ensures
            table@ == self@.table,
            table@.valid(),
    {
        proof {
            use_type_invariant(&self.table);
        }
        &self.table
    }

    /// Takes in a remote peer that has just connected, and gives it the
    /// identity under which its events are to be reported.
    ///
    /// A relay that has stopped takes in nobody, and neither does a routing
    /// table that is occupied or exhausted; then nothing changes.
    pub fn admit_remote(&mut self) -> (result: Result<EndpointId, RegisterError>)
        ensures
            final(self)@.valid(),
            final(self)@ == old(self)@.with_admission(),
            result == match old(self)@.admits() {
                Ok(()) => Ok::<EndpointId, RegisterError>(
                    EndpointId::Remote(old(self)@.table.issued as u64),
                ),
                Err(e) => Err::<EndpointId, RegisterError>(e),
            },
    {
        if !self.running {
            proof {
                use_type_invariant(&self.table);
            }
            return Err(RegisterError::Stopped);
        }
        self.table.register_remote()
    }

    /// The byte order of the frames that go to an endpoint.
    fn order_of(&self, destination: EndpointId) -> (order: ByteOrder)
        ensures
            order == order_for(self@.orders, destination),
    {
        match destination {
            EndpointId::Local => self.orders.local_stream,
            EndpointId::Remote(_) => self.orders.network,
        }
    }

    /// Takes note of the loss of an endpoint.
    fn lose(&mut self, endpoint: EndpointId) -> (actions: Vec<RelayAction>)
        ensures
            final(self)@ == old(self)@.lose(endpoint).0,
            action_views(actions@) == old(self)@.lose(endpoint).1,
            final(self)@.valid(),
    {
        let mut actions: Vec<RelayAction> = Vec::new();
        match endpoint {
            EndpointId::Local => {
                let removed = self.table.deregister_all();
                self.running = false;
                let mut i: usize = 0;
                while i < removed.len()
                    invariant
                        i <= removed@.len(),
                        action_views(actions@) == closes(removed@.subrange(0, i as int)),
                    decreases removed@.len() - i,
                {
                    proof {
                        lemma_one_more_action(actions@, RelayAction::Close { endpoint: removed[i as int] });
                        lemma_one_more_close(removed@.subrange(0, i as int), removed[i as int]);
                        assert(removed@.subrange(0, i as int).push(removed[i as int])
                            =~= removed@.subrange(0, i + 1));
                    }
                    actions.push(RelayAction::Close { endpoint: removed[i] });
                    i = i + 1;
                }
                assert(removed@.subrange(0, i as int) =~= removed@);
                actions.push(RelayAction::Stop);
                assert(action_views(actions@) =~= closes(removed@) + seq![ActionView::Stop]);
            },
            EndpointId::Remote(_) => {
                if self.table.is_active(endpoint) {
                    self.table.deregister(endpoint);
                    actions.push(RelayAction::Close { endpoint });
                    if self.table.policy() == ForwardingPolicy::PointToPoint {
                        self.running = false;
                        actions.push(RelayAction::Stop);
                        assert(action_views(actions@) =~= seq![
                            ActionView::Close { endpoint },
                            ActionView::Stop,
                        ]);
                    } else {
                        assert(action_views(actions@) =~= seq![ActionView::Close { endpoint }]);
                    }
                } else {
                    proof {
                        use_type_invariant(&self.table);
                    }
                    assert(action_views(actions@) =~= Seq::<ActionView>::empty());
                }
            },
        }
        actions
    }

    /// The one action that discards a message.
    fn discard(source: EndpointId, reason: DiscardReason) -> (actions: Vec<RelayAction>)
        ensures
            action_views(actions@) == seq![ActionView::Discard { source, reason }],
    {
        let mut actions: Vec<RelayAction> = Vec::new();
        actions.push(RelayAction::Discard { source, reason });
        assert(action_views(actions@) =~= seq![ActionView::Discard { source, reason }]);
        actions
    }

    /// Forwards a payload that was read from `source`.
    fn forward(&mut self, source: EndpointId, payload: &[u8]) -> (actions: Vec<RelayAction>)
        ensures
            final(self)@ == old(self)@.forward(source, payload@).0,
            action_views(actions@) == old(self)@.forward(source, payload@).1,
            final(self)@.valid(),
    {
        proof {
            use_type_invariant(&self.table);
        }
        if !self.table.is_active(source) {
            return Self::discard(source, DiscardReason::SourceNotActive);
        }
        let message = match Message::from_payload(payload) {
            Ok(message) => message,
            Err(_) => {
                return self.lose(source);
            },
        };
        let written = match message.to_payload() {
            Ok(written) => written,
            Err(_) => {
                return Self::discard(source, DiscardReason::Encoding(FrameError::NotSerializable));
            },
        };
        if let Err(e) = checked_length(written.len()) {
            return Self::discard(source, DiscardReason::Encoding(e));
        }
        let destinations = self.table.destinations(source);
        if destinations.len() == 0 {
            return Self::discard(source, DiscardReason::NoDestination);
        }
        let mut actions: Vec<RelayAction> = Vec::new();
        let mut i: usize = 0;
        while i < destinations.len()
            invariant
                i <= destinations@.len(),
                written@.len() <= u32::MAX,
                action_views(actions@) == sends(
                    written@,
                    destinations@.subrange(0, i as int),
                    self@.orders,
                ),
            decreases destinations@.len() - i,
        {
            let destination = destinations[i];
            match encode_frame(written.as_slice(), self.order_of(destination)) {
                Ok(frame) => {
                    proof {
                        lemma_one_more_action(actions@, RelayAction::Send { destination, frame });
                        lemma_one_more_send(
                            written@,
                            destinations@.subrange(0, i as int),
                            destination,
                            self@.orders,
                        );
                        assert(destinations@.subrange(0, i as int).push(destination)
                            =~= destinations@.subrange(0, i + 1));
                    }
                    actions.push(RelayAction::Send { destination, frame });
                },
                Err(_) => {
                    assert(false);
                },
            }
            i = i + 1;
        }
        assert(destinations@.subrange(0, i as int) =~= destinations@);
        actions
    }

    /// Takes an event from the queue and answers with what is to be done
    /// about it, in the order in which it is to be done.
    ///
    /// A payload that is a message goes, written anew, to every endpoint that
    /// the routing table names for its source, one frame each; a payload that
    /// is not a message counts as the loss of its source. The loss of an
    /// endpoint, by a read that ended or a write that failed, takes it off the
    /// table and has its connection shut; the relay stops with the local
    /// endpoint and, under the point-to-point policy, with its remote one. A
    /// relay that has stopped answers nothing.
    pub fn handle(&mut self, event: RelayEvent) -> (actions: Vec<RelayAction>)
        ensures
            final(self)@ == old(self)@.step(event@).0,
            action_views(actions@) == old(self)@.step(event@).1,
            final(self)@.valid(),
    {
        if !self.running {
            proof {
                use_type_invariant(&self.table);
            }
            let actions: Vec<RelayAction> = Vec::new();
            assert(action_views(actions@) =~= Seq::<ActionView>::empty());
            return actions;
        }
        match event {
            RelayEvent::Payload { source, payload } => self.forward(source, payload.as_slice()),
            RelayEvent::ReadEnded { source } => self.lose(source),
            RelayEvent::WriteFailed { destination } => self.lose(destination),
        }
    }
}

} // verus!
