//! What the relay does over a whole run: the laws that hold of every sequence
//! of events, whichever way the events of different sources interleave.

use vstd::prelude::*;
use crate::byte_order::ByteOrder;
use crate::codec::encoded_message;
use crate::endpoint::{EndpointId, Liveness};
use crate::frame::frame_bytes;
use crate::message::{message_payload, payload_message};
use crate::relay::{ActionView, EventView, RelayView, closes, order_for, sends};
use crate::router::{
    ForwardingPolicy, lemma_deregister_keeps_valid, lemma_liveness_only_advances,
    lemma_never_routes_back, lemma_register_keeps_valid, lemma_route_lists_the_remotes,
    lemma_route_names_nobody_twice, lemma_without_keeps_the_others,
};

verus! {

/// The frame that an action sends to `destination`, if it sends one there.
pub open spec fn frame_to(action: ActionView, destination: EndpointId) -> Seq<Seq<u8>> {
    match action {
        ActionView::Send { destination: to, frame } => if to == destination {
            seq![frame]
        } else {
            Seq::empty()
        },
        _ => Seq::empty(),
    }
}

/// The frames that a list of actions sends to `destination`, in their order.
pub open spec fn frames_to(actions: Seq<ActionView>, destination: EndpointId) -> Seq<Seq<u8>>
    decreases actions.len(),
{
    if actions.len() == 0 {
        Seq::empty()
    } else {
        frames_to(actions.drop_last(), destination) + frame_to(actions.last(), destination)
    }
}

/// One thing that happens to the relay in the course of a run.
pub enum Occurrence {
    /// An event is taken from the queue.
    Event(EventView),
    /// A remote peer connects and asks to be taken in.
    Admission,
}

/// The state of the relay after an occurrence, and the actions that it
/// answers with. An admission is answered with no action.
pub open spec fn occur(state: RelayView, occurrence: Occurrence) -> (RelayView, Seq<ActionView>) {
    match occurrence {
        Occurrence::Event(event) => state.step(event),
        Occurrence::Admission => (state.with_admission(), Seq::empty()),
    }
}

/// The state of the relay after a run.
pub open spec fn state_after(state: RelayView, run: Seq<Occurrence>) -> RelayView
    decreases run.len(),
{
    if run.len() == 0 {
        state
    } else {
        state_after(occur(state, run.first()).0, run.drop_first())
    }
}

/// Whether an occurrence is a payload that came from `source`.
pub open spec fn came_from(occurrence: Occurrence, source: EndpointId) -> bool {
    occurrence matches Occurrence::Event(EventView::Payload { source: from, .. }) && from == source
}

/// The frame in which the message of an occurrence goes out in the given byte
/// order, if the occurrence is a payload from `source` that is a message and
/// can be written as a frame; nothing otherwise.
pub open spec fn offer(occurrence: Occurrence, source: EndpointId, order: ByteOrder) -> Seq<
    Seq<u8>,
> {
    match occurrence {
        Occurrence::Event(EventView::Payload { source: from, payload }) => if from == source {
            match payload_message(payload) {
                Some(message) => match encoded_message(message, order) {
                    Ok(frame) => seq![frame],
                    Err(_) => Seq::empty(),
                },
                None => Seq::empty(),
            }
        } else {
            Seq::empty()
        },
        _ => Seq::empty(),
    }
}

/// The messages that `source` emitted in the course of a run, each as the
/// frame in which it goes out in the given byte order, in the order in which
/// they were received.
pub open spec fn offered(run: Seq<Occurrence>, source: EndpointId, order: ByteOrder) -> Seq<
    Seq<u8>,
>
    decreases run.len(),
{
    if run.len() == 0 {
        Seq::empty()
    } else {
        offer(run.first(), source, order) + offered(run.drop_first(), source, order)
    }
}

/// The frames that the relay sent to `destination` for the messages that came
/// from `source`, in the course of a run, in the order in which it sent them.
pub open spec fn forwarded(
    state: RelayView,
    run: Seq<Occurrence>,
    source: EndpointId,
    destination: EndpointId,
) -> Seq<Seq<u8>>
    decreases run.len(),
{
    if run.len() == 0 {
        Seq::empty()
    } else {
        let (next, actions) = occur(state, run.first());
        let now = if came_from(run.first(), source) {
            frames_to(actions, destination)
        } else {
            Seq::empty()
        };
        now + forwarded(next, run.drop_first(), source, destination)
    }
}

/// Whether `part` is made of elements of `whole` in the order in which they
/// stand in `whole`: whether `whole` becomes `part` by leaving elements out.
pub open spec fn is_subsequence<A>(part: Seq<A>, whole: Seq<A>) -> bool
    decreases whole.len(),
{
    if part.len() == 0 {
        true
    } else if whole.len() == 0 {
        false
    } else {
        ||| part.first() == whole.first() && is_subsequence(part.drop_first(), whole.drop_first())
        ||| is_subsequence(part, whole.drop_first())
    }
}

/// A list of actions none of which sends to `destination` sends no frame
/// there.
proof fn lemma_no_frames(actions: Seq<ActionView>, destination: EndpointId)
    requires
        forall|i: int| 0 <= i < actions.len() ==> frame_to(#[trigger] actions[i], destination).len() == 0,
    ensures
        frames_to(actions, destination) == Seq::<Seq<u8>>::empty(),
    decreases actions.len(),
{
    if actions.len() > 0 {
        let front = actions.drop_last();
        assert forall|i: int| 0 <= i < front.len() implies frame_to(
            #[trigger] front[i],
            destination,
        ).len() == 0 by {
            assert(front[i] == actions[i]);
        }
        lemma_no_frames(front, destination);
        assert(frame_to(actions.last(), destination).len() == 0);
        assert(frames_to(actions, destination) =~= Seq::<Seq<u8>>::empty());
    }
}

/// Frames to destinations none of which is named twice: one frame goes to
/// each destination named, none to any other.
proof fn lemma_frames_of_sends(
    payload: Seq<u8>,
    destinations: Seq<EndpointId>,
    orders: crate::codec::TransportOrders,
    destination: EndpointId,
)
    requires
        destinations.no_duplicates(),
    ensures
        frames_to(sends(payload, destinations, orders), destination) == if destinations.contains(
            destination,
        ) {
            seq![frame_bytes(payload, order_for(orders, destination))]
        } else {
            Seq::<Seq<u8>>::empty()
        },
    decreases destinations.len(),
{
    let all = sends(payload, destinations, orders);
    if destinations.len() == 0 {
        assert(!destinations.contains(destination));
    } else {
        let front = destinations.drop_last();
        assert(all.drop_last() =~= sends(payload, front, orders));
        assert forall|i: int, j: int|
            0 <= i < front.len() && 0 <= j < front.len() && i != j implies front[i] != front[j] by {
            assert(front[i] == destinations[i] && front[j] == destinations[j]);
        }
        lemma_frames_of_sends(payload, front, orders, destination);
        if destinations.last() == destination {
            if front.contains(destination) {
                let i = front.index_of(destination);
                assert(destinations[i] == destinations[destinations.len() - 1]);
            }
            assert(destinations[destinations.len() - 1] == destination);
            assert(frames_to(all, destination) =~= seq![
                frame_bytes(payload, order_for(orders, destination)),
            ]);
        } else {
            if front.contains(destination) {
                let i = front.index_of(destination);
                assert(destinations[i] == destination);
            }
            if destinations.contains(destination) {
                let i = destinations.index_of(destination);
                assert(front[i] == destination);
            }
            assert(frames_to(all, destination) =~= frames_to(all.drop_last(), destination));
        }
    }
}

/// The loss of an endpoint sends no frame to anybody.
proof fn lemma_loss_sends_nothing(state: RelayView, endpoint: EndpointId, destination: EndpointId)
    ensures
        frames_to(state.lose(endpoint).1, destination) == Seq::<Seq<u8>>::empty(),
{
    let actions = state.lose(endpoint).1;
    assert forall|i: int| 0 <= i < actions.len() implies frame_to(
        #[trigger] actions[i],
        destination,
    ).len() == 0 by {
        if endpoint == EndpointId::Local {
            let shut = closes(state.table.route(EndpointId::Local));
            if i < shut.len() {
                assert(actions[i] == shut[i]);
            }
        }
    }
    lemma_no_frames(actions, destination);
}

/// Whether the relay, in this state, forwards a payload from `source` to
/// `destination`: it is running, the source is active, the payload is a
/// message that can be written as a frame, and the routing table names the
/// destination for the source.
pub open spec fn delivers(
    state: RelayView,
    source: EndpointId,
    payload: Seq<u8>,
    destination: EndpointId,
) -> bool {
    &&& state.running
    &&& state.table.liveness(source) == Liveness::Active
    &&& state.table.route(source).contains(destination)
    &&& payload_message(payload) matches Some(message)
    &&& encoded_message(message, order_for(state.orders, destination)) is Ok
}

/// What one payload leads to at one destination: where the relay delivers,
/// exactly one frame, which is that of the message written anew, in the byte
/// order of the destination; where it does not, nothing.
pub proof fn lemma_one_frame_per_message(
    state: RelayView,
    source: EndpointId,
    payload: Seq<u8>,
    destination: EndpointId,
)
    requires
        state.valid(),
    ensures
        frames_to(state.step(EventView::Payload { source, payload }).1, destination) == if delivers(
            state,
            source,
            payload,
            destination,
        ) {
            offer(
                Occurrence::Event(EventView::Payload { source, payload }),
                source,
                order_for(state.orders, destination),
            )
        } else {
            Seq::<Seq<u8>>::empty()
        },
        delivers(state, source, payload, destination) ==> offer(
            Occurrence::Event(EventView::Payload { source, payload }),
            source,
            order_for(state.orders, destination),
        ).len() == 1,
{
    let actions = state.step(EventView::Payload { source, payload }).1;
    let nothing = Seq::<Seq<u8>>::empty();
    if !state.running {
        lemma_no_frames(actions, destination);
    } else if state.table.liveness(source) != Liveness::Active {
        lemma_no_frames(actions, destination);
    } else {
        match payload_message(payload) {
            None => {
                lemma_loss_sends_nothing(state, source, destination);
            },
            Some(message) => match message_payload(message) {
                None => {
                    lemma_no_frames(actions, destination);
                },
                Some(written) => {
                    if written.len() > u32::MAX {
                        lemma_no_frames(actions, destination);
                    } else if state.table.route(source).len() == 0 {
                        lemma_no_frames(actions, destination);
                        assert(!state.table.route(source).contains(destination));
                    } else {
                        lemma_route_names_nobody_twice(state.table, source);
                        lemma_frames_of_sends(
                            written,
                            state.table.route(source),
                            state.orders,
                            destination,
                        );
                    }
                },
            },
        }
    }
}

/// A step leaves a valid relay valid and its byte orders as they are.
pub proof fn lemma_step_keeps_valid(state: RelayView, event: EventView)
    requires
        state.valid(),
    ensures
        state.step(event).0.valid(),
        state.step(event).0.orders == state.orders,
        state.step(event).0.table.policy == state.table.policy,
        !state.running ==> !state.step(event).0.running,
{
    let lost = match event {
        EventView::Payload { source, .. } => source,
        EventView::ReadEnded { source } => source,
        EventView::WriteFailed { destination } => destination,
    };
    lemma_deregister_keeps_valid(state.table, lost);
}

/// An occurrence leaves a valid relay valid and its byte orders as they are,
/// and no endpoint goes back by it: each is afterwards in the state it was in
/// or further along, and the local endpoint is active throughout.
pub proof fn lemma_occurrence_keeps_valid(
    state: RelayView,
    occurrence: Occurrence,
    endpoint: EndpointId,
)
    requires
        state.valid(),
    ensures
        occur(state, occurrence).0.valid(),
        occur(state, occurrence).0.orders == state.orders,
        occur(state, occurrence).0.table.policy == state.table.policy,
        state.table.liveness(endpoint).can_become(
            occur(state, occurrence).0.table.liveness(endpoint),
        ),
        occur(state, occurrence).0.table.liveness(EndpointId::Local) == Liveness::Active,
{
    match occurrence {
        Occurrence::Event(event) => {
            lemma_step_keeps_valid(state, event);
            let lost = match event {
                EventView::Payload { source, .. } => source,
                EventView::ReadEnded { source } => source,
                EventView::WriteFailed { destination } => destination,
            };
            lemma_liveness_only_advances(state.table, endpoint, lost);
        },
        Occurrence::Admission => {
            if state.admits() is Ok {
                lemma_register_keeps_valid(state.table);
            }
            lemma_liveness_only_advances(state.table, endpoint, EndpointId::Local);
        },
    }
}

/// Closed is final. In the course of any run no endpoint goes back: one that
/// is closed stays closed, one that is active does not start connecting
/// again, and the local endpoint is active from beginning to end.
pub proof fn lemma_no_endpoint_comes_back(
    state: RelayView,
    run: Seq<Occurrence>,
    endpoint: EndpointId,
)
    requires
        state.valid(),
    ensures
        state_after(state, run).valid(),
        state.table.liveness(endpoint).can_become(state_after(state, run).table.liveness(endpoint)),
        state.table.liveness(endpoint) == Liveness::Closed ==> state_after(
            state,
            run,
        ).table.liveness(endpoint) == Liveness::Closed,
        state_after(state, run).table.liveness(EndpointId::Local) == Liveness::Active,
    decreases run.len(),
{
    if run.len() > 0 {
        lemma_occurrence_keeps_valid(state, run.first(), endpoint);
        lemma_no_endpoint_comes_back(occur(state, run.first()).0, run.drop_first(), endpoint);
    }
}

/// Adding an element in front of the whole keeps a subsequence one.
proof fn lemma_subsequence_skip<A>(part: Seq<A>, head: Seq<A>, whole: Seq<A>)
    requires
        is_subsequence(part, whole),
        head.len() <= 1,
    ensures
        is_subsequence(part, head + whole),
{
    if head.len() == 0 {
        assert(head + whole =~= whole);
    } else {
        assert((head + whole).drop_first() =~= whole);
    }
}

/// Adding the same element in front of both keeps a subsequence one.
proof fn lemma_subsequence_both<A>(head: Seq<A>, part: Seq<A>, whole: Seq<A>)
    requires
        is_subsequence(part, whole),
        head.len() == 1,
    ensures
        is_subsequence(head + part, head + whole),
{
    assert((head + whole).drop_first() =~= whole);
    assert((head + part).drop_first() =~= part);
    assert((head + part).first() == (head + whole).first());
}

/// Per-source ordering. Whatever happens in the course of a run and however
/// the sources interleave in it, the frames that reach a destination for the
/// messages of one source are frames of messages that this source emitted,
/// and they reach the destination in the order in which the source emitted
/// them: none comes twice, none overtakes another. A destination that gets
/// the first, the second and the third message of a source gets them in that
/// order.
pub proof fn lemma_per_source_order(
    state: RelayView,
    run: Seq<Occurrence>,
    source: EndpointId,
    destination: EndpointId,
)
    requires
        state.valid(),
    ensures
        is_subsequence(
            forwarded(state, run, source, destination),
            offered(run, source, order_for(state.orders, destination)),
        ),
    decreases run.len(),
{
    if run.len() > 0 {
        let first = run.first();
        let rest = run.drop_first();
        let next = occur(state, first).0;
        let order = order_for(state.orders, destination);
        lemma_occurrence_keeps_valid(state, first, source);
        lemma_per_source_order(next, rest, source, destination);
        let later = forwarded(next, rest, source, destination);
        let later_offered = offered(rest, source, order);
        let head = offer(first, source, order);
        match first {
            Occurrence::Event(EventView::Payload { source: from, payload }) => {
                if from == source {
                    lemma_one_frame_per_message(state, source, payload, destination);
                    if delivers(state, source, payload, destination) {
                        lemma_subsequence_both(head, later, later_offered);
                    } else {
                        lemma_subsequence_skip(later, head, later_offered);
                        assert(Seq::<Seq<u8>>::empty() + later =~= later);
                    }
                } else {
                    assert(Seq::<Seq<u8>>::empty() + later =~= later);
                    assert(head + later_offered =~= later_offered);
                }
            },
            _ => {
                assert(Seq::<Seq<u8>>::empty() + later =~= later);
                assert(head + later_offered =~= later_offered);
            },
        }
    }
}

/// No self-routing. Whatever the state of the relay and whatever the policy,
/// a payload leads to no frame for the endpoint that it came from.
pub proof fn lemma_nothing_goes_back(state: RelayView, source: EndpointId, payload: Seq<u8>)
    requires
        state.valid(),
    ensures
        frames_to(state.step(EventView::Payload { source, payload }).1, source) == Seq::<
            Seq<u8>,
        >::empty(),
{
    lemma_one_frame_per_message(state, source, payload, source);
    lemma_never_routes_back(state.table, source);
}

/// Broadcast isolation. Under the broadcast policy the loss of one remote
/// endpoint, by a write that failed or a read that ended, leaves the relay
/// running, and every other remote endpoint gets of each later message from
/// the local endpoint exactly the frame that it would have got without the
/// loss.
pub proof fn lemma_broadcast_outlives_a_peer(
    state: RelayView,
    lost: u64,
    other: u64,
    payload: Seq<u8>,
)
    requires
        state.valid(),
        state.running,
        state.table.policy == ForwardingPolicy::Broadcast,
        state.table.liveness(EndpointId::Remote(lost)) == Liveness::Active,
        other != lost,
    ensures
        state.step(EventView::WriteFailed { destination: EndpointId::Remote(lost) })
            == state.step(EventView::ReadEnded { source: EndpointId::Remote(lost) }),
        state.step(EventView::WriteFailed { destination: EndpointId::Remote(lost) }).1 == seq![
            ActionView::Close { endpoint: EndpointId::Remote(lost) },
        ],
        ({
            let after = state.step(
                EventView::WriteFailed { destination: EndpointId::Remote(lost) },
            ).0;
            let event = EventView::Payload { source: EndpointId::Local, payload };
            &&& after.running
            &&& after.valid()
            &&& after.table.liveness(EndpointId::Remote(other)) == state.table.liveness(
                EndpointId::Remote(other),
            )
            &&& frames_to(after.step(event).1, EndpointId::Remote(other)) == frames_to(
                state.step(event).1,
                EndpointId::Remote(other),
            )
            &&& frames_to(after.step(event).1, EndpointId::Remote(lost)) == Seq::<
                Seq<u8>,
            >::empty()
        }),
{
    let gone = EndpointId::Remote(lost);
    let after = state.step(EventView::WriteFailed { destination: gone }).0;
    lemma_step_keeps_valid(state, EventView::WriteFailed { destination: gone });
    lemma_without_keeps_the_others(state.table, gone, other);
    lemma_without_keeps_the_others(state.table, gone, lost);
    lemma_route_lists_the_remotes(state.table, other);
    lemma_route_lists_the_remotes(after.table, other);
    lemma_route_lists_the_remotes(after.table, lost);
    lemma_one_frame_per_message(state, EndpointId::Local, payload, EndpointId::Remote(other));
    lemma_one_frame_per_message(after, EndpointId::Local, payload, EndpointId::Remote(other));
    lemma_one_frame_per_message(after, EndpointId::Local, payload, gone);
    if state.table.remotes.contains(other) {
        let i = state.table.remotes.index_of(other);
        assert(state.table.remotes[i] < state.table.issued);
    }
}

/// One frame for all. The frames that one message from the local endpoint
/// leads to are the same for every remote endpoint, byte for byte.
pub proof fn lemma_broadcast_frames_are_identical(
    state: RelayView,
    payload: Seq<u8>,
    first: u64,
    second: u64,
)
    requires
        state.valid(),
        delivers(state, EndpointId::Local, payload, EndpointId::Remote(first)),
        delivers(state, EndpointId::Local, payload, EndpointId::Remote(second)),
    ensures
        frames_to(
            state.step(EventView::Payload { source: EndpointId::Local, payload }).1,
            EndpointId::Remote(first),
        ) == frames_to(
            state.step(EventView::Payload { source: EndpointId::Local, payload }).1,
            EndpointId::Remote(second),
        ),
        frames_to(
            state.step(EventView::Payload { source: EndpointId::Local, payload }).1,
            EndpointId::Remote(first),
        ).len() == 1,
{
    lemma_one_frame_per_message(state, EndpointId::Local, payload, EndpointId::Remote(first));
    lemma_one_frame_per_message(state, EndpointId::Local, payload, EndpointId::Remote(second));
}

} // verus!
