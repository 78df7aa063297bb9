//! The synchronous exchange: one request on the wire at a time.
//!
//! Where the remote side answers each message before it takes the next, the
//! frames for it pass through an exchange on their way out. The exchange lets
//! one frame through and holds back all later ones until the answer to that
//! frame has come in; then it lets the next one through. Frames leave in the
//! order in which they came, and none is lost.

use vstd::prelude::*;

verus! {

/// The exchange as the contracts see it.
pub struct ExchangeView {
    /// Whether a frame is out and its answer has not come in yet.
    pub awaiting: bool,
    /// The frames that are held back, the oldest first.
    pub held: Seq<Seq<u8>>,
}

/// What happens at an exchange, one event at a time.
pub enum ExchangeEvent {
    /// A frame is handed in, to be written.
    Submit(Seq<u8>),
    /// An answer has come in.
    Reply,
}

/// An exchange.
#[derive(Debug)]
pub struct Exchange {
    awaiting: bool,
    held: Vec<Vec<u8>>,
}

/// The contents of a list of frames.
pub open spec fn frame_views(frames: Seq<Vec<u8>>) -> Seq<Seq<u8>> {
    frames.map_values(|frame: Vec<u8>| frame@)
}

/// A frame that may or may not be there, as a list of one frame or none.
pub open spec fn released_now(frame: Option<Seq<u8>>) -> Seq<Seq<u8>> {
    match frame {
        Some(frame) => seq![frame],
        None => Seq::empty(),
    }
}

impl ExchangeView {
    /// An exchange with nothing out and nothing held back.
    pub open spec fn initial() -> ExchangeView {
        ExchangeView { awaiting: false, held: Seq::empty() }
    }

    /// What every exchange satisfies: frames are held back only while one is
    /// out.
    pub open spec fn valid(self) -> bool {
        !self.awaiting ==> self.held.len() == 0
    }

    /// What handing in a frame leads to: while nothing is out, the frame goes
    /// out at once; while one is out, the frame is held back behind those that
    /// are held back already.
    pub open spec fn submit(self, frame: Seq<u8>) -> (ExchangeView, Option<Seq<u8>>) {
        if self.awaiting {
            (ExchangeView { held: self.held.push(frame), ..self }, None)
        } else {
            (ExchangeView { awaiting: true, ..self }, Some(frame))
        }
    }

    /// What an answer leads to: the oldest frame that is held back goes out,
    /// if there is one; otherwise nothing is out any more. An answer that
    /// nobody waits for changes nothing.
    pub open spec fn reply(self) -> (ExchangeView, Option<Seq<u8>>) {
        if self.awaiting && self.held.len() > 0 {
            (ExchangeView { held: self.held.drop_first(), ..self }, Some(self.held.first()))
        } else {
            (ExchangeView { awaiting: false, ..self }, None)
        }
    }

    /// What one event leads to.
    pub open spec fn step(self, event: ExchangeEvent) -> (ExchangeView, Option<Seq<u8>>) {
        match event {
            ExchangeEvent::Submit(frame) => self.submit(frame),
            ExchangeEvent::Reply => self.reply(),
        }
    }

    /// The exchange after a sequence of events.
    pub open spec fn after(self, events: Seq<ExchangeEvent>) -> ExchangeView
        decreases events.len(),
    {
        if events.len() == 0 {
            self
        } else {
            self.step(events.first()).0.after(events.drop_first())
        }
    }

    /// The frames that go out over a sequence of events, in their order.
    pub open spec fn released(self, events: Seq<ExchangeEvent>) -> Seq<Seq<u8>>
        decreases events.len(),
    {
        if events.len() == 0 {
            Seq::empty()
        } else {
            released_now(self.step(events.first()).1) + self.step(events.first()).0.released(
                events.drop_first(),
            )
        }
    }
}

/// The frames that are handed in over a sequence of events, in their order.
pub open spec fn submitted(events: Seq<ExchangeEvent>) -> Seq<Seq<u8>>
    decreases events.len(),
{
    if events.len() == 0 {
        Seq::empty()
    } else {
        (match events.first() {
            ExchangeEvent::Submit(frame) => seq![frame],
            ExchangeEvent::Reply => Seq::empty(),
        }) + submitted(events.drop_first())
    }
}

/// Whether no event of a sequence is an answer.
pub open spec fn no_reply_among(events: Seq<ExchangeEvent>) -> bool {
    forall|i: int| 0 <= i < events.len() ==> (#[trigger] events[i]) != ExchangeEvent::Reply
}

impl View for Exchange {
    type V = ExchangeView;

    closed spec fn view(&self) -> ExchangeView {
        ExchangeView { awaiting: self.awaiting, held: frame_views(self.held@) }
    }
}

impl Exchange {
    #[verifier::type_invariant]
    closed spec fn well_formed(self) -> bool {
        self@.valid()
    }

    /// An exchange with nothing out and nothing held back.
    pub fn new() -> (exchange: Exchange)
        ensures
            exchange@ == ExchangeView::initial(),
            exchange@.valid(),
    {
        let exchange = Exchange { awaiting: false, held: Vec::new() };
        assert(frame_views(exchange.held@) =~= Seq::<Seq<u8>>::empty());
        exchange
    }

    /// Whether a frame is out and its answer has not come in yet.
    pub fn is_awaiting(&self) -> (awaiting: bool)
        ensures
            awaiting == self@.awaiting,
    {
        self.awaiting
    }

    /// The number of frames that are held back.
    pub fn held_count(&self) -> (count: usize)
        ensures
            count == self@.held.len(),
    {
        self.held.len()
    }

    /// Moves the held frames out of the exchange, which is left without any,
    /// for the caller to change the list and put it back.
    fn take_held(&mut self) -> (held: Vec<Vec<u8>>)
        ensures
            frame_views(held@) == old(self)@.held,
            final(self)@ == (ExchangeView { held: Seq::empty(), ..old(self)@ }),
    {
        let mut emptied = Exchange { awaiting: self.awaiting, held: Vec::new() };
        assert(frame_views(emptied.held@) =~= Seq::<Seq<u8>>::empty());
        core::mem::swap(self, &mut emptied);
        emptied.held
    }

    /// Hands in a frame that is to be written.
    ///
    /// While nothing is out, the frame comes straight back, to be written
    /// now. While a frame is out, this one is held back, behind those that
    /// are held back already, and nothing is to be written.
    pub fn submit(&mut self, frame: Vec<u8>) -> (now: Option<Vec<u8>>)
        ensures
            final(self)@ == old(self)@.submit(frame@).0,
            final(self)@.valid(),
            match old(self)@.submit(frame@).1 {
                Some(out) => now matches Some(bytes) && bytes@ == out,
                None => now is None,
            },
    {
        if self.awaiting {
            let mut held = self.take_held();
            proof {
                assert(frame_views(held@.push(frame)) =~= frame_views(held@).push(frame@));
            }
            held.push(frame);
            self.held = held;
            None
        } else {
            proof {
                use_type_invariant(&*self);
            }
            self.awaiting = true;
            Some(frame)
        }
    }

    /// Takes note that an answer has come in.
    ///
    /// The oldest frame that is held back comes out, to be written now. If
    /// none is held back, nothing is out any more, and the next frame that is
    /// handed in goes straight through.
    pub fn reply_received(&mut self) -> (now: Option<Vec<u8>>)
        ensures
            final(self)@ == old(self)@.reply().0,
            final(self)@.valid(),
            match old(self)@.reply().1 {
                Some(out) => now matches Some(bytes) && bytes@ == out,
                None => now is None,
            },
    {
        proof {
            use_type_invariant(&*self);
        }
        if self.awaiting && self.held.len() > 0 {
            let mut held = self.take_held();
            proof {
                assert(frame_views(held@.remove(0)) =~= frame_views(held@).drop_first());
            }
            let next = held.remove(0);
            self.held = held;
            Some(next)
        } else {
            self.awaiting = false;
            None
        }
    }
}

/// Nothing is lost and nothing overtakes. Over any sequence of events, the
/// frames that were held back at the start, followed by the frames handed in,
/// are the frames that went out, followed by the frames held back at the end:
/// every frame goes out once or is still held, and the frames go out in the
/// order in which they came.
pub proof fn lemma_exchange_is_first_in_first_out(state: ExchangeView, events: Seq<ExchangeEvent>)
    requires
        state.valid(),
    ensures
        state.after(events).valid(),
        state.released(events) + state.after(events).held == state.held + submitted(events),
    decreases events.len(),
{
    if events.len() == 0 {
        assert(state.released(events) + state.after(events).held =~= state.held + submitted(
            events,
        ));
    } else {
        let (next, out) = state.step(events.first());
        let rest = events.drop_first();
        lemma_exchange_is_first_in_first_out(next, rest);
        let tail = next.released(rest) + next.after(rest).held;
        assert(tail == next.held + submitted(rest));
        assert(state.released(events) + state.after(events).held =~= released_now(out) + tail);
        assert(released_now(out) + (next.held + submitted(rest)) =~= state.held + submitted(
            events,
        ));
    }
}

/// One request at a time. While a frame is out and no answer comes in, nothing
/// else goes out, whatever is handed in.
pub proof fn lemma_nothing_goes_out_before_the_reply(
    state: ExchangeView,
    events: Seq<ExchangeEvent>,
)
    requires
        state.awaiting,
        no_reply_among(events),
    ensures
        state.released(events) == Seq::<Seq<u8>>::empty(),
        state.after(events).awaiting,
    decreases events.len(),
{
    if events.len() > 0 {
        let next = state.step(events.first()).0;
        let rest = events.drop_first();
        assert(events[0] != ExchangeEvent::Reply);
        assert forall|i: int| 0 <= i < rest.len() implies (#[trigger] rest[i])
            != ExchangeEvent::Reply by {
            assert(rest[i] == events[i + 1]);
        }
        lemma_nothing_goes_out_before_the_reply(next, rest);
        assert(state.released(events) =~= Seq::<Seq<u8>>::empty());
    }
}

} // verus!
