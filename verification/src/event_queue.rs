//! The ordered accumulator of events produced during a dispatch.

use vstd::prelude::*;
use crate::cascade::started;
use crate::cascade::Cascade;
use crate::cascade::ROUND_LIMIT;
use crate::layer::AnyLayer;
use crate::layer::LockPoisoned;
use crate::registry::fan_out_stops;
use crate::registry::fans_out;
use crate::registry::some_refuses;
use crate::registry::LayerReg;

verus! {

/// `From<T> for T`: the conversion of a value into its own type returns it
/// unchanged.
pub assume_specification<Same>[ <Same as From<Same>>::from ](value: Same) -> (same: Same)
    ensures
        same == value,
;

/// An ordered, growable sequence of events of one type.
pub struct EventQueue<E>(Vec<E>);

/// Whether `produced` can be what one round yields that hands the events of
/// `pending`, one after the other, to the layers of `layers`: the reactions to
/// the first event, then those to the second, and so on. (The reactions to the
/// last event are what `produced` holds from some position on.)
pub open spec fn round_yields<E: Send + Sync>(
    layers: Seq<AnyLayer<E>>,
    pending: Seq<E>,
    produced: Seq<E>,
) -> bool
    decreases pending.len(),
{
    if pending.len() == 0 {
        produced == Seq::<E>::empty()
    } else {
        exists|cut: int|
            0 <= cut <= produced.len() && round_yields(
                layers,
                pending.drop_last(),
                #[trigger] produced.take(cut),
            ) && fans_out(layers, pending.last(), Seq::empty(), produced.skip(cut))
    }
}

/// A round over one more event yields what the round over the events before
/// it yields, and then the reactions to that event.
proof fn lemma_round_step<E: Send + Sync>(
    layers: Seq<AnyLayer<E>>,
    pending: Seq<E>,
    earlier: Seq<E>,
    reactions: Seq<E>,
)
    requires
        pending.len() > 0,
        round_yields(layers, pending.drop_last(), earlier),
        fans_out(layers, pending.last(), Seq::empty(), reactions),
    ensures
        round_yields(layers, pending, earlier + reactions),
{
    let produced = earlier + reactions;
    assert(produced.take(earlier.len() as int) =~= earlier);
    assert(produced.skip(earlier.len() as int) =~= reactions);
}

/// A round over one event yields what handing that event to the layers
/// yields: no more and no less.
pub proof fn law_round_of_one<E: Send + Sync>(
    layers: Seq<AnyLayer<E>>,
    event: E,
    produced: Seq<E>,
)
    ensures
        round_yields(layers, seq![event], produced) <==> fans_out(
            layers,
            event,
            Seq::empty(),
            produced,
        ),
{
    reveal_with_fuel(round_yields, 2);
    let pending = seq![event];
    assert(pending.drop_last() =~= Seq::<E>::empty());
    if round_yields(layers, pending, produced) {
        let cut = choose|cut: int|
            0 <= cut <= produced.len() && round_yields(
                layers,
                pending.drop_last(),
                #[trigger] produced.take(cut),
            ) && fans_out(layers, pending.last(), Seq::empty(), produced.skip(cut));
        assert(produced.take(cut) == Seq::<E>::empty());
        assert(produced.skip(cut) =~= produced);
    }
    if fans_out(layers, event, Seq::empty(), produced) {
        assert(produced.take(0) =~= Seq::<E>::empty());
        assert(produced.skip(0) =~= produced);
    }
}

/// Without layers a round yields nothing, whatever is pending.
pub proof fn law_no_layers_no_reactions<E: Send + Sync>(
    layers: Seq<AnyLayer<E>>,
    pending: Seq<E>,
    produced: Seq<E>,
)
    requires
        layers.len() == 0,
        round_yields(layers, pending, produced),
    ensures
        produced == Seq::<E>::empty(),
    decreases pending.len(),
{
    if pending.len() > 0 {
        let cut = choose|cut: int|
            0 <= cut <= produced.len() && round_yields(
                layers,
                pending.drop_last(),
                #[trigger] produced.take(cut),
            ) && fans_out(layers, pending.last(), Seq::empty(), produced.skip(cut));
        law_no_layers_no_reactions(layers, pending.drop_last(), produced.take(cut));
        assert(produced =~= produced.take(cut) + produced.skip(cut));
    }
}

/// Whether `rounds` can be the reactions of the rounds of a cascade that
/// starts from `initial` on the layers of `layers`: each round hands out the
/// events that are pending after the rounds before it.
pub open spec fn cascades<E: Send + Sync>(
    layers: Seq<AnyLayer<E>>,
    initial: Seq<E>,
    rounds: Seq<Seq<E>>,
) -> bool {
    forall|k: int|
        0 <= k < rounds.len() ==> round_yields(
            layers,
            (#[trigger] started(initial).after_all(rounds.take(k))).pending,
            rounds[k],
        )
}

impl<E> View for EventQueue<E> {
    type V = Seq<E>;

    /// The events, oldest first.
    closed spec fn view(&self) -> Seq<E> {
        self.0@
    }
}

impl<E> EventQueue<E> {
    /// An empty queue.
    pub fn new() -> (queue: Self)
        ensures
            queue@ == Seq::<E>::empty(),
    {
        EventQueue(Vec::new())
    }

    /// Appends what `event` converts into at the end of the queue; an event
    /// of the queue's own type goes in as it is.
    pub fn push<T: Into<E>>(&mut self, event: T)
        ensures
            final(self)@.len() == old(self)@.len() + 1,
            final(self)@.drop_last() == old(self)@,
            call_ensures(<T as Into<E>>::into, (event,), final(self)@.last()),
    {
        let converted: E = event.into();
        self.0.push(converted);
    }

    /// The events in the order in which they were pushed.
    pub fn slice(&self) -> (events: &[E])
        ensures
            events@ == self@,
    {
        self.0.as_slice()
    }

    /// The number of events.
    pub fn len(&self) -> (len: usize)
        ensures
            len == self@.len(),
    {
        self.0.len()
    }

    /// The event at position `at`, if there are so many.
    pub fn get(&self, at: usize) -> (event: Option<&E>)
        ensures
            match event {
                Some(event) => at < self@.len() && *event == self@[at as int],
                None => at >= self@.len(),
            },
    {
        if at < self.0.len() {
            Some(&self.0[at])
        } else {
            None
        }
    }

    /// Moves the events of `other` to the end of this queue and leaves
    /// `other` empty.
    pub fn append(&mut self, other: &mut EventQueue<E>)
        ensures
            final(self)@ == old(self)@ + old(other)@,
            final(other)@ == Seq::<E>::empty(),
    {
        self.0.append(&mut other.0);
    }

    /// Runs the cascade that starts from these events: each round hands every
    /// pending event to every layer of `on` and collects the reactions, which
    /// are the pending events of the next round, until a round yields nothing
    /// or the round limit is reached. Returns the cascade as it then stands.
    ///
    /// What a layer answers is its own affair. The contract says what is made
    /// of the answers: there are the reactions of as many rounds as were run,
    /// each of them is what a round over the events then pending can yield,
    /// and the result is the state that these reactions lead to. Without
    /// events no round is run, and without layers the one round yields
    /// nothing.
    ///
    /// The cascade ends at once when the lock of a layer is found poisoned:
    /// the failure comes back, and what was answered until then is lost.
    pub fn cascade(self, on: &mut LayerReg<E>) -> (outcome: Result<Cascade<E>, LockPoisoned>) where
        E: Send + Sync,

        ensures
            final(on)@ == old(on)@,
            final(on).wf(),
            match outcome {
                Ok(cascade) => {
                    &&& !cascade@.active()
                    &&& cascade@.bounded()
                    &&& exists|rounds: Seq<Seq<E>>|
                        rounds.len() == cascade@.rounds && cascade@ == #[trigger] started(
                            self@,
                        ).after_all(rounds) && cascades(old(on)@, self@, rounds)
                    &&& self@.len() == 0 ==> cascade@ == started(self@)
                    &&& old(on)@.len() == 0 ==> cascade@.answers == Seq::<E>::empty()
                },
                Err(_) => some_refuses(old(on)@),
            },
            self@.len() == 0 || old(on)@.len() == 0 ==> outcome is Ok,
    {
        let mut cascade = Cascade::start(self);
        let ghost mut rounds: Seq<Seq<E>> = Seq::empty();
        while cascade.is_active()
            invariant
                on@ == old(on)@,
                cascade@.bounded(),
                rounds.len() == cascade@.rounds,
                cascade@ == started(self@).after_all(rounds),
                cascades(on@, self@, rounds),
                self@.len() == 0 ==> cascade@ == started(self@),
                on@.len() == 0 ==> cascade@.answers == Seq::<E>::empty(),
            decreases ROUND_LIMIT - cascade@.rounds,
        {
            let mut produced = EventQueue::new();
            let count = cascade.pending_len();
            let mut i: usize = 0;
            while i < count
                invariant
                    on@ == old(on)@,
                    self@.len() > 0,
                    i <= count,
                    count == cascade@.pending.len(),
                    round_yields(on@, cascade@.pending.take(i as int), produced@),
                    on@.len() == 0 ==> produced@ == Seq::<E>::empty(),
                decreases count - i,
            {
                let ghost earlier = produced@;
                let ghost reactions = Seq::<E>::empty();
                match cascade.pending_event(i) {
                    Some(event) => {
                        match on.fan_out(event) {
                            Ok(answered) => {
                                let mut answered = answered;
                                proof {
                                    reactions = answered@;
                                }
                                produced.append(&mut answered);
                            },
                            Err(failure) => {
                                proof {
                                    let at = choose|at: int| #[trigger]
                                        fan_out_stops(on@, *event, at);
                                    assert(on@[at].refuses());
                                }
                                return Err(failure);
                            },
                        }
                    },
                    None => {},
                }
                proof {
                    let head = cascade@.pending.take(i + 1);
                    assert(head.drop_last() =~= cascade@.pending.take(i as int));
                    lemma_round_step(on@, head, earlier, reactions);
                }
                i += 1;
            }
            proof {
                assert(cascade@.pending.take(count as int) =~= cascade@.pending);
                let longer = rounds.push(produced@);
                assert(longer.drop_last() =~= rounds);
                assert forall|k: int| 0 <= k < longer.len() implies round_yields(
                    on@,
                    (#[trigger] started(self@).after_all(longer.take(k))).pending,
                    longer[k],
                ) by {
                    if k < rounds.len() {
                        assert(longer.take(k) =~= rounds.take(k));
                    } else {
                        assert(longer.take(k) =~= rounds);
                    }
                }
                rounds = longer;
            }
            cascade.absorb(produced);
        }
        proof {
            use_type_invariant(&*on);
            on.lemma_distinct();
        }
        Ok(cascade)
    }

    /// Runs the cascade that starts from these events on the layers of `on`
    /// until it has settled or is cut off, and returns all reactions that it
    /// has kept, in the order in which they came; or the failure, if the lock
    /// of a layer is found poisoned. See [`EventQueue::cascade`].
    pub fn dispatch(self, on: &mut LayerReg<E>) -> (outcome: Result<Self, LockPoisoned>) where
        E: Send + Sync,

        ensures
            final(on)@ == old(on)@,
            final(on).wf(),
            match outcome {
                Ok(answers) => exists|rounds: Seq<Seq<E>>|
                    rounds.len() == (#[trigger] started(self@).after_all(rounds)).rounds
                        && !started(self@).after_all(rounds).active() && answers@ == started(
                        self@,
                    ).after_all(rounds).answers && cascades(old(on)@, self@, rounds),
                Err(_) => some_refuses(old(on)@),
            },
            self@.len() == 0 || old(on)@.len() == 0 ==> (outcome matches Ok(answers) && answers@
                == Seq::<E>::empty()),
    {
        match self.cascade(on) {
            Ok(cascade) => Ok(cascade.into_answers()),
            Err(failure) => Err(failure),
        }
    }
}

impl<E: Clone> Clone for EventQueue<E> {
    /// A queue of as many events, each a clone of the event at its position.
    fn clone(&self) -> (twin: Self)
        ensures
            twin@.len() == self@.len(),
            forall|i: int| 0 <= i < self@.len() ==> cloned::<E>(self@[i], #[trigger] twin@[i]),
    {
        EventQueue(self.0.clone())
    }
}

impl<E> Default for EventQueue<E> {
    fn default() -> (queue: Self)
        ensures
            queue@ == Seq::<E>::empty(),
    {
        EventQueue::new()
    }
}

} // verus!
