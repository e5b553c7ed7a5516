//! The bounded cascade: reactions are fed back round by round until a round
//! yields nothing, or the round limit is reached.
//!
//! The rule itself is the spec function [`CascadeState::after`]; [`Cascade`]
//! carries it out on real queues. Who runs the rounds (a loop on one thread, a
//! task that waits for locks) hands each round's reactions to
//! [`Cascade::absorb`] and asks [`Cascade::is_active`] whether to go on.

use vstd::prelude::*;
use crate::event_queue::EventQueue;

verus! {

/// The number of rounds after which a cascade is cut off.
pub const ROUND_LIMIT: usize = 5;

/// Where a cascade stands, as plain values.
pub struct CascadeState<E> {
    /// The rounds that have been run.
    pub rounds: nat,
    /// The events that the coming round has to hand out.
    pub pending: Seq<E>,
    /// All reactions that were kept so far, in the order in which they came.
    pub answers: Seq<E>,
    /// Whether the round limit was reached with events still pending.
    pub overflowed: bool,
}

/// A cascade before its first round: `initial` is pending and nothing has been
/// answered.
pub open spec fn started<E>(initial: Seq<E>) -> CascadeState<E> {
    CascadeState { rounds: 0, pending: initial, answers: Seq::empty(), overflowed: false }
}

impl<E> CascadeState<E> {
    /// Whether another round is to be run: whether events are pending.
    pub open spec fn active(self) -> bool {
        self.pending.len() > 0
    }

    /// The state after a round that has produced `produced`.
    ///
    /// The reactions are kept and become the pending events of the next
    /// round. The last round that the limit allows is the exception: if it
    /// still produces reactions, they are dropped, nothing is pending any
    /// more, and the cascade has overflowed. A cascade that is not active
    /// stays as it is.
    pub open spec fn after(self, produced: Seq<E>) -> Self {
        if !self.active() {
            self
        } else if self.rounds + 1 >= ROUND_LIMIT && produced.len() > 0 {
            CascadeState {
                rounds: self.rounds + 1,
                pending: Seq::empty(),
                answers: self.answers,
                overflowed: true,
            }
        } else {
            CascadeState {
                rounds: self.rounds + 1,
                pending: produced,
                answers: self.answers + produced,
                overflowed: false,
            }
        }
    }

    /// The state after the rounds whose reactions `rounds` lists, first round
    /// first.
    pub open spec fn after_all(self, rounds: Seq<Seq<E>>) -> Self
        decreases rounds.len(),
    {
        if rounds.len() == 0 {
            self
        } else {
            self.after_all(rounds.drop_last()).after(rounds.last())
        }
    }

    /// What holds of every state that a cascade can be in: the limit bounds
    /// the rounds, an active cascade has a round left, and a cascade has
    /// overflowed only at the limit.
    pub open spec fn bounded(self) -> bool {
        &&& self.rounds <= ROUND_LIMIT
        &&& self.active() ==> self.rounds < ROUND_LIMIT
        &&& self.overflowed ==> self.rounds == ROUND_LIMIT && !self.active()
        &&& self.rounds == 0 ==> self.answers.len() == 0
    }
}

/// A cascade keeps within its bounds, whatever the rounds produce, and it
/// counts no more rounds than were run.
pub proof fn law_bounded<E>(initial: Seq<E>, rounds: Seq<Seq<E>>)
    ensures
        started(initial).after_all(rounds).bounded(),
        started(initial).after_all(rounds).rounds <= rounds.len(),
    decreases rounds.len(),
{
    if rounds.len() > 0 {
        law_bounded(initial, rounds.drop_last());
    }
}

/// No cascade runs more rounds than the limit: once that many rounds have
/// been handed in, nothing is pending.
pub proof fn law_round_limit<E>(initial: Seq<E>, rounds: Seq<Seq<E>>)
    requires
        rounds.len() >= ROUND_LIMIT,
    ensures
        !started(initial).after_all(rounds).active(),
    decreases rounds.len(),
{
    let before = started(initial).after_all(rounds.drop_last());
    law_bounded(initial, rounds.drop_last());
    if rounds.len() > ROUND_LIMIT {
        law_round_limit(initial, rounds.drop_last());
    } else if before.active() {
        lemma_counts_while_active(initial, rounds.drop_last());
    }
}

/// A cascade that is still active has counted every round that was run.
proof fn lemma_counts_while_active<E>(initial: Seq<E>, rounds: Seq<Seq<E>>)
    requires
        started(initial).after_all(rounds).active(),
    ensures
        started(initial).after_all(rounds).rounds == rounds.len(),
    decreases rounds.len(),
{
    if rounds.len() > 0 {
        let before = started(initial).after_all(rounds.drop_last());
        if before.active() {
            lemma_counts_while_active(initial, rounds.drop_last());
        }
    }
}

/// A round that yields nothing settles the cascade: nothing is pending any
/// more, the answers stay as they are, and the cascade has not overflowed.
pub proof fn law_settles<E>(state: CascadeState<E>)
    requires
        state.active(),
    ensures
        !state.after(Seq::empty()).active(),
        state.after(Seq::empty()).answers == state.answers,
        !state.after(Seq::empty()).overflowed,
{
    assert(state.answers + Seq::<E>::empty() =~= state.answers);
}

/// While every round yields reactions and the limit is not reached, all of
/// them are kept in the order in which they came, and the last round's
/// reactions are pending.
pub proof fn law_keeps_reactions<E>(initial: Seq<E>, rounds: Seq<Seq<E>>)
    requires
        initial.len() > 0,
        rounds.len() < ROUND_LIMIT,
        forall|i: int| 0 <= i < rounds.len() ==> (#[trigger] rounds[i]).len() > 0,
    ensures
        started(initial).after_all(rounds).rounds == rounds.len(),
        started(initial).after_all(rounds).answers == rounds.flatten(),
        started(initial).after_all(rounds).pending == if rounds.len() == 0 {
            initial
        } else {
            rounds.last()
        },
        started(initial).after_all(rounds).active(),
        !started(initial).after_all(rounds).overflowed,
    decreases rounds.len(),
{
    rounds.lemma_flatten_and_flatten_alt_are_equivalent();
    if rounds.len() > 0 {
        let earlier = rounds.drop_last();
        assert forall|i: int| 0 <= i < earlier.len() implies (#[trigger] earlier[i]).len() > 0 by {
            assert(earlier[i] == rounds[i]);
        }
        law_keeps_reactions(initial, earlier);
        earlier.lemma_flatten_and_flatten_alt_are_equivalent();
    }
}

/// A cascade in which every round yields reactions is cut off at the limit:
/// it is active up to the last round that the limit allows; that round is
/// run, the cascade then stops and has overflowed; and its answers are the
/// reactions of all rounds but that last one, whose reactions are dropped.
pub proof fn law_cut_off<E>(initial: Seq<E>, rounds: Seq<Seq<E>>)
    requires
        initial.len() > 0,
        rounds.len() == ROUND_LIMIT,
        forall|i: int| 0 <= i < rounds.len() ==> (#[trigger] rounds[i]).len() > 0,
    ensures
        forall|k: int|
            0 <= k < ROUND_LIMIT ==> (#[trigger] started(initial).after_all(rounds.take(k))).active(),
        !started(initial).after_all(rounds).active(),
        started(initial).after_all(rounds).overflowed,
        started(initial).after_all(rounds).rounds == ROUND_LIMIT,
        started(initial).after_all(rounds).answers == rounds.drop_last().flatten(),
{
    assert forall|k: int| 0 <= k < ROUND_LIMIT implies (#[trigger] started(initial).after_all(
        rounds.take(k),
    )).active() by {
        let head = rounds.take(k);
        assert forall|i: int| 0 <= i < head.len() implies (#[trigger] head[i]).len() > 0 by {
            assert(head[i] == rounds[i]);
        }
        law_keeps_reactions(initial, head);
    }
    let earlier = rounds.drop_last();
    assert forall|i: int| 0 <= i < earlier.len() implies (#[trigger] earlier[i]).len() > 0 by {
        assert(earlier[i] == rounds[i]);
    }
    law_keeps_reactions(initial, earlier);
}

/// Carries out a cascade on real queues.
pub struct Cascade<E> {
    /// The events of the first round.
    first: EventQueue<E>,
    /// The reactions that were kept; those from `from` on are pending.
    answers: EventQueue<E>,
    from: usize,
    rounds: usize,
    overflowed: bool,
}

impl<E> View for Cascade<E> {
    type V = CascadeState<E>;

    closed spec fn view(&self) -> CascadeState<E> {
        state_of(self.first@, self.answers@, self.from as int, self.rounds as nat, self.overflowed)
    }
}

/// The state that the fields of a [`Cascade`] stand for.
spec fn state_of<E>(first: Seq<E>, answers: Seq<E>, from: int, rounds: nat, overflowed: bool)
    -> CascadeState<E> {
    CascadeState {
        rounds,
        pending: if rounds == 0 {
            first
        } else {
            answers.subrange(from, answers.len() as int)
        },
        answers,
        overflowed,
    }
}

impl<E> Cascade<E> {
    #[verifier::type_invariant]
    closed spec fn inv(&self) -> bool {
        &&& self.from <= self.answers@.len()
        &&& self@.bounded()
    }

    /// A cascade that has `initial` to hand out in its first round.
    pub fn start(initial: EventQueue<E>) -> (cascade: Self)
        ensures
            cascade@ == started(initial@),
    {
        Cascade { first: initial, answers: EventQueue::new(), from: 0, rounds: 0, overflowed: false }
    }

    /// Whether another round is to be run.
    pub fn is_active(&self) -> (active: bool)
        ensures
            active == self@.active(),
            self@.bounded(),
    {
        proof {
            use_type_invariant(self);
        }
        self.pending_len() > 0
    }

    /// The number of events that the coming round has to hand out.
    pub fn pending_len(&self) -> (len: usize)
        ensures
            len == self@.pending.len(),
    {
        proof {
            use_type_invariant(self);
        }
        if self.rounds == 0 {
            self.first.len()
        } else {
            self.answers.len() - self.from
        }
    }

    /// The pending event at position `at`, if there are so many.
    pub fn pending_event(&self, at: usize) -> (event: Option<&E>)
        ensures
            match event {
                Some(event) => at < self@.pending.len() && *event == self@.pending[at as int],
                None => at >= self@.pending.len(),
            },
    {
        proof {
            use_type_invariant(self);
        }
        if self.rounds == 0 {
            self.first.get(at)
        } else if at < self.answers.len() - self.from {
            self.answers.get(self.from + at)
        } else {
            None
        }
    }

    /// Takes in the reactions of the round that was just run.
    pub fn absorb(&mut self, produced: EventQueue<E>)
        ensures
            final(self)@ == old(self)@.after(produced@),
    {
        proof {
            use_type_invariant(&*self);
        }
        if self.pending_len() == 0 {
            return ;
        }
        if self.rounds + 1 >= ROUND_LIMIT && produced.len() > 0 {
            let end = self.answers.len();
            let ghost first = self.first@;
            let ghost answers = self.answers@;
            assert(state_of(first, answers, end as int, (self.rounds + 1) as nat, true)
                == old(self)@.after(produced@)) by {
                assert(answers.subrange(end as int, answers.len() as int) =~= Seq::<E>::empty());
            }
            self.from = end;
            self.rounds = self.rounds + 1;
            self.overflowed = true;
        } else {
            let ghost taken = produced@;
            let rounds = self.rounds + 1;
            let mut produced = produced;
            let mut answers = EventQueue::new();
            self.from = 0;
            std::mem::swap(&mut answers, &mut self.answers);
            let end = answers.len();
            answers.append(&mut produced);
            proof {
                let next = state_of(self.first@, answers@, end as int, rounds as nat, false);
                assert(next.pending =~= taken);
                assert(next == old(self)@.after(taken));
            }
            *self = Cascade { first: EventQueue::new(), answers, from: end, rounds, overflowed: false };
        }
    }

    /// The rounds that have been run.
    pub fn rounds(&self) -> (rounds: usize)
        ensures
            rounds == self@.rounds,
    {
        self.rounds
    }

    /// Whether the round limit was reached with events still pending.
    pub fn overflowed(&self) -> (overflowed: bool)
        ensures
            overflowed == self@.overflowed,
    {
        self.overflowed
    }

    /// The reactions that were kept, in the order in which they came.
    pub fn into_answers(self) -> (answers: EventQueue<E>)
        ensures
            answers@ == self@.answers,
    {
        self.answers
    }
}

} // verus!
