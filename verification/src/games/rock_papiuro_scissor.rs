//! Rock, paper, scissors, as the iuro plays it: whoever beats the most
//! other choices wins the round, and so does everyone level with them.
use vstd::prelude::*;
use crate::error::{ErrorModel, IuroError};
use crate::games::{absent_winner, awarded, settle};
use crate::room::RoomSlot;
use crate::table::{with_entry, IdMap};

verus! {

/// What a user can choose in a round.
#[derive(Debug, Clone, Copy, PartialEq, Eq, Structural)]
pub enum RockPapiuroScissorInput {
    Rock,
    Papiuro,
    Scissor,
}

impl View for RockPapiuroScissorInput {
    type V = RockPapiuroScissorInput;

    open spec fn view(&self) -> RockPapiuroScissorInput {
        *self
    }
}

impl RockPapiuroScissorInput {
    /// Rock beats scissor, scissor beats papiuro, papiuro beats rock, and
    /// nothing else beats anything.
    pub open spec fn spec_beats(self, other: Self) -> bool {
        match (self, other) {
            (RockPapiuroScissorInput::Rock, RockPapiuroScissorInput::Scissor) => true,
            (RockPapiuroScissorInput::Scissor, RockPapiuroScissorInput::Papiuro) => true,
            (RockPapiuroScissorInput::Papiuro, RockPapiuroScissorInput::Rock) => true,
            _ => false,
        }
    }

    /// Whether this choice wins against `other`.
    #[verifier::when_used_as_spec(spec_beats)]
    pub fn beats(self, other: Self) -> (wins: bool)
        ensures
            wins == self.spec_beats(other),
    {
        match (self, other) {
            (RockPapiuroScissorInput::Rock, RockPapiuroScissorInput::Scissor) => true,
            (RockPapiuroScissorInput::Scissor, RockPapiuroScissorInput::Papiuro) => true,
            (RockPapiuroScissorInput::Papiuro, RockPapiuroScissorInput::Rock) => true,
            _ => false,
        }
    }
}

/// The three choices beat each other in a cycle: no choice beats itself,
/// and of two different choices exactly one beats the other.
pub proof fn lemma_beats_is_a_cycle(a: RockPapiuroScissorInput, b: RockPapiuroScissorInput)
    ensures
        !a.spec_beats(a),
        a != b ==> (a.spec_beats(b) <==> !b.spec_beats(a)),
        a.spec_beats(b) ==> !b.spec_beats(a),
{
}

/// How many of the inputs before place `upto`, the one at place `i` apart,
/// hold a choice that the choice at place `i` beats.
pub open spec fn beaten(inputs: Seq<(usize, RockPapiuroScissorInput)>, i: int, upto: int) -> nat
    decreases upto,
{
    if upto <= 0 {
        0
    } else {
        beaten(inputs, i, upto - 1) + if upto - 1 != i && inputs[i].1.spec_beats(
            inputs[upto - 1].1,
        ) {
            1nat
        } else {
            0nat
        }
    }
}

/// The score of the input at place `i`: how many of the other inputs it beats.
pub open spec fn score(inputs: Seq<(usize, RockPapiuroScissorInput)>, i: int) -> nat {
    beaten(inputs, i, inputs.len() as int)
}

/// No input scores more than the one at place `i`.
pub open spec fn leads(inputs: Seq<(usize, RockPapiuroScissorInput)>, i: int) -> bool {
    forall|j: int| 0 <= j < inputs.len() ==> #[trigger] score(inputs, j) <= score(inputs, i)
}

/// The input at place `i` wins the round: it beats at least one other input,
/// and no input beats more.
pub open spec fn wins_round(inputs: Seq<(usize, RockPapiuroScissorInput)>, i: int) -> bool {
    score(inputs, i) >= 1 && leads(inputs, i)
}

/// Which inputs win the round, place by place.
pub open spec fn winning(inputs: Seq<(usize, RockPapiuroScissorInput)>) -> Seq<bool> {
    Seq::new(inputs.len(), |i: int| wins_round(inputs, i))
}

/// Among the first `n` inputs, one scores at least as much as each of them.
proof fn lemma_some_input_leads(inputs: Seq<(usize, RockPapiuroScissorInput)>, n: int) -> (m: int)
    requires
        1 <= n <= inputs.len(),
    ensures
        0 <= m < n,
        forall|j: int| 0 <= j < n ==> #[trigger] score(inputs, j) <= score(inputs, m),
    decreases n,
{
    if n == 1 {
        0
    } else {
        let m = lemma_some_input_leads(inputs, n - 1);
        if score(inputs, n - 1) > score(inputs, m) {
            n - 1
        } else {
            m
        }
    }
}

/// Where some input beats another, the round has a winner.
pub proof fn lemma_positive_score_has_winner(inputs: Seq<(usize, RockPapiuroScissorInput)>, i: int)
    requires
        0 <= i < inputs.len(),
        score(inputs, i) >= 1,
    ensures
        exists|m: int| 0 <= m < inputs.len() && #[trigger] wins_round(inputs, m),
{
    let m = lemma_some_input_leads(inputs, inputs.len() as int);
    assert(score(inputs, i) <= score(inputs, m));
    assert(wins_round(inputs, m));
}

/// Where no input beats another, the round has no winner.
pub proof fn lemma_no_score_no_winner(inputs: Seq<(usize, RockPapiuroScissorInput)>)
    requires
        forall|i: int| 0 <= i < inputs.len() ==> #[trigger] score(inputs, i) == 0,
    ensures
        forall|i: int| 0 <= i < inputs.len() ==> !#[trigger] wins_round(inputs, i),
{
}

/// Every winner of a round has the same score, the highest of the round,
/// and whoever has that score wins with them.
pub proof fn lemma_winners_share_the_highest_score(
    inputs: Seq<(usize, RockPapiuroScissorInput)>,
    i: int,
    j: int,
)
    requires
        0 <= i < inputs.len(),
        0 <= j < inputs.len(),
        wins_round(inputs, i),
    ensures
        score(inputs, j) <= score(inputs, i),
        wins_round(inputs, j) <==> score(inputs, j) == score(inputs, i),
{
    assert(score(inputs, j) <= score(inputs, i));
    if wins_round(inputs, j) {
        assert(score(inputs, i) <= score(inputs, j));
    }
    if score(inputs, j) == score(inputs, i) {
        assert forall|k: int| 0 <= k < inputs.len() implies #[trigger] score(inputs, k) <= score(
            inputs,
            j,
        ) by {
            assert(score(inputs, k) <= score(inputs, i));
        }
    }
}

/// The score of the input at place `i`.
pub fn score_of(state: &IdMap<RockPapiuroScissorInput>, i: usize) -> (points: usize)
    requires
        i < state@.len(),
    ensures
        points == score(state@, i as int),
{
    let choice = *state.value_at(i);
    let mut points: usize = 0;
    let mut j: usize = 0;
    while j < state.len()
        invariant
            j <= state@.len(),
            i < state@.len(),
            choice == state@[i as int].1,
            points == beaten(state@, i as int, j as int),
            points <= j,
        decreases state@.len() - j,
    {
        let other = *state.value_at(j);
        if j != i && choice.beats(other) {
            points = points + 1;
        }
        j = j + 1;
    }
    points
}

/// Which inputs win the round, place by place.
pub fn winners(state: &IdMap<RockPapiuroScissorInput>) -> (won: Vec<bool>)
    ensures
        won@ == winning(state@),
{
    let n = state.len();
    let mut scores: Vec<usize> = Vec::new();
    let mut highest: usize = 0;
    let mut i: usize = 0;
    while i < n
        invariant
            n == state@.len(),
            i <= n,
            scores@.len() == i,
            forall|t: int| 0 <= t < i ==> #[trigger] scores@[t] == score(state@, t),
            forall|t: int| 0 <= t < i ==> #[trigger] score(state@, t) <= highest,
            highest == 0 || exists|t: int| 0 <= t < i && #[trigger] score(state@, t) == highest,
        decreases n - i,
    {
        let points = score_of(state, i);
        if points > highest {
            highest = points;
        }
        scores.push(points);
        i = i + 1;
    }
    let mut won: Vec<bool> = Vec::new();
    let mut k: usize = 0;
    while k < n
        invariant
            n == state@.len(),
            k <= n,
            scores@.len() == n,
            won@.len() == k,
            forall|t: int| 0 <= t < n ==> #[trigger] scores@[t] == score(state@, t),
            forall|t: int| 0 <= t < n ==> #[trigger] score(state@, t) <= highest,
            highest == 0 || exists|t: int| 0 <= t < n && #[trigger] score(state@, t) == highest,
            forall|t: int| 0 <= t < k ==> #[trigger] won@[t] == wins_round(state@, t),
        decreases n - k,
    {
        let wins = scores[k] >= 1 && scores[k] >= highest;
        proof {
            if wins {
                assert forall|j: int| 0 <= j < state@.len() implies #[trigger] score(state@, j)
                    <= score(state@, k as int) by {}
            }
            if wins_round(state@, k as int) {
                if highest != 0 {
                    let t = choose|t: int| 0 <= t < n && #[trigger] score(state@, t) == highest;
                    assert(score(state@, t) <= score(state@, k as int));
                }
            }
        }
        won.push(wins);
        k = k + 1;
    }
    assert(won@ =~= winning(state@));
    won
}

/// One input on its way into the round: who sends it, what it is, and the
/// inputs that the round has so far.
pub struct Update<'a> {
    pub user_id: usize,
    pub input: RockPapiuroScissorInput,
    pub state: &'a mut IdMap<RockPapiuroScissorInput>,
}

impl<'a> Update<'a> {
    /// Takes the input into the round, in the place of the one that the same
    /// user sent before, if any. The round is full when as many users have
    /// sent an input as `sessions` has occupants. A full round is settled:
    /// each occupant whose input wins has one win more, the inputs are
    /// dropped, and the answer is `true`. A round that is not full stays
    /// open, and the answer is `false`. Where a winning input came from an id
    /// without a slot, that id is reported and no win is counted.
    pub fn consume(self, sessions: &mut IdMap<RoomSlot>) -> (done: Result<bool, IuroError>)
        requires
            old(self.state).wf(),
            old(sessions).wf(),
            forall|k: int|
                0 <= k < old(sessions)@.len() ==> (#[trigger] old(sessions)@[k]).1.wins
                    < usize::MAX,
        ensures
            final(self.state).wf(),
            final(sessions).wf(),
            ({
                let recorded = with_entry(old(self.state)@, self.user_id, self.input);
                if recorded.len() != old(sessions)@.len() {
                    &&& done matches Ok(full) && !full
                    &&& final(self.state)@ == recorded
                    &&& final(sessions)@ == old(sessions)@
                } else {
                    match absent_winner(recorded, winning(recorded), old(sessions)@, 0) {
                        Some(id) => {
                            &&& done matches Err(e) && e@ == ErrorModel::AddrNotFound(id)
                            &&& final(self.state)@ == recorded
                            &&& final(sessions)@ == old(sessions)@
                        },
                        None => {
                            &&& done matches Ok(full) && full
                            &&& final(self.state)@ == Seq::<
                                (usize, RockPapiuroScissorInput),
                            >::empty()
                            &&& final(sessions)@ == awarded(
                                old(sessions)@,
                                recorded,
                                winning(recorded),
                            )
                        },
                    }
                }
            }),
    {
        let Update { state, user_id, input } = self;
        state.insert(user_id, input);
        if state.len() == sessions.len() {
            let won = winners(state);
            match settle(state, &won, sessions) {
                Ok(()) => Ok(true),
                Err(e) => Err(e),
            }
        } else {
            Ok(false)
        }
    }
}

} // verus!
