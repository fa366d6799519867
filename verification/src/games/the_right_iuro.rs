//! Guess the bytes: whoever sends exactly the bytes that the round is after
//! wins it.
use vstd::prelude::*;
use crate::error::{ErrorModel, IuroError};
use crate::games::{absent_winner, awarded, same_bytes, settle};
use crate::room::RoomSlot;
use crate::table::{with_entry, IdMap};

verus! {

/// The input at place `i` wins the round: it is the target, byte for byte.
pub open spec fn wins_round(target: Seq<u8>, inputs: Seq<(usize, Seq<u8>)>, i: int) -> bool {
    inputs[i].1 == target
}

/// Which inputs win the round, place by place.
pub open spec fn winning(target: Seq<u8>, inputs: Seq<(usize, Seq<u8>)>) -> Seq<bool> {
    Seq::new(inputs.len(), |i: int| wins_round(target, inputs, i))
}

/// Which inputs win the round, place by place.
pub fn winners(target: &Vec<u8>, state: &IdMap<Vec<u8>>) -> (won: Vec<bool>)
    ensures
        won@ == winning(target@, state@),
{
    let mut won: Vec<bool> = Vec::new();
    let mut i: usize = 0;
    while i < state.len()
        invariant
            i <= state@.len(),
            won@.len() == i,
            forall|t: int| 0 <= t < i ==> #[trigger] won@[t] == wins_round(target@, state@, t),
        decreases state@.len() - i,
    {
        won.push(same_bytes(state.value_at(i), target));
        i = i + 1;
    }
    assert(won@ =~= winning(target@, state@));
    won
}

/// One input on its way into the round: who sends it, what it is, and the
/// round so far, which is the target with the inputs.
pub struct Update<'a> {
    pub user_id: usize,
    pub input: Vec<u8>,
    pub state: &'a mut (Vec<u8>, IdMap<Vec<u8>>),
}

impl<'a> Update<'a> {
    /// Takes the input into the round, in the place of the one that the same
    /// user sent before, if any. The round is full when as many users have
    /// sent an input as `sessions` has occupants. A full round is settled:
    /// each occupant whose input is the target has one win more, the inputs
    /// are dropped, and the answer is `true`. A round that is not full stays
    /// open, and the answer is `false`. Where a winning input came from an id
    /// without a slot, that id is reported and no win is counted. The target
    /// stays as it is.
    pub fn consume(self, sessions: &mut IdMap<RoomSlot>) -> (done: Result<bool, IuroError>)
        requires
            old(self.state).1.wf(),
            old(sessions).wf(),
            forall|k: int|
                0 <= k < old(sessions)@.len() ==> (#[trigger] old(sessions)@[k]).1.wins
                    < usize::MAX,
        ensures
            final(self.state).1.wf(),
            final(sessions).wf(),
            final(self.state).0@ == old(self.state).0@,
            ({
                let target = old(self.state).0@;
                let recorded = with_entry(old(self.state).1@, self.user_id, self.input@);
                if recorded.len() != old(sessions)@.len() {
                    &&& done matches Ok(full) && !full
                    &&& final(self.state).1@ == recorded
                    &&& final(sessions)@ == old(sessions)@
                } else {
                    match absent_winner(recorded, winning(target, recorded), old(sessions)@, 0) {
                        Some(id) => {
                            &&& done matches Err(e) && e@ == ErrorModel::AddrNotFound(id)
                            &&& final(self.state).1@ == recorded
                            &&& final(sessions)@ == old(sessions)@
                        },
                        None => {
                            &&& done matches Ok(full) && full
                            &&& final(self.state).1@ == Seq::<(usize, Seq<u8>)>::empty()
                            &&& final(sessions)@ == awarded(
                                old(sessions)@,
                                recorded,
                                winning(target, recorded),
                            )
                        },
                    }
                }
            }),
    {
        let Update { state, user_id, input } = self;
        state.1.insert(user_id, input);
        if state.1.len() == sessions.len() {
            let won = winners(&state.0, &state.1);
            match settle(&mut state.1, &won, sessions) {
                Ok(()) => Ok(true),
                Err(e) => Err(e),
            }
        } else {
            Ok(false)
        }
    }
}

} // verus!
