//! The games a room can play, and what every game shares: a round collects
//! one input from each occupant, is settled when the last one comes in, and
//! starts over empty.
use vstd::prelude::*;
use crate::error::{ErrorModel, IuroError};
use crate::games::rock_papiuro_scissor::RockPapiuroScissorInput;
use crate::room::{RoomSlot, SlotModel};
use crate::table::{distinct_ids, has_id, index_of, with_entry, IdMap};

pub mod rock_papiuro_scissor;
pub mod the_right_iuro;

verus! {

/// What a user sends into the round in play.
#[derive(Debug, PartialEq, Eq)]
pub enum GameInput {
    RockPapiuroScissor(RockPapiuroScissorInput),
    TheRightIuro(Vec<u8>),
}

/// A game input as the contracts see it.
pub enum GameInputModel {
    RockPapiuroScissor(RockPapiuroScissorInput),
    TheRightIuro(Seq<u8>),
}

impl View for GameInput {
    type V = GameInputModel;

    open spec fn view(&self) -> GameInputModel {
        match self {
            GameInput::RockPapiuroScissor(choice) => GameInputModel::RockPapiuroScissor(*choice),
            GameInput::TheRightIuro(guess) => GameInputModel::TheRightIuro(guess@),
        }
    }
}

/// A game that a room can play.
#[derive(Debug, PartialEq, Eq)]
pub enum Game {
    /// Rock, paper, scissors: whoever beats the most other choices wins.
    RockPapiuroScissor,
    /// Guess the bytes: whoever sends exactly these wins.
    TheRightIuro(Vec<u8>),
}

/// A game as the contracts see it.
pub enum GameModel {
    RockPapiuroScissor,
    TheRightIuro(Seq<u8>),
}

impl View for Game {
    type V = GameModel;

    open spec fn view(&self) -> GameModel {
        match self {
            Game::RockPapiuroScissor => GameModel::RockPapiuroScissor,
            Game::TheRightIuro(target) => GameModel::TheRightIuro(target@),
        }
    }
}

/// The views of `games`, in their order.
pub open spec fn games_view(games: Seq<Game>) -> Seq<GameModel> {
    Seq::new(games.len(), |i: int| games[i]@)
}

/// A copy of `bytes`.
pub fn copy_bytes(bytes: &Vec<u8>) -> (copy: Vec<u8>)
    ensures
        copy@ == bytes@,
{
    let mut copy: Vec<u8> = Vec::new();
    let mut i: usize = 0;
    while i < bytes.len()
        invariant
            i <= bytes@.len(),
            copy@ == bytes@.take(i as int),
        decreases bytes@.len() - i,
    {
        copy.push(bytes[i]);
        assert(copy@ =~= bytes@.take(i + 1));
        i = i + 1;
    }
    assert(bytes@.take(i as int) =~= bytes@);
    copy
}

/// Whether `a` and `b` hold the same bytes.
pub fn same_bytes(a: &Vec<u8>, b: &Vec<u8>) -> (same: bool)
    ensures
        same == (a@ == b@),
{
    if a.len() != b.len() {
        return false;
    }
    let mut i: usize = 0;
    while i < a.len()
        invariant
            i <= a@.len(),
            a@.len() == b@.len(),
            a@.take(i as int) == b@.take(i as int),
        decreases a@.len() - i,
    {
        if a[i] != b[i] {
            return false;
        }
        assert(a@.take(i + 1) =~= a@.take(i as int).push(a@[i as int]));
        assert(b@.take(i + 1) =~= b@.take(i as int).push(b@[i as int]));
        i = i + 1;
    }
    assert(a@.take(i as int) =~= a@);
    assert(b@.take(i as int) =~= b@);
    true
}

impl Clone for Game {
    fn clone(&self) -> (copy: Self)
        ensures
            copy@ == self@,
    {
        match self {
            Game::RockPapiuroScissor => Game::RockPapiuroScissor,
            Game::TheRightIuro(target) => Game::TheRightIuro(copy_bytes(target)),
        }
    }
}

/// The round in play: the game, and the input of each user who has sent
/// one, by connection id.
pub enum GameState {
    RockPapiuroScissor(IdMap<RockPapiuroScissorInput>),
    TheRightIuro((Vec<u8>, IdMap<Vec<u8>>)),
}

/// A round as the contracts see it.
pub enum GameStateModel {
    RockPapiuroScissor(Seq<(usize, RockPapiuroScissorInput)>),
    TheRightIuro(Seq<u8>, Seq<(usize, Seq<u8>)>),
}

impl GameStateModel {
    /// The game that the round belongs to.
    pub open spec fn game(self) -> GameModel {
        match self {
            GameStateModel::RockPapiuroScissor(_) => GameModel::RockPapiuroScissor,
            GameStateModel::TheRightIuro(target, _) => GameModel::TheRightIuro(target),
        }
    }

    /// The ids that have sent an input, in the order in which each first did.
    pub open spec fn submitted(self) -> Seq<usize> {
        match self {
            GameStateModel::RockPapiuroScissor(inputs) => Seq::new(
                inputs.len(),
                |i: int| inputs[i].0,
            ),
            GameStateModel::TheRightIuro(_, inputs) => Seq::new(inputs.len(), |i: int| inputs[i].0),
        }
    }

    /// The round of `game` before anyone has sent an input.
    pub open spec fn opening(game: GameModel) -> GameStateModel {
        match game {
            GameModel::RockPapiuroScissor => GameStateModel::RockPapiuroScissor(Seq::empty()),
            GameModel::TheRightIuro(target) => GameStateModel::TheRightIuro(target, Seq::empty()),
        }
    }

    /// Whether `input` is an input of this round's game.
    pub open spec fn takes(self, input: GameInputModel) -> bool {
        match (self, input) {
            (GameStateModel::RockPapiuroScissor(_), GameInputModel::RockPapiuroScissor(_)) => true,
            (GameStateModel::TheRightIuro(_, _), GameInputModel::TheRightIuro(_)) => true,
            _ => false,
        }
    }

    /// No id has sent two inputs of those that are kept.
    pub open spec fn wf(self) -> bool {
        match self {
            GameStateModel::RockPapiuroScissor(inputs) => distinct_ids(inputs),
            GameStateModel::TheRightIuro(_, inputs) => distinct_ids(inputs),
        }
    }

    /// The round after `id` has sent `input`: the input stands in the place
    /// of the one that `id` sent before, or else behind the others. An input
    /// of another game leaves the round as it is.
    pub open spec fn record(self, id: usize, input: GameInputModel) -> GameStateModel {
        match (self, input) {
            (
                GameStateModel::RockPapiuroScissor(inputs),
                GameInputModel::RockPapiuroScissor(choice),
            ) => GameStateModel::RockPapiuroScissor(with_entry(inputs, id, choice)),
            (GameStateModel::TheRightIuro(target, inputs), GameInputModel::TheRightIuro(guess)) =>
                GameStateModel::TheRightIuro(target, with_entry(inputs, id, guess)),
            _ => self,
        }
    }

    /// The round of the same game with no input in it.
    pub open spec fn cleared(self) -> GameStateModel {
        GameStateModel::opening(self.game())
    }

    /// Whether the input that `id` sent wins the round as it stands.
    pub open spec fn is_winner(self, id: usize) -> bool {
        match self {
            GameStateModel::RockPapiuroScissor(inputs) => id_won(
                inputs,
                crate::games::rock_papiuro_scissor::winning(inputs),
                id,
            ),
            GameStateModel::TheRightIuro(target, inputs) => id_won(
                inputs,
                crate::games::the_right_iuro::winning(target, inputs),
                id,
            ),
        }
    }

    /// The occupants after the round as it stands has been settled: each
    /// one whose input wins has one win more.
    pub open spec fn award(self, occupants: Seq<(usize, SlotModel)>) -> Seq<(usize, SlotModel)> {
        match self {
            GameStateModel::RockPapiuroScissor(inputs) => awarded(
                occupants,
                inputs,
                crate::games::rock_papiuro_scissor::winning(inputs),
            ),
            GameStateModel::TheRightIuro(target, inputs) => awarded(
                occupants,
                inputs,
                crate::games::the_right_iuro::winning(target, inputs),
            ),
        }
    }
}

impl View for GameState {
    type V = GameStateModel;

    open spec fn view(&self) -> GameStateModel {
        match self {
            GameState::RockPapiuroScissor(inputs) => GameStateModel::RockPapiuroScissor(inputs@),
            GameState::TheRightIuro(round) => GameStateModel::TheRightIuro(round.0@, round.1@),
        }
    }
}

impl GameState {
    /// The round's invariant: no id has sent two inputs of those that are kept.
    pub open spec fn wf(&self) -> bool {
        self@.wf()
    }

    /// The round of `game` before anyone has sent an input.
    pub fn new(game: &Game) -> (state: Self)
        ensures
            state.wf(),
            state@ == GameStateModel::opening(game@),
    {
        match game {
            Game::RockPapiuroScissor => GameState::RockPapiuroScissor(IdMap::new()),
            Game::TheRightIuro(target) => GameState::TheRightIuro(
                (copy_bytes(target), IdMap::new()),
            ),
        }
    }
}

/// Whether the input that `id` sent is among the winning ones. `won` marks
/// the winning inputs, place by place.
pub open spec fn id_won<V>(inputs: Seq<(usize, V)>, won: Seq<bool>, id: usize) -> bool {
    has_id(inputs, id) && won[index_of(inputs, id)]
}

/// The occupants after a round: each one whose input won has one win more,
/// and nothing else has changed.
pub open spec fn awarded<V>(
    occupants: Seq<(usize, SlotModel)>,
    inputs: Seq<(usize, V)>,
    won: Seq<bool>,
) -> Seq<(usize, SlotModel)> {
    Seq::new(
        occupants.len(),
        |k: int|
            (
                occupants[k].0,
                SlotModel {
                    name: occupants[k].1.name,
                    wins: if id_won(inputs, won, occupants[k].0) {
                        occupants[k].1.wins + 1
                    } else {
                        occupants[k].1.wins
                    },
                },
            ),
    )
}

/// The first id from place `from` on whose input won although it is no
/// occupant.
pub open spec fn absent_winner<V>(
    inputs: Seq<(usize, V)>,
    won: Seq<bool>,
    occupants: Seq<(usize, SlotModel)>,
    from: int,
) -> Option<usize>
    decreases inputs.len() - from,
{
    if from < 0 || from >= inputs.len() {
        None
    } else if won[from] && !has_id(occupants, inputs[from].0) {
        Some(inputs[from].0)
    } else {
        absent_winner(inputs, won, occupants, from + 1)
    }
}

/// Where every id that sent an input is an occupant, no winner is absent.
pub proof fn lemma_no_absent_winner<V>(
    inputs: Seq<(usize, V)>,
    won: Seq<bool>,
    occupants: Seq<(usize, SlotModel)>,
    from: int,
)
    requires
        forall|i: int| 0 <= i < inputs.len() ==> has_id(occupants, (#[trigger] inputs[i]).0),
    ensures
        absent_winner(inputs, won, occupants, from).is_none(),
    decreases inputs.len() - from,
{
    if 0 <= from < inputs.len() {
        assert(has_id(occupants, inputs[from].0));
        lemma_no_absent_winner(inputs, won, occupants, from + 1);
    }
}

/// Settles a round that is full. `won` marks the winning inputs, place by
/// place. Each occupant whose input won gets one win more, and the inputs
/// are dropped, so that the next round starts empty. Where a winning input
/// came from an id that is no occupant, nothing changes, and the first such
/// id is reported.
pub fn settle<V: View>(
    state: &mut IdMap<V>,
    won: &Vec<bool>,
    sessions: &mut IdMap<RoomSlot>,
) -> (done: Result<(), IuroError>)
    requires
        old(state).wf(),
        old(sessions).wf(),
        won@.len() == old(state)@.len(),
        forall|k: int|
            0 <= k < old(sessions)@.len() ==> (#[trigger] old(sessions)@[k]).1.wins < usize::MAX,
    ensures
        final(state).wf(),
        final(sessions).wf(),
        match absent_winner(old(state)@, won@, old(sessions)@, 0) {
            Some(id) => {
                &&& done matches Err(e) && e@ == ErrorModel::AddrNotFound(id)
                &&& final(state)@ == old(state)@
                &&& final(sessions)@ == old(sessions)@
            },
            None => {
                &&& done is Ok
                &&& final(state)@ == Seq::<(usize, V::V)>::empty()
                &&& final(sessions)@ == awarded(old(sessions)@, old(state)@, won@)
            },
        },
{
    let mut i: usize = 0;
    while i < state.len()
        invariant
            i <= state@.len(),
            state.wf(),
            sessions.wf(),
            state@ == old(state)@,
            sessions@ == old(sessions)@,
            won@.len() == state@.len(),
            absent_winner(state@, won@, sessions@, 0) == absent_winner(
                state@,
                won@,
                sessions@,
                i as int,
            ),
        decreases state@.len() - i,
    {
        let id = state.key_at(i);
        if won[i] && !sessions.contains_key(id) {
            return Err(IuroError::AddrNotFound(id));
        }
        i = i + 1;
    }
    let ghost before = sessions@;
    let mut k: usize = 0;
    while k < sessions.len()
        invariant
            k <= sessions@.len(),
            state.wf(),
            state@ == old(state)@,
            before == old(sessions)@,
            distinct_ids(before),
            won@.len() == state@.len(),
            sessions@.len() == before.len(),
            forall|j: int| 0 <= j < before.len() ==> (#[trigger] before[j]).1.wins < usize::MAX,
            forall|j: int|
                0 <= j < k ==> (#[trigger] sessions@[j]) == awarded(before, state@, won@)[j],
            forall|j: int| k <= j < before.len() ==> (#[trigger] sessions@[j]) == before[j],
        decreases sessions@.len() - k,
    {
        let id = sessions.key_at(k);
        match state.position(id) {
            Some(place) => {
                if won[place] {
                    assert(before[k as int].1.wins < usize::MAX);
                    let slot = sessions.value_mut(k);
                    slot.wins = slot.wins + 1;
                }
            },
            None => {},
        }
        k = k + 1;
    }
    assert(sessions@ =~= awarded(before, state@, won@));
    assert(distinct_ids(sessions@)) by {
        assert forall|a: int, b: int| 0 <= a < b < sessions@.len() implies (
        #[trigger] sessions@[a]).0 != (#[trigger] sessions@[b]).0 by {
            assert(before[a].0 != before[b].0);
        }
    }
    state.clear();
    Ok(())
}

} // verus!
