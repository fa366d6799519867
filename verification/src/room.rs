//! A room: its occupants, the games it will play, and the round in play.
use vstd::prelude::*;
use crate::error::{ErrorModel, IuroError};
use crate::games::{
    games_view, lemma_no_absent_winner, Game, GameInput, GameInputModel, GameModel, GameState,
    GameStateModel,
};
use crate::games::rock_papiuro_scissor::Update as ChoiceUpdate;
use crate::games::the_right_iuro::Update as GuessUpdate;
use crate::table::{
    distinct_ids, has_id, index_of, lemma_with_entry, lemma_without_id, value_of, with_entry,
    without_id, IdMap,
};

pub mod laws;

verus! {

/// How many occupants a room takes. The room's first game starts when the
/// last of them comes in.
pub const EXPECTED_USERS: usize = 4;

/// How many games a room draws when it has none left to play.
pub const BACKLOG: usize = 10;

/// How many of the games are drawn at random. A game beyond them is played
/// only in a room that was made with it.
pub const DRAWN_GAMES: usize = 1;

/// What the hub keeps of a connection: the name it shows, and the rounds it
/// has won since it joined the room it is in.
#[derive(Debug, PartialEq, Eq)]
pub struct RoomSlot {
    pub name: String,
    pub wins: usize,
}

/// A slot as the contracts see it.
pub struct SlotModel {
    pub name: Seq<char>,
    pub wins: nat,
}

impl View for RoomSlot {
    type V = SlotModel;

    open spec fn view(&self) -> SlotModel {
        SlotModel { name: self.name@, wins: self.wins as nat }
    }
}

/// What became of an attempt to join a room.
#[derive(Debug, PartialEq, Eq)]
pub enum JoinResult {
    /// The user is in, the room is full with them, and this game has started.
    NewGame(Game),
    /// The user is in, and the room waits for more.
    NoGame,
    /// The room was full already, and nothing has changed.
    Full,
}

/// The game of the given number, of those that are drawn at random.
pub open spec fn drawn_game(index: usize) -> GameModel {
    GameModel::RockPapiuroScissor
}

/// A game that a draw can give.
pub open spec fn drawable(game: GameModel) -> bool {
    exists|index: usize| index < DRAWN_GAMES && game == #[trigger] drawn_game(index)
}

/// A backlog as a room draws it: `BACKLOG` games, each one that a draw can give.
pub open spec fn fresh_backlog(backlog: Seq<GameModel>) -> bool {
    &&& backlog.len() == BACKLOG
    &&& forall|i: int| 0 <= i < backlog.len() ==> drawable(#[trigger] backlog[i])
}

/// A number below `bound` from the thread's random number generator, by
/// `rand::Rng::gen_range` with `0` as its lower end. The generator gives a
/// number from the lower end up to, and without, the upper one, and panics
/// where that leaves no number: so the bound must be above `0`. Nothing else
/// is known of the number.
#[verifier::external_body]
fn draw_below(bound: usize) -> (index: usize)
    requires
        bound > 0,
    ensures
        index < bound,
{
    rand::Rng::gen_range(&mut rand::thread_rng(), 0, bound)
}

impl Game {
    /// The game of the given number, of those that are drawn at random.
    /// There is one such game, whatever the number.
    pub fn drawn(index: usize) -> (game: Game)
        ensures
            game@ == drawn_game(index),
    {
        match index {
            _ => Game::RockPapiuroScissor,
        }
    }

    /// The number of a game, drawn at random among those that are drawn.
    pub fn sample_index() -> (index: usize)
        ensures
            index < DRAWN_GAMES,
    {
        draw_below(DRAWN_GAMES)
    }

    /// A game drawn at random.
    pub fn sample() -> (game: Game)
        ensures
            drawable(game@),
    {
        Game::drawn(Game::sample_index())
    }
}

/// A backlog drawn at random.
pub fn shuffled_games() -> (games: Vec<Game>)
    ensures
        fresh_backlog(games_view(games@)),
{
    let mut games: Vec<Game> = Vec::new();
    let mut i: usize = 0;
    while i < BACKLOG
        invariant
            i <= BACKLOG,
            games@.len() == i,
            forall|k: int| 0 <= k < i ==> drawable((#[trigger] games@[k])@),
        decreases BACKLOG - i,
    {
        games.push(Game::sample());
        i = i + 1;
    }
    assert forall|k: int| 0 <= k < games_view(games@).len() implies drawable(
        #[trigger] games_view(games@)[k],
    ) by {
        assert(drawable(games@[k]@));
    }
    games
}

/// A room as the contracts see it.
pub struct RoomModel {
    /// Who is in, in the order in which each came, with name and wins.
    pub occupants: Seq<(usize, SlotModel)>,
    /// The games to play; the last one is played next.
    pub backlog: Seq<GameModel>,
    /// The round in play, if a game is on.
    pub game: Option<GameStateModel>,
}

/// The names and wins of `occupants`, in their order.
pub open spec fn scoreboard(occupants: Seq<(usize, SlotModel)>) -> Seq<(Seq<char>, nat)> {
    Seq::new(occupants.len(), |i: int| (occupants[i].1.name, occupants[i].1.wins))
}

/// A list of names and wins as the contracts see it.
pub open spec fn board_view(board: Seq<(String, usize)>) -> Seq<(Seq<char>, nat)> {
    Seq::new(board.len(), |i: int| (board[i].0@, board[i].1 as nat))
}

impl RoomModel {
    /// What holds of every room: no id is in twice, at most
    /// `EXPECTED_USERS` are in, a game is left to play, and the round in play
    /// holds at most one input from each id, all of them from occupants.
    pub open spec fn wf(self) -> bool {
        &&& distinct_ids(self.occupants)
        &&& self.occupants.len() <= EXPECTED_USERS
        &&& self.backlog.len() >= 1
        &&& match self.game {
            Some(round) => {
                &&& round.wf()
                &&& forall|i: int|
                    0 <= i < round.submitted().len() ==> has_id(
                        self.occupants,
                        #[trigger] round.submitted()[i],
                    )
            },
            None => true,
        }
    }

    /// What holds of every room that the hub keeps: someone is in it, and a
    /// game is on exactly when it is full.
    pub open spec fn serving(self) -> bool {
        &&& self.wf()
        &&& self.occupants.len() >= 1
        &&& self.game.is_some() <==> self.is_full()
    }

    /// No place is left.
    pub open spec fn is_full(self) -> bool {
        self.occupants.len() == EXPECTED_USERS
    }

    /// Every occupant can still win a round without its count running over.
    pub open spec fn can_score(self) -> bool {
        forall|k: int|
            0 <= k < self.occupants.len() ==> (#[trigger] self.occupants[k]).1.wins < usize::MAX
    }

    /// The wins of occupant `id`.
    pub open spec fn wins_of(self, id: usize) -> nat {
        self.occupants[index_of(self.occupants, id)].1.wins
    }

    /// The room with `id` in it under `name`, with no wins: in the place that
    /// `id` had, or else behind the others.
    pub open spec fn seat(self, id: usize, name: Seq<char>) -> RoomModel {
        RoomModel {
            occupants: with_entry(self.occupants, id, SlotModel { name, wins: 0 }),
            ..self
        }
    }

    /// The room after `id` has left it: the others stay in their order, and
    /// the round in play is called off. Nothing changes if `id` was not in.
    pub open spec fn leave(self, id: usize) -> RoomModel {
        if has_id(self.occupants, id) {
            RoomModel { occupants: without_id(self.occupants, id), game: None, ..self }
        } else {
            self
        }
    }

    /// The room with occupant `id` under a new name.
    pub open spec fn rename(self, id: usize, name: Seq<char>) -> RoomModel {
        if has_id(self.occupants, id) {
            let at = index_of(self.occupants, id);
            RoomModel {
                occupants: self.occupants.update(
                    at,
                    (id, SlotModel { name, wins: self.occupants[at].1.wins }),
                ),
                ..self
            }
        } else {
            self
        }
    }

    /// Why an input is turned down, if it is: no game is on, the input is of
    /// another game than the one in play, or its sender is not in the room.
    pub open spec fn refusal(self, id: usize, input: GameInputModel) -> Option<ErrorModel> {
        match self.game {
            None => Some(ErrorModel::NoGameRunning),
            Some(round) => if !round.takes(input) {
                Some(ErrorModel::JsonParsingFailed)
            } else if !has_id(self.occupants, id) {
                Some(ErrorModel::AddrNotFound(id))
            } else {
                None
            },
        }
    }

    /// Whether the input of `id` is the last one that the round waits for.
    pub open spec fn completes(self, id: usize, input: GameInputModel) -> bool {
        &&& self.refusal(id, input).is_none()
        &&& self.game.unwrap().record(id, input).submitted().len() == self.occupants.len()
    }

    /// The room after `id` has sent `input`. An input that is turned down
    /// changes nothing. One that is taken stands in the round, in the place
    /// of the one that `id` sent before, if any. If the round is full with
    /// it, the round is settled: the winners have one win more each, and the
    /// round is empty again.
    pub open spec fn update(self, id: usize, input: GameInputModel) -> RoomModel {
        if self.refusal(id, input).is_some() {
            self
        } else {
            let recorded = self.game.unwrap().record(id, input);
            if self.completes(id, input) {
                RoomModel {
                    occupants: recorded.award(self.occupants),
                    game: Some(recorded.cleared()),
                    ..self
                }
            } else {
                RoomModel { game: Some(recorded), ..self }
            }
        }
    }
}

/// A room stays as it should be when an occupant takes a name: the same
/// ids are in it, in the same places.
pub proof fn lemma_rename(room: RoomModel, id: usize, name: Seq<char>)
    requires
        room.wf(),
    ensures
        room.rename(id, name).wf(),
        room.rename(id, name).occupants.len() == room.occupants.len(),
        forall|k: int|
            0 <= k < room.occupants.len() ==> (#[trigger] room.rename(id, name).occupants[k]).0
                == room.occupants[k].0,
        forall|who: usize|
            has_id(room.rename(id, name).occupants, who) == has_id(room.occupants, who),
{
    let renamed = room.rename(id, name);
    if has_id(room.occupants, id) {
        let at = index_of(room.occupants, id);
        assert(room.occupants[at].0 == id);
    }
    assert forall|k: int| 0 <= k < room.occupants.len() implies (#[trigger] renamed.occupants[k]).0
        == room.occupants[k].0 by {}
    assert forall|who: usize| has_id(renamed.occupants, who) == has_id(room.occupants, who) by {
        if has_id(room.occupants, who) {
            let k = index_of(room.occupants, who);
            assert(renamed.occupants[k].0 == who);
        }
        if has_id(renamed.occupants, who) {
            let k = index_of(renamed.occupants, who);
            assert(room.occupants[k].0 == who);
        }
    }
    assert forall|a: int, b: int| 0 <= a < b < renamed.occupants.len() implies (
    #[trigger] renamed.occupants[a]).0 != (#[trigger] renamed.occupants[b]).0 by {
        assert(room.occupants[a].0 != room.occupants[b].0);
    }
}

/// What starting a game does to a room: the last game of the backlog is
/// taken and its round opened, with no input in it. A backlog that would be
/// empty after that is drawn anew.
pub open spec fn started(before: RoomModel, game: GameModel, after: RoomModel) -> bool {
    &&& game == before.backlog.last()
    &&& after.occupants == before.occupants
    &&& after.game == Some(GameStateModel::opening(game))
    &&& if before.backlog.len() > 1 {
        after.backlog == before.backlog.drop_last()
    } else {
        fresh_backlog(after.backlog)
    }
}

/// Who is in a room after `id` has asked to be let in under `name`: the
/// same as before if the room was full, and else the same with `id` among
/// them, without wins.
pub open spec fn let_in(occupants: Seq<(usize, SlotModel)>, id: usize, name: Seq<char>) -> Seq<
    (usize, SlotModel),
> {
    if occupants.len() == EXPECTED_USERS {
        occupants
    } else {
        with_entry(occupants, id, SlotModel { name, wins: 0 })
    }
}

/// The occupants of a room, its backlog of games, and its round in play.
pub struct Room {
    sessions: IdMap<RoomSlot>,
    games: Vec<Game>,
    game: Option<GameState>,
}

impl View for Room {
    type V = RoomModel;

    closed spec fn view(&self) -> RoomModel {
        RoomModel {
            occupants: self.sessions@,
            backlog: games_view(self.games@),
            game: match self.game {
                Some(round) => Some(round@),
                None => None,
            },
        }
    }
}

impl Default for Room {
    /// An empty room with a backlog drawn at random.
    fn default() -> (room: Self)
        ensures
            room.wf(),
            room@.occupants.len() == 0,
            room@.game.is_none(),
            fresh_backlog(room@.backlog),
    {
        Room { sessions: IdMap::new(), games: shuffled_games(), game: None }
    }
}

impl Room {
    /// The room's invariant.
    pub open spec fn wf(&self) -> bool {
        self@.wf()
    }

    /// An empty room that will play `games`, the last one first. Without a
    /// game to play, the room draws its backlog at random.
    pub fn with_games(games: Vec<Game>) -> (room: Self)
        ensures
            room.wf(),
            room@.occupants.len() == 0,
            room@.game.is_none(),
            if games@.len() > 0 {
                room@.backlog == games_view(games@)
            } else {
                fresh_backlog(room@.backlog)
            },
    {
        if games.len() > 0 {
            Room { sessions: IdMap::new(), games, game: None }
        } else {
            Room { sessions: IdMap::new(), games: shuffled_games(), game: None }
        }
    }

    /// Lets `id` in under the name of `slot` if a place is left. Whoever
    /// comes in starts without wins. The one who fills the room starts its
    /// first game.
    pub fn join(&mut self, id: usize, slot: RoomSlot) -> (result: JoinResult)
        requires
            old(self).wf(),
        ensures
            final(self).wf(),
            final(self)@.occupants == let_in(old(self)@.occupants, id, slot@.name),
            result is NewGame <==> !old(self)@.is_full() && final(self)@.is_full(),
            old(self)@.is_full() ==> result is Full && final(self)@ == old(self)@,
            !old(self)@.is_full() ==> ({
                let seated = old(self)@.seat(id, slot@.name);
                if seated.is_full() {
                    result matches JoinResult::NewGame(game) && started(
                        seated,
                        game@,
                        final(self)@,
                    )
                } else {
                    result is NoGame && final(self)@ == seated
                }
            }),
    {
        if self.sessions.len() == EXPECTED_USERS {
            return JoinResult::Full;
        }
        let seat = RoomSlot { name: slot.name, wins: 0 };
        proof {
            lemma_with_entry(self.sessions@, id, seat@);
        }
        self.sessions.insert(id, seat);
        proof {
            let seated = old(self)@.seat(id, slot@.name);
            assert(self@ == seated);
            if let Some(round) = seated.game {
                assert forall|i: int| 0 <= i < round.submitted().len() implies has_id(
                    seated.occupants,
                    #[trigger] round.submitted()[i],
                ) by {
                    assert(has_id(old(self)@.occupants, round.submitted()[i]));
                }
            }
        }
        if self.sessions.len() == EXPECTED_USERS {
            JoinResult::NewGame(self.start_game())
        } else {
            JoinResult::NoGame
        }
    }

    /// Starts the next game of the backlog and gives it back.
    pub fn start_game(&mut self) -> (game: Game)
        requires
            old(self).wf(),
        ensures
            final(self).wf(),
            started(old(self)@, game@, final(self)@),
    {
        let game = match self.games.pop() {
            Some(game) => game,
            None => Game::sample(),
        };
        self.game = Some(GameState::new(&game));
        if self.games.is_empty() {
            self.games = shuffled_games();
        } else {
            assert(games_view(self.games@) =~= old(self)@.backlog.drop_last());
        }
        game
    }

    /// Whether every occupant can still win a round without its count
    /// running over.
    pub fn can_score(&self) -> (fits: bool)
        ensures
            fits == self@.can_score(),
    {
        let mut k: usize = 0;
        while k < self.sessions.len()
            invariant
                k <= self.sessions@.len(),
                forall|j: int| 0 <= j < k ==> (#[trigger] self.sessions@[j]).1.wins < usize::MAX,
            decreases self.sessions@.len() - k,
        {
            if self.sessions.value_at(k).wins == usize::MAX {
                assert(self@.occupants[k as int].1.wins == usize::MAX);
                return false;
            }
            k = k + 1;
        }
        true
    }

    /// The names and wins of the occupants, in their order.
    pub fn scores(&self) -> (board: Vec<(String, usize)>)
        ensures
            board_view(board@) == scoreboard(self@.occupants),
    {
        let mut board: Vec<(String, usize)> = Vec::new();
        let mut k: usize = 0;
        while k < self.sessions.len()
            invariant
                k <= self.sessions@.len(),
                board@.len() == k,
                forall|j: int|
                    0 <= j < k ==> {
                        &&& (#[trigger] board@[j]).0@ == self.sessions@[j].1.name
                        &&& board@[j].1 == self.sessions@[j].1.wins
                    },
            decreases self.sessions@.len() - k,
        {
            let slot = self.sessions.value_at(k);
            board.push((slot.name.clone(), slot.wins));
            k = k + 1;
        }
        assert(board_view(board@) =~= scoreboard(self@.occupants));
        board
    }

    /// Takes the input of `user_id` into the round in play. The answer is the
    /// names and wins of the occupants if the round was full with it and has
    /// been settled, and empty if the round is still open.
    pub fn update(&mut self, user_id: usize, input: GameInput) -> (wins: Result<
        Vec<(String, usize)>,
        IuroError,
    >)
        requires
            old(self).wf(),
            old(self)@.can_score(),
        ensures
            final(self).wf(),
            final(self)@ == old(self)@.update(user_id, input@),
            match old(self)@.refusal(user_id, input@) {
                Some(error) => wins matches Err(e) && e@ == error,
                None => wins matches Ok(board) && if old(self)@.completes(user_id, input@) {
                    board_view(board@) == scoreboard(final(self)@.occupants)
                } else {
                    board@.len() == 0
                },
            },
    {
        let full = match &mut self.game {
            None => {
                return Err(IuroError::NoGameRunning);
            },
            Some(round) => match round {
                GameState::RockPapiuroScissor(inputs) => match input {
                    GameInput::RockPapiuroScissor(choice) => {
                        if !self.sessions.contains_key(user_id) {
                            return Err(IuroError::AddrNotFound(user_id));
                        }
                        proof {
                            let recorded = with_entry(inputs@, user_id, choice);
                            lemma_with_entry(inputs@, user_id, choice);
                            assert forall|i: int| 0 <= i < recorded.len() implies has_id(
                                self.sessions@,
                                (#[trigger] recorded[i]).0,
                            ) by {
                                if recorded[i].0 != user_id {
                                    assert(has_id(inputs@, recorded[i].0));
                                    let k = index_of(inputs@, recorded[i].0);
                                    let round = old(self)@.game.unwrap();
                                    assert(round.submitted()[k] == recorded[i].0);
                                }
                            }
                            lemma_no_absent_winner(
                                recorded,
                                crate::games::rock_papiuro_scissor::winning(recorded),
                                self.sessions@,
                                0,
                            );
                        }
                        let update = ChoiceUpdate { user_id, input: choice, state: inputs };
                        update.consume(&mut self.sessions)
                    },
                    _ => {
                        return Err(IuroError::JsonParsingFailed);
                    },
                },
                GameState::TheRightIuro(round) => match input {
                    GameInput::TheRightIuro(guess) => {
                        if !self.sessions.contains_key(user_id) {
                            return Err(IuroError::AddrNotFound(user_id));
                        }
                        proof {
                            let recorded = with_entry(round.1@, user_id, guess@);
                            lemma_with_entry(round.1@, user_id, guess@);
                            assert forall|i: int| 0 <= i < recorded.len() implies has_id(
                                self.sessions@,
                                (#[trigger] recorded[i]).0,
                            ) by {
                                if recorded[i].0 != user_id {
                                    assert(has_id(round.1@, recorded[i].0));
                                    let k = index_of(round.1@, recorded[i].0);
                                    let round = old(self)@.game.unwrap();
                                    assert(round.submitted()[k] == recorded[i].0);
                                }
                            }
                            lemma_no_absent_winner(
                                recorded,
                                crate::games::the_right_iuro::winning(round.0@, recorded),
                                self.sessions@,
                                0,
                            );
                        }
                        let update = GuessUpdate { user_id, input: guess, state: round };
                        update.consume(&mut self.sessions)
                    },
                    _ => {
                        return Err(IuroError::JsonParsingFailed);
                    },
                },
            },
        };
        match full {
            Ok(true) => Ok(self.scores()),
            Ok(false) => Ok(Vec::new()),
            Err(e) => Err(e),
        }
    }

    /// The occupants, in the order in which they came in.
    pub fn sessions(&self) -> (table: &IdMap<RoomSlot>)
        ensures
            table@ == self@.occupants,
    {
        &self.sessions
    }

    /// Gives occupant `id` the name `name`.
    pub fn rename(&mut self, id: usize, name: String) -> (done: Result<(), IuroError>)
        requires
            old(self).wf(),
        ensures
            final(self).wf(),
            final(self)@ == old(self)@.rename(id, name@),
            match done {
                Ok(_) => has_id(old(self)@.occupants, id),
                Err(e) => !has_id(old(self)@.occupants, id) && e@ == ErrorModel::AddrNotFound(id),
            },
    {
        match self.sessions.position(id) {
            Some(at) => {
                let slot = self.sessions.value_mut(at);
                slot.name = name;
                proof {
                    lemma_rename(old(self)@, id, name@);
                    assert(self@ == old(self)@.rename(id, name@));
                }
                Ok(())
            },
            None => Err(IuroError::AddrNotFound(id)),
        }
    }

    /// Takes `id` out of the room and gives back its slot. The round in play
    /// is called off: it would wait for an input that cannot come.
    pub fn remove_session(&mut self, id: usize) -> (slot: Option<RoomSlot>)
        requires
            old(self).wf(),
        ensures
            final(self).wf(),
            final(self)@ == old(self)@.leave(id),
            match slot {
                Some(left) => value_of(old(self)@.occupants, id) == Some(left@),
                None => !has_id(old(self)@.occupants, id),
            },
    {
        proof {
            lemma_without_id(self.sessions@, id);
        }
        let slot = self.sessions.remove(id);
        if slot.is_some() {
            self.game = None;
        }
        slot
    }

    /// Calls the round in play off, if a game is on.
    pub fn reset_game(&mut self)
        requires
            old(self).wf(),
        ensures
            final(self).wf(),
            final(self)@ == (RoomModel { game: None, ..old(self)@ }),
    {
        self.game = None;
    }
}

} // verus!
