//! What holds of a room whatever is asked of it.
use vstd::prelude::*;
use crate::games::{GameInputModel, GameModel, GameStateModel};
use crate::room::{fresh_backlog, let_in, started, RoomModel, SlotModel, BACKLOG, EXPECTED_USERS};
use crate::table::{
    distinct_ids, has_id, index_of, lemma_with_entry, lemma_without_id, value_of,
};

verus! {

/// Who is in a room after each of `joins`, an id with a name, has asked in
/// turn to be let in.
pub open spec fn let_in_all(
    occupants: Seq<(usize, SlotModel)>,
    joins: Seq<(usize, Seq<char>)>,
) -> Seq<(usize, SlotModel)>
    decreases joins.len(),
{
    if joins.len() == 0 {
        occupants
    } else {
        let_in_all(let_in(occupants, joins[0].0, joins[0].1), joins.drop_first())
    }
}

/// However many ask to be let in, and in whatever order, a room never holds
/// more than `EXPECTED_USERS`, and never the same id twice.
pub proof fn lemma_joins_stay_within_capacity(
    occupants: Seq<(usize, SlotModel)>,
    joins: Seq<(usize, Seq<char>)>,
)
    requires
        distinct_ids(occupants),
        occupants.len() <= EXPECTED_USERS,
    ensures
        distinct_ids(let_in_all(occupants, joins)),
        let_in_all(occupants, joins).len() <= EXPECTED_USERS,
    decreases joins.len(),
{
    if joins.len() > 0 {
        lemma_with_entry(occupants, joins[0].0, SlotModel { name: joins[0].1, wins: 0 });
        lemma_joins_stay_within_capacity(
            let_in(occupants, joins[0].0, joins[0].1),
            joins.drop_first(),
        );
    }
}

/// Once a room is full, no one who asks is let in, however many ask: who
/// is in stays as it is.
pub proof fn lemma_full_room_lets_no_one_in(
    occupants: Seq<(usize, SlotModel)>,
    joins: Seq<(usize, Seq<char>)>,
)
    requires
        occupants.len() == EXPECTED_USERS,
    ensures
        let_in_all(occupants, joins) == occupants,
    decreases joins.len(),
{
    if joins.len() > 0 {
        lemma_full_room_lets_no_one_in(occupants, joins.drop_first());
    }
}

/// Whoever is let into a room starts there without wins, and the wins of
/// everyone else stay as they are.
pub proof fn lemma_seat_starts_without_wins(
    room: RoomModel,
    id: usize,
    name: Seq<char>,
    other: usize,
)
    requires
        room.wf(),
    ensures
        has_id(room.seat(id, name).occupants, id),
        room.seat(id, name).wins_of(id) == 0,
        other != id && has_id(room.occupants, other) ==> has_id(
            room.seat(id, name).occupants,
            other,
        ) && room.seat(id, name).wins_of(other) == room.wins_of(other),
{
    let slot = SlotModel { name, wins: 0 };
    lemma_with_entry(room.occupants, id, slot);
    assert(value_of(room.seat(id, name).occupants, id) == Some(slot));
    if other != id && has_id(room.occupants, other) {
        assert(value_of(room.seat(id, name).occupants, other) == value_of(room.occupants, other));
    }
}

/// Starting a game takes the game from the end of the backlog, and draws
/// the backlog anew, `BACKLOG` games long, exactly when that game was the
/// last one left. The backlog is never left empty.
pub proof fn lemma_backlog_refills_when_empty(before: RoomModel, game: GameModel, after: RoomModel)
    requires
        before.backlog.len() >= 1,
        started(before, game, after),
    ensures
        game == before.backlog.last(),
        after.backlog.len() >= 1,
        before.backlog.len() == 1 ==> after.backlog.len() == BACKLOG && fresh_backlog(
            after.backlog,
        ),
        before.backlog.len() > 1 ==> after.backlog == before.backlog.drop_last(),
        match after.game {
            Some(round) => round.game() == game && round.submitted().len() == 0,
            None => false,
        },
{
}

/// An input never takes a win from anyone: whoever is in the room stays in
/// it, in the same place and under the same name, with the wins it had or
/// with one more.
pub proof fn lemma_update_keeps_wins(room: RoomModel, id: usize, input: GameInputModel, k: int)
    requires
        room.wf(),
        0 <= k < room.occupants.len(),
    ensures
        room.update(id, input).occupants.len() == room.occupants.len(),
        room.update(id, input).occupants[k].0 == room.occupants[k].0,
        room.update(id, input).occupants[k].1.name == room.occupants[k].1.name,
        room.occupants[k].1.wins <= room.update(id, input).occupants[k].1.wins
            <= room.occupants[k].1.wins + 1,
        !room.completes(id, input) ==> room.update(id, input).occupants == room.occupants,
{
}

/// An input that fills the round settles it: every occupant whose input
/// wins has one win more, no one else has, and the round is empty again, so
/// that it is settled anew only when everyone has sent an input anew.
pub proof fn lemma_full_round_is_settled(room: RoomModel, id: usize, input: GameInputModel, k: int)
    requires
        room.wf(),
        room.completes(id, input),
        0 <= k < room.occupants.len(),
    ensures
        ({
            let recorded = room.game.unwrap().record(id, input);
            let after = room.update(id, input);
            &&& after.game == Some(recorded.cleared())
            &&& after.game.unwrap().submitted().len() == 0
            &&& after.backlog == room.backlog
            &&& after.occupants[k].1.wins == room.occupants[k].1.wins + if recorded.is_winner(
                room.occupants[k].0,
            ) {
                1nat
            } else {
                0nat
            }
        }),
{
}

/// An input that does not fill the round leaves it open with the input in
/// it, and no win is counted.
pub proof fn lemma_open_round_waits(room: RoomModel, id: usize, input: GameInputModel)
    requires
        room.wf(),
        room.refusal(id, input).is_none(),
        !room.completes(id, input),
    ensures
        room.update(id, input).game == Some(room.game.unwrap().record(id, input)),
        room.update(id, input).occupants == room.occupants,
{
}

/// When an occupant leaves, the round in play is called off with every
/// input in it, and the one who left is no longer in. No input that was
/// sent before can count in a later round.
pub proof fn lemma_leave_calls_the_round_off(room: RoomModel, id: usize)
    requires
        room.wf(),
        has_id(room.occupants, id),
    ensures
        room.leave(id).game.is_none(),
        !has_id(room.leave(id).occupants, id),
        room.leave(id).occupants.len() == room.occupants.len() - 1,
        room.leave(id).wf(),
{
    lemma_without_id(room.occupants, id);
}

/// In the round in play, every input is from someone who is in the room.
pub proof fn lemma_inputs_are_from_occupants(room: RoomModel, i: int)
    requires
        room.wf(),
        room.game.is_some(),
        0 <= i < room.game.unwrap().submitted().len(),
    ensures
        has_id(room.occupants, room.game.unwrap().submitted()[i]),
{
}

/// A room that is not full stays as it should be when someone comes in:
/// whoever was in is still in, and the round in play, if there is one, is
/// as it was.
pub proof fn lemma_seat_keeps_the_room(room: RoomModel, id: usize, name: Seq<char>)
    requires
        room.wf(),
        !room.is_full(),
    ensures
        room.seat(id, name).wf(),
        room.seat(id, name).occupants.len() >= 1,
        forall|who: usize| #[trigger]
            has_id(room.seat(id, name).occupants, who) <==> who == id || has_id(
                room.occupants,
                who,
            ),
{
    let seated = room.seat(id, name);
    lemma_with_entry(room.occupants, id, SlotModel { name, wins: 0 });
    assert forall|who: usize| #[trigger]
        has_id(seated.occupants, who) <==> who == id || has_id(room.occupants, who) by {}
    if let Some(round) = seated.game {
        assert forall|i: int| 0 <= i < round.submitted().len() implies has_id(
            seated.occupants,
            #[trigger] round.submitted()[i],
        ) by {
            assert(has_id(room.occupants, round.submitted()[i]));
        }
    }
}

/// A room stays as it should be when a game starts in it: the same are in
/// it, and the round is open with no input in it.
pub proof fn lemma_started_keeps_the_room(before: RoomModel, game: GameModel, after: RoomModel)
    requires
        before.wf(),
        started(before, game, after),
    ensures
        after.wf(),
        after.game.is_some(),
{
    let round = GameStateModel::opening(game);
    assert(round.submitted().len() == 0);
}

/// A room stays as it should be whatever input comes: the same are in it,
/// in the same places, and a round is in play afterwards exactly if one was
/// before.
pub proof fn lemma_update_keeps_the_room(room: RoomModel, id: usize, input: GameInputModel)
    requires
        room.wf(),
    ensures
        room.update(id, input).wf(),
        room.update(id, input).game.is_some() == room.game.is_some(),
        room.update(id, input).occupants.len() == room.occupants.len(),
        forall|k: int|
            0 <= k < room.occupants.len() ==> (#[trigger] room.update(id, input).occupants[k]).0
                == room.occupants[k].0,
        forall|who: usize|
            has_id(room.update(id, input).occupants, who) == has_id(room.occupants, who),
{
    let after = room.update(id, input);
    assert forall|k: int| 0 <= k < room.occupants.len() implies (#[trigger] after.occupants[k]).0
        == room.occupants[k].0 by {}
    assert forall|who: usize| has_id(after.occupants, who) == has_id(room.occupants, who) by {
        if has_id(room.occupants, who) {
            let k = index_of(room.occupants, who);
            assert(after.occupants[k].0 == who);
        }
        if has_id(after.occupants, who) {
            let k = index_of(after.occupants, who);
            assert(room.occupants[k].0 == who);
        }
    }
    assert forall|a: int, b: int| 0 <= a < b < after.occupants.len() implies (
    #[trigger] after.occupants[a]).0 != (#[trigger] after.occupants[b]).0 by {
        assert(room.occupants[a].0 != room.occupants[b].0);
    }
    if room.refusal(id, input).is_none() {
        let before = room.game.unwrap();
        let recorded = before.record(id, input);
        if room.completes(id, input) {
            assert(recorded.cleared().submitted().len() == 0);
        } else {
            match (before, input) {
                (
                    GameStateModel::RockPapiuroScissor(inputs),
                    GameInputModel::RockPapiuroScissor(choice),
                ) => {
                    lemma_with_entry(inputs, id, choice);
                    let taken = crate::table::with_entry(inputs, id, choice);
                    assert forall|i: int| 0 <= i < recorded.submitted().len() implies has_id(
                        after.occupants,
                        #[trigger] recorded.submitted()[i],
                    ) by {
                        let who = taken[i].0;
                        if who != id {
                            assert(has_id(inputs, who));
                            let k = index_of(inputs, who);
                            assert(before.submitted()[k] == who);
                        }
                    }
                },
                (GameStateModel::TheRightIuro(_, inputs), GameInputModel::TheRightIuro(guess)) => {
                    lemma_with_entry(inputs, id, guess);
                    let taken = crate::table::with_entry(inputs, id, guess);
                    assert forall|i: int| 0 <= i < recorded.submitted().len() implies has_id(
                        after.occupants,
                        #[trigger] recorded.submitted()[i],
                    ) by {
                        let who = taken[i].0;
                        if who != id {
                            assert(has_id(inputs, who));
                            let k = index_of(inputs, who);
                            assert(before.submitted()[k] == who);
                        }
                    }
                },
                _ => {},
            }
        }
    }
}

} // verus!
