//! What holds of the hub whatever is asked of it.
use vstd::prelude::*;
use crate::error::ErrorModel;
use crate::games::GameInputModel;
use crate::messages::DeliveryModel;
use crate::room::laws::{
    lemma_leave_calls_the_round_off, lemma_seat_keeps_the_room, lemma_started_keeps_the_room,
    lemma_update_keeps_the_room, lemma_update_keeps_wins,
};
use crate::room::{SlotModel, EXPECTED_USERS};
use crate::server::model::{
    joined, lemma_enlist, lemma_home_unique, lemma_push_room, lemma_release, lemma_remove_room,
    lemma_rename, lemma_room_index_unique, lemma_slot_of_bound, lemma_slot_of_unbound, lemma_vacate,
    lemma_with_room, played, HubModel,
};
use crate::server::names::default_name;
use crate::table::{
    has_id, index_of, lemma_index_of_unique, lemma_with_entry, lemma_without_id, value_of,
};

verus! {

/// How many of `sent` tell of a game that has started.
pub open spec fn game_starts(sent: Seq<DeliveryModel>) -> nat
    decreases sent.len(),
{
    if sent.len() == 0 {
        0
    } else {
        game_starts(sent.drop_last()) + if sent.last().message is GameStarted {
            1nat
        } else {
            0nat
        }
    }
}

/// A connection is never both in a room and among those in no room, and
/// never in two rooms.
pub proof fn lemma_in_one_place(hub: HubModel, id: usize, i: int, j: int)
    requires
        hub.wf(),
        0 <= i < hub.rooms.len(),
        0 <= j < hub.rooms.len(),
        hub.in_room(i, id),
    ensures
        !hub.is_unbound(id),
        hub.in_room(j, id) ==> i == j,
{
    lemma_home_unique(hub, id, i);
    if hub.in_room(j, id) {
        lemma_home_unique(hub, id, j);
    }
}

/// A room is among the rooms that the hub lists exactly when someone is in
/// it, and no room that it lists holds more than `EXPECTED_USERS`.
pub proof fn lemma_listed_iff_occupied(hub: HubModel, name: Seq<char>)
    requires
        hub.wf(),
    ensures
        hub.room_names().contains(name) <==> hub.occupants_of(name).len() >= 1,
        hub.occupants_of(name).len() <= EXPECTED_USERS,
{
    if hub.room_names().contains(name) {
        let i = choose|i: int| 0 <= i < hub.room_names().len() && hub.room_names()[i] == name;
        assert(hub.rooms[i].0 == name);
        lemma_room_index_unique(hub, name, i);
        assert(hub.rooms[i].1.serving());
    }
    if hub.has_room(name) {
        let i = hub.room_index(name);
        assert(hub.rooms[i].1.serving());
        assert(hub.room_names()[i] == name);
    }
}

/// A connection that asks to be let into a full room is turned down, and
/// so is one that is not open; everyone else is let in.
pub proof fn lemma_full_room_refuses(hub: HubModel, id: usize, name: Seq<char>)
    requires
        hub.wf(),
        hub.knows(id),
    ensures
        hub.occupants_of(name).len() == EXPECTED_USERS ==> hub.join_refusal(id, name) == Some(
            ErrorModel::FullRoom(name),
        ),
        hub.occupants_of(name).len() < EXPECTED_USERS ==> hub.join_refusal(id, name).is_none(),
{
}

/// A farewell tells of no game.
pub proof fn lemma_farewells_start_no_game(hub: HubModel, id: usize)
    ensures
        game_starts(hub.farewells(id)) == 0,
{
    let sent = hub.farewells(id);
    if sent.len() > 0 {
        assert(sent.drop_last().len() == 0);
        assert(game_starts(sent.drop_last()) == 0);
    }
}

/// The hub stays as it should be when a connection is let into a room: no
/// room holds more than `EXPECTED_USERS` afterwards, no connection is in two
/// places, and a game is on exactly in the rooms that are full.
pub proof fn lemma_joined_keeps_the_hub(
    before: HubModel,
    id: usize,
    name: Seq<char>,
    after: HubModel,
    sent: Seq<DeliveryModel>,
)
    requires
        before.wf(),
        before.join_refusal(id, name).is_none(),
        joined(before, id, name, after, sent),
    ensures
        after.wf(),
{
    let vacated = before.without(id);
    let newcomer = SlotModel { name: before.slot_of(id).name, wins: 0 };
    if before.is_unbound(id) {
        lemma_release(before, id);
    } else {
        lemma_vacate(before, id);
    }
    if vacated.has_room(name) {
        let t = vacated.room_index(name);
        assert(0 <= t < vacated.rooms.len() && vacated.rooms[t].0 == name);
        let room = vacated.rooms[t].1;
        assert(room.serving());
        assert(before.has_room(name));
        assert(!room.is_full());
        let seated = room.seat(id, newcomer.name);
        lemma_seat_keeps_the_room(room, id, newcomer.name);
        let next = after.rooms[t].1;
        if seated.is_full() {
            lemma_started_keeps_the_room(seated, seated.backlog.last(), next);
        }
        assert(next.serving());
        assert forall|who: usize| #[trigger] has_id(next.occupants, who)
            implies vacated.in_room(t, who) || !vacated.knows(who) by {
            assert(has_id(seated.occupants, who));
        }
        lemma_with_room(vacated, t, next);
        assert(after == vacated.with_room(t, next));
    } else {
        let room = after.rooms.last().1;
        assert(room.occupants[0].0 == id);
        assert forall|who: usize| #[trigger] has_id(room.occupants, who)
            implies !vacated.knows(who) by {
            let k = index_of(room.occupants, who);
            assert(k == 0);
        }
        assert(room.serving());
        lemma_push_room(vacated, name, room);
        assert(after.rooms =~= after.rooms.drop_last().push(after.rooms.last()));
        assert(after == (HubModel { rooms: vacated.rooms.push((name, room)), ..vacated }));
    }
}

/// The hub stays as it should be when a game input is taken: everyone is
/// where they were, and a game is on exactly in the rooms that are full.
pub proof fn lemma_played_keeps_the_hub(
    before: HubModel,
    id: usize,
    room: Seq<char>,
    input: GameInputModel,
    after: HubModel,
    sent: Seq<DeliveryModel>,
)
    requires
        before.wf(),
        before.input_refusal(id, room, input).is_none(),
        played(before, id, room, input, after, sent),
    ensures
        after.wf(),
{
    let t = before.room_index(room);
    assert(0 <= t < before.rooms.len() && before.rooms[t].0 == room);
    let was = before.rooms[t].1;
    assert(was.serving());
    let updated = was.update(id, input);
    lemma_update_keeps_the_room(was, id, input);
    let next = after.rooms[t].1;
    if was.completes(id, input) {
        lemma_started_keeps_the_room(updated, updated.backlog.last(), next);
    }
    assert(next.serving());
    assert forall|who: usize| #[trigger] has_id(next.occupants, who)
        implies before.in_room(t, who) || !before.knows(who) by {
        assert(has_id(updated.occupants, who));
    }
    lemma_with_room(before, t, next);
    assert(after == before.with_room(t, next));
}

/// Whoever is let into a room is in it afterwards, without wins. Exactly
/// one game starts if the room is full with the newcomer, and none
/// otherwise.
pub proof fn lemma_joined_starts_without_wins(
    before: HubModel,
    id: usize,
    name: Seq<char>,
    after: HubModel,
    sent: Seq<DeliveryModel>,
)
    requires
        before.wf(),
        before.join_refusal(id, name).is_none(),
        joined(before, id, name, after, sent),
    ensures
        after.has_room(name),
        has_id(after.room(name).occupants, id),
        after.room(name).wins_of(id) == 0,
        !after.is_unbound(id),
        game_starts(sent) == if after.room(name).is_full() {
            1nat
        } else {
            0nat
        },
{
    lemma_joined_keeps_the_hub(before, id, name, after, sent);
    let vacated = before.without(id);
    let newcomer = SlotModel { name: before.slot_of(id).name, wins: 0 };
    lemma_farewells_start_no_game(before, id);
    if vacated.has_room(name) {
        let t = vacated.room_index(name);
        let seated = vacated.rooms[t].1.seat(id, newcomer.name);
        assert(0 <= t < vacated.rooms.len());
        assert(after.rooms[t].0 == name);
        lemma_room_index_unique(after, name, t);
        lemma_with_entry(vacated.rooms[t].1.occupants, id, newcomer);
        assert(after.room(name).occupants == seated.occupants);
        assert(value_of(seated.occupants, id) == Some(newcomer));
        assert(after.in_room(t, id));
        lemma_home_unique(after, id, t);
        if seated.is_full() {
            assert(sent.drop_last() =~= before.farewells(id));
        }
    } else {
        let t = after.rooms.len() - 1;
        assert(after.rooms[t] == after.rooms.last());
        lemma_room_index_unique(after, name, t);
        let occupants = after.room(name).occupants;
        assert(occupants[0].0 == id);
        lemma_index_of_unique(occupants, id, 0);
        assert(after.in_room(t, id));
        lemma_home_unique(after, id, t);
    }
}

/// A game input that is taken leaves no room without a round: the room that
/// it is for is still there, in its place, with as many in it as before and
/// with a round in play, be it the one that the input went into or the
/// first of the game that started when that one was settled.
pub proof fn lemma_played_leaves_a_round(
    before: HubModel,
    id: usize,
    room: Seq<char>,
    input: GameInputModel,
    after: HubModel,
    sent: Seq<DeliveryModel>,
)
    requires
        before.wf(),
        before.input_refusal(id, room, input).is_none(),
        played(before, id, room, input, after, sent),
    ensures
        after.has_room(room),
        after.room_index(room) == before.room_index(room),
        after.room(room).game.is_some(),
        after.room(room).occupants.len() == before.room(room).occupants.len(),
        after.room(room).is_full(),
{
    lemma_played_keeps_the_hub(before, id, room, input, after, sent);
    let t = before.room_index(room);
    assert(0 <= t < before.rooms.len() && before.rooms[t].0 == room);
    assert(after.rooms[t].0 == room);
    lemma_room_index_unique(after, room, t);
    assert(before.rooms[t].1.serving());
}

/// When a connection leaves its room, the round in play there is called
/// off with every input in it, and the one who left is in the room no
/// longer, if the room is still there: no input that was sent before can
/// count in a later round.
pub proof fn lemma_vacate_calls_the_round_off(hub: HubModel, id: usize)
    requires
        hub.wf(),
        hub.is_bound(id),
    ensures
        ({
            let name = hub.rooms[hub.home(id)].0;
            &&& hub.vacate(id).occupants_of(name).len() == hub.occupants_of(name).len() - 1
            &&& !has_id(hub.vacate(id).occupants_of(name), id)
            &&& hub.vacate(id).has_room(name) ==> hub.vacate(id).room(name).game.is_none()
        }),
{
    let at = hub.home(id);
    assert(0 <= at < hub.rooms.len() && hub.in_room(at, id));
    let name = hub.rooms[at].0;
    lemma_room_index_unique(hub, name, at);
    let room = hub.rooms[at].1;
    assert(room.serving());
    lemma_leave_calls_the_round_off(room, id);
    let left = room.leave(id);
    let after = hub.vacate(id);
    lemma_vacate(hub, id);
    if left.occupants.len() == 0 {
        lemma_remove_room(hub, at);
        if after.has_room(name) {
            let i = after.room_index(name);
            let a = if i < at { i } else { i + 1 };
            assert(after.rooms[i] == hub.rooms[a]);
            if a < at {
                assert(hub.rooms[a].0 != hub.rooms[at].0);
            } else {
                assert(hub.rooms[at].0 != hub.rooms[a].0);
            }
        }
    } else {
        assert forall|who: usize| #[trigger] has_id(left.occupants, who)
            implies hub.in_room(at, who) || !hub.knows(who) by {
            lemma_without_id(room.occupants, id);
        }
        lemma_with_room(hub, at, left);
        assert(after.rooms[at].0 == name);
        lemma_room_index_unique(after, name, at);
    }
}

/// When a connection goes, from a room or from among those in no room,
/// everyone else stays where they are, under the name and with the wins
/// they had.
pub proof fn lemma_without_keeps_the_others(hub: HubModel, id: usize, who: usize)
    requires
        hub.wf(),
        who != id,
    ensures
        hub.without(id).wf(),
        !hub.without(id).knows(id),
        hub.without(id).is_unbound(who) == hub.is_unbound(who),
        hub.without(id).is_bound(who) == hub.is_bound(who),
        hub.knows(who) ==> hub.without(id).slot_of(who) == hub.slot_of(who),
        hub.is_bound(who) ==> hub.without(id).rooms[hub.without(id).home(who)].0
            == hub.rooms[hub.home(who)].0,
{
    let after = hub.without(id);
    if hub.is_unbound(id) {
        lemma_release(hub, id);
        lemma_without_id(hub.unbound, id);
        assert(value_of(after.unbound, who) == value_of(hub.unbound, who));
        assert forall|i: int| 0 <= i < hub.rooms.len() implies #[trigger] after.in_room(i, who)
            == hub.in_room(i, who) by {}
        if hub.is_bound(who) {
            let h = hub.home(who);
            assert(hub.in_room(h, who));
            assert(after.in_room(h, who));
            lemma_home_unique(after, who, h);
            lemma_home_unique(hub, who, h);
        }
        if after.is_bound(who) {
            let h = after.home(who);
            assert(after.in_room(h, who));
            assert(hub.in_room(h, who));
        }
    } else if hub.is_bound(id) {
        lemma_vacate(hub, id);
        let at = hub.home(id);
        assert(0 <= at < hub.rooms.len() && hub.in_room(at, id));
        let room = hub.rooms[at].1;
        assert(room.serving());
        let left = room.leave(id);
        lemma_without_id(room.occupants, id);
        if hub.is_bound(who) {
            let h = hub.home(who);
            assert(0 <= h < hub.rooms.len() && hub.in_room(h, who));
            lemma_home_unique(hub, who, h);
            let k = index_of(hub.rooms[h].1.occupants, who);
            assert(hub.rooms[h].1.occupants[k].0 == who);
            lemma_slot_of_bound(hub, who, h, k);
            if h == at {
                assert(has_id(left.occupants, who));
                assert(left.occupants.len() > 0);
                let j = index_of(left.occupants, who);
                assert(after.rooms[at] == (hub.rooms[at].0, left));
                lemma_slot_of_bound(after, who, at, j);
                assert(value_of(left.occupants, who) == value_of(room.occupants, who));
            } else {
                let a = if left.occupants.len() == 0 && h > at {
                    h - 1
                } else {
                    h
                };
                assert(after.rooms[a] == hub.rooms[h]);
                lemma_slot_of_bound(after, who, a, k);
            }
        }
    } else {
        if hub.is_bound(id) {
        }
    }
}

/// Whoever is let into a room leaves everyone else where they are, under
/// the name and with the wins they had.
pub proof fn lemma_joined_keeps_the_others(
    before: HubModel,
    id: usize,
    name: Seq<char>,
    after: HubModel,
    sent: Seq<DeliveryModel>,
    who: usize,
)
    requires
        before.wf(),
        before.join_refusal(id, name).is_none(),
        joined(before, id, name, after, sent),
        who != id,
        before.knows(who),
    ensures
        after.is_unbound(who) == before.is_unbound(who),
        after.is_bound(who) == before.is_bound(who),
        after.slot_of(who) == before.slot_of(who),
        before.is_bound(who) ==> after.rooms[after.home(who)].0 == before.rooms[before.home(
            who,
        )].0,
{
    lemma_joined_keeps_the_hub(before, id, name, after, sent);
    let vacated = before.without(id);
    lemma_without_keeps_the_others(before, id, who);
    let newcomer = SlotModel { name: before.slot_of(id).name, wins: 0 };
    if vacated.is_unbound(who) {
        let k = index_of(vacated.unbound, who);
        assert(vacated.unbound[k].0 == who);
        lemma_slot_of_unbound(vacated, who, k);
        lemma_slot_of_unbound(after, who, k);
    } else {
        let h = vacated.home(who);
        assert(0 <= h < vacated.rooms.len() && vacated.in_room(h, who));
        let k = index_of(vacated.rooms[h].1.occupants, who);
        assert(vacated.rooms[h].1.occupants[k].0 == who);
        lemma_slot_of_bound(vacated, who, h, k);
        if vacated.has_room(name) {
            let t = vacated.room_index(name);
            assert(0 <= t < vacated.rooms.len() && vacated.rooms[t].0 == name);
            if h == t {
                let seated = vacated.rooms[t].1.seat(id, newcomer.name);
                lemma_with_entry(vacated.rooms[t].1.occupants, id, newcomer);
                assert(after.rooms[t].1.occupants == seated.occupants);
                assert(value_of(seated.occupants, who) == value_of(
                    vacated.rooms[t].1.occupants,
                    who,
                ));
                let j = index_of(seated.occupants, who);
                assert(seated.occupants[j].0 == who);
                lemma_slot_of_bound(after, who, t, j);
            } else {
                assert(after.rooms[h] == vacated.rooms[h]);
                lemma_slot_of_bound(after, who, h, k);
            }
        } else {
            assert(after.rooms.drop_last()[h] == vacated.rooms[h]);
            assert(after.rooms[h] == vacated.rooms[h]);
            lemma_slot_of_bound(after, who, h, k);
        }
    }
}

/// A game input moves no one and takes no win from anyone, in whatever room:
/// everyone stays where they are, under the name they had, with the wins
/// they had or with one more.
pub proof fn lemma_played_keeps_everyone(
    before: HubModel,
    id: usize,
    room: Seq<char>,
    input: GameInputModel,
    after: HubModel,
    sent: Seq<DeliveryModel>,
    who: usize,
)
    requires
        before.wf(),
        before.input_refusal(id, room, input).is_none(),
        played(before, id, room, input, after, sent),
        before.knows(who),
    ensures
        after.is_unbound(who) == before.is_unbound(who),
        after.is_bound(who) == before.is_bound(who),
        after.slot_of(who).name == before.slot_of(who).name,
        before.slot_of(who).wins <= after.slot_of(who).wins <= before.slot_of(who).wins + 1,
        before.is_bound(who) ==> after.rooms[after.home(who)].0 == before.rooms[before.home(
            who,
        )].0,
{
    lemma_played_keeps_the_hub(before, id, room, input, after, sent);
    let t = before.room_index(room);
    assert(0 <= t < before.rooms.len() && before.rooms[t].0 == room);
    if before.is_unbound(who) {
        let k = index_of(before.unbound, who);
        assert(before.unbound[k].0 == who);
        lemma_slot_of_unbound(before, who, k);
        lemma_slot_of_unbound(after, who, k);
    } else {
        let h = before.home(who);
        assert(0 <= h < before.rooms.len() && before.in_room(h, who));
        let k = index_of(before.rooms[h].1.occupants, who);
        assert(before.rooms[h].1.occupants[k].0 == who);
        lemma_slot_of_bound(before, who, h, k);
        if h == t {
            assert(before.rooms[t].1.serving());
            lemma_update_keeps_wins(before.rooms[t].1, id, input, k);
            assert(after.rooms[t].1.occupants == before.rooms[t].1.update(id, input).occupants);
            lemma_slot_of_bound(after, who, t, k);
        } else {
            assert(after.rooms[h] == before.rooms[h]);
            lemma_slot_of_bound(after, who, h, k);
        }
    }
}

/// A change of name changes the name of the one who asked for it, and
/// nothing else: everyone stays where they are, with the wins they had.
pub proof fn lemma_rename_keeps_wins(
    hub: HubModel,
    id: usize,
    room: Option<Seq<char>>,
    name: Seq<char>,
    who: usize,
)
    requires
        hub.wf(),
        hub.knows(who),
    ensures
        hub.rename(id, room, name).is_unbound(who) == hub.is_unbound(who),
        hub.rename(id, room, name).is_bound(who) == hub.is_bound(who),
        hub.rename(id, room, name).slot_of(who).wins == hub.slot_of(who).wins,
        hub.rename(id, room, name).slot_of(who).name == if who == id && hub.rename_refusal(
            id,
            room,
        ).is_none() {
            name
        } else {
            hub.slot_of(who).name
        },
{
    let after = hub.rename(id, room, name);
    lemma_rename(hub, id, room, name);
    if hub.rename_refusal(id, room).is_none() {
        match room {
            Some(room) => {
                let t = hub.room_index(room);
                assert(0 <= t < hub.rooms.len() && hub.rooms[t].0 == room);
                assert(hub.in_room(t, id));
                lemma_home_unique(hub, id, t);
                let before = hub.rooms[t].1;
                assert(before.serving());
                crate::room::lemma_rename(before, id, name);
                let at = index_of(before.occupants, id);
                assert(before.occupants[at].0 == id);
                if hub.is_unbound(who) {
                    let k = index_of(hub.unbound, who);
                    assert(hub.unbound[k].0 == who);
                    lemma_slot_of_unbound(hub, who, k);
                    lemma_slot_of_unbound(after, who, k);
                } else {
                    let h = hub.home(who);
                    assert(0 <= h < hub.rooms.len() && hub.in_room(h, who));
                    let k = index_of(hub.rooms[h].1.occupants, who);
                    assert(hub.rooms[h].1.occupants[k].0 == who);
                    lemma_slot_of_bound(hub, who, h, k);
                    if h == t {
                        assert(after.rooms[t].1.occupants[k].0 == who);
                        lemma_slot_of_bound(after, who, t, k);
                    } else {
                        assert(after.rooms[h] == hub.rooms[h]);
                        lemma_slot_of_bound(after, who, h, k);
                    }
                }
            },
            None => {
                let at = index_of(hub.unbound, id);
                assert(hub.unbound[at].0 == id);
                if hub.is_unbound(who) {
                    let k = index_of(hub.unbound, who);
                    assert(hub.unbound[k].0 == who);
                    assert(after.unbound[k].0 == who);
                    lemma_slot_of_unbound(hub, who, k);
                    lemma_slot_of_unbound(after, who, k);
                } else {
                    let h = hub.home(who);
                    assert(0 <= h < hub.rooms.len() && hub.in_room(h, who));
                    let k = index_of(hub.rooms[h].1.occupants, who);
                    assert(hub.rooms[h].1.occupants[k].0 == who);
                    lemma_slot_of_bound(hub, who, h, k);
                    lemma_slot_of_bound(after, who, h, k);
                }
            },
        }
    }
}

/// A connection that opens leaves everyone else where they are, under the
/// name and with the wins they had.
pub proof fn lemma_connect_keeps_the_others(hub: HubModel, id: usize, who: usize)
    requires
        hub.wf(),
        who != id,
        hub.knows(who),
    ensures
        hub.connect(id).wf(),
        hub.connect(id).is_unbound(id),
        hub.connect(id).is_unbound(who) == hub.is_unbound(who),
        hub.connect(id).is_bound(who) == hub.is_bound(who),
        hub.connect(id).slot_of(who) == hub.slot_of(who),
{
    let cleared = if !hub.is_unbound(id) && hub.is_bound(id) {
        hub.vacate(id)
    } else {
        hub
    };
    let slot = SlotModel { name: default_name(id), wins: 0 };
    let after = hub.connect(id);
    if !hub.is_unbound(id) && hub.is_bound(id) {
        lemma_without_keeps_the_others(hub, id, who);
        assert(cleared == hub.without(id));
    } else if hub.is_unbound(id) {
        if hub.is_bound(id) {
            let h = hub.home(id);
            assert(hub.in_room(h, id));
        }
    }
    assert(cleared.wf());
    assert(!cleared.is_bound(id));
    lemma_enlist(cleared, id, slot);
    lemma_with_entry(cleared.unbound, id, slot);
    assert(after.rooms == cleared.rooms);
    assert(value_of(after.unbound, who) == value_of(cleared.unbound, who));
    if cleared.is_bound(who) {
        let h = cleared.home(who);
        assert(0 <= h < cleared.rooms.len() && cleared.in_room(h, who));
        let k = index_of(cleared.rooms[h].1.occupants, who);
        assert(cleared.rooms[h].1.occupants[k].0 == who);
        lemma_slot_of_bound(cleared, who, h, k);
        assert(after.in_room(h, who));
        lemma_slot_of_bound(after, who, h, k);
    } else {
        if after.is_bound(who) {
            let h = after.home(who);
            assert(after.in_room(h, who));
            assert(cleared.in_room(h, who));
        }
    }
}

} // verus!
