//! The hub as the contracts see it: what it holds, what holds of it, and
//! what each command makes of it.
use vstd::prelude::*;
use crate::error::ErrorModel;
use crate::games::GameInputModel;
use crate::messages::{BroadcastModel, DeliveryModel, Request};
use crate::room::{fresh_backlog, scoreboard, started, RoomModel, SlotModel};
use crate::server::names::default_name;
use crate::table::{
    distinct_ids, has_id, ids_of, index_of, lemma_index_of_unique, lemma_with_entry,
    lemma_without_id, with_entry, without_id,
};

verus! {

/// The hub as the contracts see it.
pub struct HubModel {
    /// The connections that are in no room, in the order in which each
    /// came, with the name each goes by.
    pub unbound: Seq<(usize, SlotModel)>,
    /// The rooms by name, in the order in which each was made.
    pub rooms: Seq<(Seq<char>, RoomModel)>,
}

impl HubModel {
    /// A room goes by `name`.
    pub open spec fn has_room(self, name: Seq<char>) -> bool {
        exists|i: int| 0 <= i < self.rooms.len() && (#[trigger] self.rooms[i]).0 == name
    }

    /// The place of the room that goes by `name`, where there is one.
    pub open spec fn room_index(self, name: Seq<char>) -> int {
        choose|i: int| 0 <= i < self.rooms.len() && (#[trigger] self.rooms[i]).0 == name
    }

    /// The room that goes by `name`, where there is one.
    pub open spec fn room(self, name: Seq<char>) -> RoomModel {
        self.rooms[self.room_index(name)].1
    }

    /// The occupants of the room that goes by `name`; none where there is
    /// no such room.
    pub open spec fn occupants_of(self, name: Seq<char>) -> Seq<(usize, SlotModel)> {
        if self.has_room(name) {
            self.room(name).occupants
        } else {
            Seq::empty()
        }
    }

    /// The names of the rooms, in the order in which each was made.
    pub open spec fn room_names(self) -> Seq<Seq<char>> {
        Seq::new(self.rooms.len(), |i: int| self.rooms[i].0)
    }

    /// Connection `id` is in the room at place `i`.
    pub open spec fn in_room(self, i: int, id: usize) -> bool {
        has_id(self.rooms[i].1.occupants, id)
    }

    /// Connection `id` is in a room.
    pub open spec fn is_bound(self, id: usize) -> bool {
        exists|i: int| 0 <= i < self.rooms.len() && #[trigger] self.in_room(i, id)
    }

    /// The place of the room that `id` is in, where it is in one.
    pub open spec fn home(self, id: usize) -> int {
        choose|i: int| 0 <= i < self.rooms.len() && #[trigger] self.in_room(i, id)
    }

    /// Connection `id` is open and in no room.
    pub open spec fn is_unbound(self, id: usize) -> bool {
        has_id(self.unbound, id)
    }

    /// Connection `id` is open.
    pub open spec fn knows(self, id: usize) -> bool {
        self.is_unbound(id) || self.is_bound(id)
    }

    /// What the hub keeps of connection `id`, where it is open.
    pub open spec fn slot_of(self, id: usize) -> SlotModel {
        if self.is_unbound(id) {
            self.unbound[index_of(self.unbound, id)].1
        } else {
            let room = self.rooms[self.home(id)].1;
            room.occupants[index_of(room.occupants, id)].1
        }
    }

    /// What holds of every hub: no connection is kept twice, neither in one
    /// place nor in two; no two rooms go by one name; and every room is one
    /// that the hub may keep: someone is in it, at most `EXPECTED_USERS`
    /// are, and a game is on in it exactly when it is full.
    pub open spec fn wf(self) -> bool {
        &&& distinct_ids(self.unbound)
        &&& forall|i: int, j: int|
            0 <= i < j < self.rooms.len() ==> (#[trigger] self.rooms[i]).0 != (
            #[trigger] self.rooms[j]).0
        &&& forall|i: int| 0 <= i < self.rooms.len() ==> (#[trigger] self.rooms[i]).1.serving()
        &&& forall|i: int, id: usize|
            0 <= i < self.rooms.len() && #[trigger] self.in_room(i, id) ==> !self.is_unbound(id)
        &&& forall|i: int, j: int, id: usize|
            0 <= i < j < self.rooms.len() && #[trigger] self.in_room(i, id)
                ==> !#[trigger] self.in_room(j, id)
    }

    /// The hub with the room at place `t` as `room`.
    pub open spec fn with_room(self, t: int, room: RoomModel) -> HubModel {
        HubModel { rooms: self.rooms.update(t, (self.rooms[t].0, room)), ..self }
    }

    /// The hub after bound `id` has left its room: the round in play there
    /// is called off, and the room is given up if no one is left in it.
    pub open spec fn vacate(self, id: usize) -> HubModel {
        let at = self.home(id);
        let left = self.rooms[at].1.leave(id);
        if left.occupants.len() == 0 {
            HubModel { rooms: self.rooms.remove(at), ..self }
        } else {
            self.with_room(at, left)
        }
    }

    /// What those who stay are told when bound `id` leaves its room.
    pub open spec fn farewell(self, id: usize) -> DeliveryModel {
        DeliveryModel {
            to: ids_of(self.rooms[self.home(id)].1.leave(id).occupants),
            message: BroadcastModel::Text("Someone disconnected"@),
        }
    }

    /// The hub without connection `id`, wherever it was.
    pub open spec fn without(self, id: usize) -> HubModel {
        if self.is_unbound(id) {
            HubModel { unbound: without_id(self.unbound, id), ..self }
        } else if self.is_bound(id) {
            self.vacate(id)
        } else {
            self
        }
    }

    /// What is sent when `id` goes from wherever it was: a farewell to its
    /// room, if it was in one.
    pub open spec fn farewells(self, id: usize) -> Seq<DeliveryModel> {
        if !self.is_unbound(id) && self.is_bound(id) {
            seq![self.farewell(id)]
        } else {
            Seq::empty()
        }
    }
}

impl HubModel {
    /// The hub with `id` open, in no room and under the name that it goes
    /// by until it picks one. A connection that was open under this id is
    /// gone: out of its room, if it was in one.
    pub open spec fn connect(self, id: usize) -> HubModel {
        let cleared = if !self.is_unbound(id) && self.is_bound(id) {
            self.vacate(id)
        } else {
            self
        };
        HubModel {
            unbound: with_entry(
                cleared.unbound,
                id,
                SlotModel { name: default_name(id), wins: 0 },
            ),
            ..cleared
        }
    }

    /// Why a change of name is turned down, if it is: the room that the
    /// session believes it is in does not exist, or the connection is not
    /// where the session believes it is.
    pub open spec fn rename_refusal(self, id: usize, room: Option<Seq<char>>) -> Option<
        ErrorModel,
    > {
        match room {
            Some(room) => if !self.has_room(room) {
                Some(ErrorModel::NoRoom(room))
            } else if !has_id(self.room(room).occupants, id) {
                Some(ErrorModel::AddrNotFound(id))
            } else {
                None
            },
            None => if !self.is_unbound(id) {
                Some(ErrorModel::AddrNotFound(id))
            } else {
                None
            },
        }
    }

    /// The hub after `id` has taken the name `name`. A change that is
    /// turned down changes nothing.
    pub open spec fn rename(self, id: usize, room: Option<Seq<char>>, name: Seq<char>) -> HubModel {
        if self.rename_refusal(id, room).is_some() {
            self
        } else {
            match room {
                Some(room) => self.with_room(
                    self.room_index(room),
                    self.room(room).rename(id, name),
                ),
                None => {
                    let at = index_of(self.unbound, id);
                    HubModel {
                        unbound: self.unbound.update(
                            at,
                            (id, SlotModel { name, wins: self.unbound[at].1.wins }),
                        ),
                        ..self
                    }
                },
            }
        }
    }

    /// Why a line of chat is turned down, if it is: the room does not
    /// exist, or the sender is not in it.
    pub open spec fn chat_refusal(self, id: usize, room: Seq<char>) -> Option<ErrorModel> {
        if !self.has_room(room) {
            Some(ErrorModel::NoRoom(room))
        } else if !has_id(self.room(room).occupants, id) {
            Some(ErrorModel::AddrNotFound(id))
        } else {
            None
        }
    }

    /// A line of chat as it goes out: to everyone in the room, the sender
    /// too, with the sender's name before it.
    pub open spec fn chat_line(self, id: usize, room: Seq<char>, text: Seq<char>) -> DeliveryModel {
        let occupants = self.room(room).occupants;
        DeliveryModel {
            to: ids_of(occupants),
            message: BroadcastModel::Text(
                occupants[index_of(occupants, id)].1.name + ": "@ + text,
            ),
        }
    }
}

impl HubModel {
    /// Why a connection is not let into a room, if it is not: it is not
    /// open, or the room is full.
    pub open spec fn join_refusal(self, id: usize, name: Seq<char>) -> Option<ErrorModel> {
        if !self.knows(id) {
            Some(ErrorModel::AddrNotFound(id))
        } else if self.has_room(name) && self.room(name).is_full() {
            Some(ErrorModel::FullRoom(name))
        } else {
            None
        }
    }

    /// Why a game input is turned down, if it is: the room does not exist,
    /// or the room turns it down.
    pub open spec fn input_refusal(
        self,
        id: usize,
        room: Seq<char>,
        input: GameInputModel,
    ) -> Option<ErrorModel> {
        if !self.has_room(room) {
            Some(ErrorModel::NoRoom(room))
        } else {
            self.room(room).refusal(id, input)
        }
    }
}

/// What letting `id` into the room `name` does to the hub, and what is
/// sent. The connection goes from wherever it is, as if it had closed, and
/// comes into the room without wins and under the name it went by; the
/// room is made, behind the others and with a backlog drawn at random, if
/// none goes by `name`. If the room is full with `id`, its first game
/// starts, and everyone in it is told which.
pub open spec fn joined(
    before: HubModel,
    id: usize,
    name: Seq<char>,
    after: HubModel,
    sent: Seq<DeliveryModel>,
) -> bool {
    let vacated = before.without(id);
    let newcomer = SlotModel { name: before.slot_of(id).name, wins: 0 };
    let farewells = before.farewells(id);
    &&& after.unbound == vacated.unbound
    &&& if vacated.has_room(name) {
        let t = vacated.room_index(name);
        let seated = vacated.rooms[t].1.seat(id, newcomer.name);
        &&& after.rooms == vacated.rooms.update(t, (name, after.rooms[t].1))
        &&& if seated.is_full() {
            &&& started(seated, seated.backlog.last(), after.rooms[t].1)
            &&& sent == farewells.push(
                DeliveryModel {
                    to: ids_of(seated.occupants),
                    message: BroadcastModel::GameStarted(seated.backlog.last()),
                },
            )
        } else {
            &&& after.rooms[t].1 == seated
            &&& sent == farewells
        }
    } else {
        &&& after.rooms.len() == vacated.rooms.len() + 1
        &&& after.rooms.drop_last() == vacated.rooms
        &&& after.rooms.last().0 == name
        &&& after.rooms.last().1.occupants == seq![(id, newcomer)]
        &&& after.rooms.last().1.game.is_none()
        &&& fresh_backlog(after.rooms.last().1.backlog)
        &&& sent == farewells
    }
}

/// What a game input that is taken does to the hub, and what is sent. Only
/// the room that the input is for changes. If the round is full with the
/// input, it is settled and the next game starts at once: everyone in the
/// room is sent the names and wins, and then the game that has started.
pub open spec fn played(
    before: HubModel,
    id: usize,
    room: Seq<char>,
    input: GameInputModel,
    after: HubModel,
    sent: Seq<DeliveryModel>,
) -> bool {
    let t = before.room_index(room);
    let updated = before.rooms[t].1.update(id, input);
    &&& after.unbound == before.unbound
    &&& after.rooms == before.rooms.update(t, (room, after.rooms[t].1))
    &&& if before.rooms[t].1.completes(id, input) {
        &&& started(updated, updated.backlog.last(), after.rooms[t].1)
        &&& sent == seq![
            DeliveryModel {
                to: ids_of(updated.occupants),
                message: BroadcastModel::GameEnded(scoreboard(updated.occupants)),
            },
            DeliveryModel {
                to: ids_of(updated.occupants),
                message: BroadcastModel::GameStarted(updated.backlog.last()),
            },
        ]
    } else {
        &&& after.rooms[t].1 == updated
        &&& sent == Seq::<DeliveryModel>::empty()
    }
}

/// Where the hub is as it should be, it stays so when a connection leaves
/// its room. The connection is then open nowhere, and everyone else is
/// where they were.
pub proof fn lemma_vacate(hub: HubModel, id: usize)
    requires
        hub.wf(),
        hub.is_bound(id),
    ensures
        hub.vacate(id).wf(),
        hub.vacate(id).unbound == hub.unbound,
        !hub.vacate(id).knows(id),
        forall|other: usize|
            other != id ==> #[trigger] hub.vacate(id).is_bound(other) == hub.is_bound(other),
        forall|name: Seq<char>| #[trigger]
            hub.vacate(id).has_room(name) ==> hub.has_room(name) && hub.vacate(id).room(
                name,
            ).occupants.len() <= hub.room(name).occupants.len(),
{
    let at = hub.home(id);
    assert(0 <= at < hub.rooms.len() && hub.in_room(at, id));
    lemma_home_unique(hub, id, at);
    let room = hub.rooms[at].1;
    assert(room.serving());
    let left = room.leave(id);
    lemma_without_id(room.occupants, id);
    let after = hub.vacate(id);
    if left.occupants.len() == 0 {
        lemma_remove_room(hub, at);
        assert forall|other: usize| other != id implies #[trigger] after.is_bound(other)
            == hub.is_bound(other) by {
            if hub.in_room(at, other) {
                assert(has_id(left.occupants, other));
                let k = index_of(left.occupants, other);
                assert(0 <= k < left.occupants.len());
            }
        }
    } else {
        assert(left.serving());
        assert forall|who: usize| #[trigger] has_id(left.occupants, who)
            implies hub.in_room(at, who) || !hub.knows(who) by {}
        lemma_with_room(hub, at, left);
        assert forall|name: Seq<char>| #[trigger] after.has_room(name) implies hub.has_room(name)
            && after.room(name).occupants.len() <= hub.room(name).occupants.len() by {
            assert(hub.has_room(name));
            assert(after.room_index(name) == hub.room_index(name));
            let i = hub.room_index(name);
            if i == at {
                assert(hub.room(name) == room);
                assert(after.room(name) == left);
            } else {
                assert(after.rooms[i] == hub.rooms[i]);
            }
        }
        assert forall|other: usize| other != id implies #[trigger] after.is_bound(other)
            == hub.is_bound(other) by {
            if hub.is_bound(other) {
                let h = hub.home(other);
                assert(hub.in_room(h, other));
                assert(after.in_room(h, other));
            }
            if after.is_bound(other) {
                let h = after.home(other);
                assert(after.in_room(h, other));
                assert(hub.in_room(h, other));
            }
        }
        if after.is_bound(id) {
            let h = after.home(id);
            assert(after.in_room(h, id));
            if h != at {
                assert(hub.in_room(h, id));
            }
        }
    }
}

/// The hub stays as it should be when the connections in no room change, as
/// long as their ids are distinct and none of them is in a room.
pub proof fn lemma_with_unbound(hub: HubModel, unbound: Seq<(usize, SlotModel)>)
    requires
        hub.wf(),
        distinct_ids(unbound),
        forall|id: usize| #[trigger] has_id(unbound, id) ==> !hub.is_bound(id),
    ensures
        (HubModel { unbound, ..hub }).wf(),
{
    let after = HubModel { unbound, ..hub };
    assert forall|i: int, who: usize|
        0 <= i < after.rooms.len() && #[trigger] after.in_room(i, who)
        implies !after.is_unbound(who) by {
        assert(hub.in_room(i, who));
        assert(hub.is_bound(who));
    }
    assert forall|i: int, j: int, who: usize|
        0 <= i < j < after.rooms.len() && #[trigger] after.in_room(i, who)
        implies !#[trigger] after.in_room(j, who) by {
        assert(hub.in_room(i, who));
        if after.in_room(j, who) {
            assert(hub.in_room(j, who));
        }
    }
}

/// Where the hub is as it should be, it stays so when a connection that is
/// in no room closes. The connection is then open nowhere.
pub proof fn lemma_release(hub: HubModel, id: usize)
    requires
        hub.wf(),
        hub.is_unbound(id),
    ensures
        hub.without(id).wf(),
        hub.without(id).rooms == hub.rooms,
        !hub.without(id).knows(id),
{
    let after = hub.without(id);
    lemma_without_id(hub.unbound, id);
    assert forall|who: usize| #[trigger] has_id(after.unbound, who) implies !hub.is_bound(who) by {
        if hub.is_bound(who) {
            assert(hub.in_room(hub.home(who), who));
        }
    }
    lemma_with_unbound(hub, after.unbound);
    if after.is_bound(id) {
        assert(hub.in_room(after.home(id), id));
    }
}

/// Where the hub is as it should be, it stays so when a connection that
/// is in no room is entered, or entered anew, among those in no room.
pub proof fn lemma_enlist(hub: HubModel, id: usize, slot: SlotModel)
    requires
        hub.wf(),
        !hub.is_bound(id),
    ensures
        (HubModel { unbound: with_entry(hub.unbound, id, slot), ..hub }).wf(),
{
    let unbound = with_entry(hub.unbound, id, slot);
    lemma_with_entry(hub.unbound, id, slot);
    assert forall|who: usize| #[trigger] has_id(unbound, who) implies !hub.is_bound(who) by {
        if who != id && hub.is_bound(who) {
            assert(hub.in_room(hub.home(who), who));
        }
    }
    lemma_with_unbound(hub, unbound);
}

/// Where the hub is as it should be, it stays so when a connection takes a
/// name.
pub proof fn lemma_rename(hub: HubModel, id: usize, room: Option<Seq<char>>, name: Seq<char>)
    requires
        hub.wf(),
    ensures
        hub.rename(id, room, name).wf(),
{
    if hub.rename_refusal(id, room).is_none() {
        match room {
            Some(room) => {
                let t = hub.room_index(room);
                assert(0 <= t < hub.rooms.len() && hub.rooms[t].0 == room);
                assert(hub.rooms[t].1.serving());
                crate::room::lemma_rename(hub.rooms[t].1, id, name);
                lemma_with_room(hub, t, hub.rooms[t].1.rename(id, name));
            },
            None => {
                let at = index_of(hub.unbound, id);
                assert(hub.unbound[at].0 == id);
                let unbound = hub.rename(id, room, name).unbound;
                assert forall|a: int, b: int| 0 <= a < b < unbound.len() implies (
                #[trigger] unbound[a]).0 != (#[trigger] unbound[b]).0 by {
                    assert(hub.unbound[a].0 != hub.unbound[b].0);
                }
                assert forall|who: usize| #[trigger] has_id(unbound, who) implies !hub.is_bound(
                    who,
                ) by {
                    let k = index_of(unbound, who);
                    assert(hub.unbound[k].0 == who);
                    if hub.is_bound(who) {
                        assert(hub.in_room(hub.home(who), who));
                    }
                }
                lemma_with_unbound(hub, unbound);
            },
        }
    }
}

/// With distinct names, a room that goes by `name` is the room that
/// `room_index` names.
pub proof fn lemma_room_index_unique(hub: HubModel, name: Seq<char>, i: int)
    requires
        hub.wf(),
        0 <= i < hub.rooms.len(),
        hub.rooms[i].0 == name,
    ensures
        hub.has_room(name),
        hub.room_index(name) == i,
{
    let j = hub.room_index(name);
    assert(0 <= j < hub.rooms.len() && hub.rooms[j].0 == name);
    if j < i {
        assert(hub.rooms[j].0 != hub.rooms[i].0);
    } else if i < j {
        assert(hub.rooms[i].0 != hub.rooms[j].0);
    }
}

/// A connection that is in a room is in that room alone, and is not
/// unbound.
pub proof fn lemma_home_unique(hub: HubModel, id: usize, i: int)
    requires
        hub.wf(),
        0 <= i < hub.rooms.len(),
        hub.in_room(i, id),
    ensures
        hub.is_bound(id),
        !hub.is_unbound(id),
        hub.home(id) == i,
{
    let j = hub.home(id);
    assert(0 <= j < hub.rooms.len() && hub.in_room(j, id));
    if j < i {
        assert(!hub.in_room(i, id));
    } else if i < j {
        assert(!hub.in_room(j, id));
    }
}

/// The hub stays as it should be when one of its rooms changes into a room
/// that the hub may keep, as long as whoever is new in that room was not
/// open before.
pub proof fn lemma_with_room(hub: HubModel, t: int, room: RoomModel)
    requires
        hub.wf(),
        0 <= t < hub.rooms.len(),
        room.serving(),
        forall|id: usize| #[trigger]
            has_id(room.occupants, id) ==> hub.in_room(t, id) || !hub.knows(id),
    ensures
        hub.with_room(t, room).wf(),
        hub.with_room(t, room).unbound == hub.unbound,
        forall|name: Seq<char>| #[trigger]
            hub.with_room(t, room).has_room(name) == hub.has_room(name),
        forall|name: Seq<char>|
            hub.has_room(name) ==> #[trigger] hub.with_room(t, room).room_index(name)
                == hub.room_index(name),
{
    let after = hub.with_room(t, room);
    assert forall|i: int, j: int| 0 <= i < j < after.rooms.len() implies (
    #[trigger] after.rooms[i]).0 != (#[trigger] after.rooms[j]).0 by {
        assert(hub.rooms[i].0 != hub.rooms[j].0);
    }
    assert forall|i: int| 0 <= i < after.rooms.len() implies (
    #[trigger] after.rooms[i]).1.serving() by {
        if i != t {
            assert(hub.rooms[i].1.serving());
        }
    }
    assert forall|i: int, id: usize|
        0 <= i < after.rooms.len() && #[trigger] after.in_room(i, id)
        implies !after.is_unbound(id) by {
        if i != t {
            assert(hub.in_room(i, id));
        } else {
            assert(has_id(room.occupants, id));
            if hub.in_room(t, id) {
            }
        }
    }
    assert forall|i: int, j: int, id: usize|
        0 <= i < j < after.rooms.len() && #[trigger] after.in_room(i, id)
        implies !#[trigger] after.in_room(j, id) by {
        if after.in_room(j, id) {
            if i != t && j != t {
                assert(hub.in_room(i, id));
                assert(hub.in_room(j, id));
            } else if i == t {
                assert(has_id(room.occupants, id));
                assert(hub.in_room(j, id));
                if hub.in_room(t, id) {
                } else {
                    assert(hub.is_bound(id));
                }
            } else {
                assert(has_id(room.occupants, id));
                assert(hub.in_room(i, id));
                if hub.in_room(t, id) {
                } else {
                    assert(hub.is_bound(id));
                }
            }
        }
    }
    assert forall|name: Seq<char>| #[trigger] after.has_room(name) == hub.has_room(name) by {
        if hub.has_room(name) {
            let i = hub.room_index(name);
            assert(after.rooms[i].0 == name);
        }
        if after.has_room(name) {
            let i = after.room_index(name);
            assert(hub.rooms[i].0 == name);
        }
    }
    assert forall|name: Seq<char>| hub.has_room(name) implies #[trigger] after.room_index(name)
        == hub.room_index(name) by {
        let i = hub.room_index(name);
        assert(after.rooms[i].0 == name);
        lemma_room_index_unique(after, name, i);
    }
}

/// The hub stays as it should be when a room is added under a name that
/// no room goes by, as long as it is a room that the hub may keep and no
/// one in it was open before.
pub proof fn lemma_push_room(hub: HubModel, name: Seq<char>, room: RoomModel)
    requires
        hub.wf(),
        !hub.has_room(name),
        room.serving(),
        forall|id: usize| #[trigger] has_id(room.occupants, id) ==> !hub.knows(id),
    ensures
        (HubModel { rooms: hub.rooms.push((name, room)), ..hub }).wf(),
{
    let after = HubModel { rooms: hub.rooms.push((name, room)), ..hub };
    let n = hub.rooms.len() as int;
    assert forall|i: int, j: int| 0 <= i < j < after.rooms.len() implies (
    #[trigger] after.rooms[i]).0 != (#[trigger] after.rooms[j]).0 by {
        if j < n {
            assert(hub.rooms[i].0 != hub.rooms[j].0);
        } else {
            assert(hub.rooms[i].0 != name);
        }
    }
    assert forall|i: int| 0 <= i < after.rooms.len() implies (
    #[trigger] after.rooms[i]).1.serving() by {
        if i < n {
            assert(hub.rooms[i].1.serving());
        }
    }
    assert forall|i: int, id: usize|
        0 <= i < after.rooms.len() && #[trigger] after.in_room(i, id)
        implies !after.is_unbound(id) by {
        if i < n {
            assert(hub.in_room(i, id));
        } else {
            assert(has_id(room.occupants, id));
        }
    }
    assert forall|i: int, j: int, id: usize|
        0 <= i < j < after.rooms.len() && #[trigger] after.in_room(i, id)
        implies !#[trigger] after.in_room(j, id) by {
        if after.in_room(j, id) {
            assert(hub.in_room(i, id));
            if j < n {
                assert(hub.in_room(j, id));
            } else {
                assert(has_id(room.occupants, id));
                assert(hub.is_bound(id));
            }
        }
    }
}

/// The hub stays as it should be when one of its rooms is given up.
pub proof fn lemma_remove_room(hub: HubModel, t: int)
    requires
        hub.wf(),
        0 <= t < hub.rooms.len(),
    ensures
        (HubModel { rooms: hub.rooms.remove(t), ..hub }).wf(),
        forall|id: usize|
            !hub.in_room(t, id) ==> #[trigger] (HubModel {
                rooms: hub.rooms.remove(t),
                ..hub
            }).is_bound(id) == hub.is_bound(id),
        forall|id: usize|
            hub.in_room(t, id) ==> !#[trigger] (HubModel {
                rooms: hub.rooms.remove(t),
                ..hub
            }).is_bound(id),
        forall|name: Seq<char>| #[trigger]
            (HubModel { rooms: hub.rooms.remove(t), ..hub }).has_room(name) ==> hub.has_room(name)
                && (HubModel { rooms: hub.rooms.remove(t), ..hub }).room(name) == hub.room(name),
{
    let after = HubModel { rooms: hub.rooms.remove(t), ..hub };
    assert forall|name: Seq<char>| #[trigger] after.has_room(name) implies hub.has_room(name)
        && after.room(name) == hub.room(name) by {
        let i = after.room_index(name);
        let a = if i < t { i } else { i + 1 };
        assert(after.rooms[i] == hub.rooms[a]);
        lemma_room_index_unique(hub, name, a);
    }
    assert forall|i: int| 0 <= i < after.rooms.len() implies (#[trigger] after.rooms[i])
        == hub.rooms[if i < t {
        i
    } else {
        i + 1
    }] by {}
    assert forall|i: int, j: int| 0 <= i < j < after.rooms.len() implies (
    #[trigger] after.rooms[i]).0 != (#[trigger] after.rooms[j]).0 by {
        let a = if i < t { i } else { i + 1 };
        let b = if j < t { j } else { j + 1 };
        assert(hub.rooms[a].0 != hub.rooms[b].0);
    }
    assert forall|i: int| 0 <= i < after.rooms.len() implies (
    #[trigger] after.rooms[i]).1.serving() by {
        let a = if i < t { i } else { i + 1 };
        assert(hub.rooms[a].1.serving());
    }
    assert forall|i: int, id: usize|
        0 <= i < after.rooms.len() && #[trigger] after.in_room(i, id)
        implies !after.is_unbound(id) by {
        let a = if i < t { i } else { i + 1 };
        assert(hub.in_room(a, id));
    }
    assert forall|i: int, j: int, id: usize|
        0 <= i < j < after.rooms.len() && #[trigger] after.in_room(i, id)
        implies !#[trigger] after.in_room(j, id) by {
        let a = if i < t { i } else { i + 1 };
        let b = if j < t { j } else { j + 1 };
        assert(hub.in_room(a, id));
        if after.in_room(j, id) {
            assert(hub.in_room(b, id));
        }
    }
    assert forall|id: usize| !hub.in_room(t, id) implies #[trigger] after.is_bound(id)
        == hub.is_bound(id) by {
        if hub.is_bound(id) {
            let a = hub.home(id);
            let i = if a < t { a } else { a - 1 };
            assert(after.rooms[i] == hub.rooms[a]);
            assert(after.in_room(i, id));
        }
        if after.is_bound(id) {
            let i = after.home(id);
            let a = if i < t { i } else { i + 1 };
            assert(hub.in_room(a, id));
        }
    }
    assert forall|id: usize| hub.in_room(t, id) implies !#[trigger] after.is_bound(id) by {
        if after.is_bound(id) {
            let i = after.home(id);
            let a = if i < t { i } else { i + 1 };
            assert(hub.in_room(a, id));
            if a < t {
                assert(!hub.in_room(t, id));
            } else {
                assert(!hub.in_room(a, id));
            }
        }
    }
}

/// What the hub keeps of a connection that is in a room is what that room
/// keeps of it.
pub proof fn lemma_slot_of_bound(hub: HubModel, id: usize, i: int, k: int)
    requires
        hub.wf(),
        0 <= i < hub.rooms.len(),
        0 <= k < hub.rooms[i].1.occupants.len(),
        hub.rooms[i].1.occupants[k].0 == id,
    ensures
        hub.is_bound(id),
        !hub.is_unbound(id),
        hub.home(id) == i,
        index_of(hub.rooms[i].1.occupants, id) == k,
        hub.slot_of(id) == hub.rooms[i].1.occupants[k].1,
{
    assert(hub.rooms[i].1.serving());
    lemma_index_of_unique(hub.rooms[i].1.occupants, id, k);
    assert(hub.in_room(i, id));
    lemma_home_unique(hub, id, i);
}

/// What the hub keeps of a connection that is in no room is what stands
/// under its id among the connections in no room.
pub proof fn lemma_slot_of_unbound(hub: HubModel, id: usize, k: int)
    requires
        hub.wf(),
        0 <= k < hub.unbound.len(),
        hub.unbound[k].0 == id,
    ensures
        hub.is_unbound(id),
        !hub.is_bound(id),
        hub.slot_of(id) == hub.unbound[k].1,
{
    lemma_index_of_unique(hub.unbound, id, k);
    if hub.is_bound(id) {
        let h = hub.home(id);
        assert(hub.in_room(h, id));
    }
}

/// Whether the hub can take `request`: it is not a game input for a room
/// in which the count of someone's wins has no room left to grow.
pub open spec fn handles(hub: HubModel, request: Request) -> bool {
    match request {
        Request::UserGameInput(input) => hub.has_room(input.room@) ==> hub.room(
            input.room@,
        ).can_score(),
        _ => true,
    }
}

} // verus!
