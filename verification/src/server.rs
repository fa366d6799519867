//! The hub: every connection and every room. Each command is one step of
//! it, taken alone: from the hub as it stands and the command to the hub as
//! it then stands and what is to be sent to whom.
use vstd::prelude::*;
use vstd::string::StringExecFns;
use crate::error::{ErrorModel, IuroError};
use crate::messages::{
    deliveries_view, Answer, Broadcast, BroadcastModel, ChatMessage, Connect, Delivery,
    DeliveryModel, Disconnect, Handled, Join, ListRooms, Request, SetUsername, UserGameInput,
};
use crate::room::{
    board_view, scoreboard, JoinResult, Room, RoomModel, RoomSlot, SlotModel, EXPECTED_USERS,
};
use crate::server::model::{
    handles, joined, lemma_enlist, lemma_home_unique, lemma_push_room, lemma_release,
    lemma_rename, lemma_room_index_unique, lemma_vacate, lemma_with_room, played, HubModel,
};
use crate::server::names::default_user_name;
use crate::table::{has_id, ids_of, index_of, lemma_with_entry, IdMap};

pub mod laws;
pub mod model;
pub mod names;

verus! {

/// The views of `rooms`, in their order.
pub open spec fn rooms_view(rooms: Seq<(String, Room)>) -> Seq<(Seq<char>, RoomModel)> {
    Seq::new(rooms.len(), |i: int| (rooms[i].0@, rooms[i].1@))
}

/// The view of the name in `name`, if there is one.
pub open spec fn name_view(name: Option<String>) -> Option<Seq<char>> {
    match name {
        Some(name) => Some(name@),
        None => None,
    }
}

/// The views of `names`, in their order.
pub open spec fn names_view(names: Seq<String>) -> Seq<Seq<char>> {
    Seq::new(names.len(), |i: int| names[i]@)
}

/// The hub: the connections that are in no room, and the rooms.
pub struct IuroServer {
    unbound_sessions: IdMap<RoomSlot>,
    rooms: Vec<(String, Room)>,
}

impl View for IuroServer {
    type V = HubModel;

    closed spec fn view(&self) -> HubModel {
        HubModel { unbound: self.unbound_sessions@, rooms: rooms_view(self.rooms@) }
    }
}

impl Default for IuroServer {
    /// The hub before anyone has connected.
    fn default() -> (hub: Self)
        ensures
            hub.wf(),
            hub@.unbound.len() == 0,
            hub@.rooms.len() == 0,
    {
        IuroServer { unbound_sessions: IdMap::new(), rooms: Vec::new() }
    }
}

impl IuroServer {
    /// The hub's invariant.
    pub open spec fn wf(&self) -> bool {
        self@.wf()
    }

    /// The place of the room that goes by `name`.
    fn room_position(&self, name: &String) -> (place: Option<usize>)
        requires
            self.wf(),
        ensures
            match place {
                Some(i) => i < self@.rooms.len() && self@.has_room(name@) && i
                    == self@.room_index(name@),
                None => !self@.has_room(name@),
            },
    {
        let mut i: usize = 0;
        while i < self.rooms.len()
            invariant
                i <= self.rooms@.len(),
                self.wf(),
                forall|k: int| 0 <= k < i ==> (#[trigger] self@.rooms[k]).0 != name@,
            decreases self.rooms@.len() - i,
        {
            if self.rooms[i].0 == *name {
                proof {
                    lemma_room_index_unique(self@, name@, i as int);
                }
                return Some(i);
            }
            i = i + 1;
        }
        None
    }

    /// The place of the room that `id` is in.
    fn home_of(&self, id: usize) -> (place: Option<usize>)
        requires
            self.wf(),
        ensures
            match place {
                Some(i) => i < self@.rooms.len() && self@.is_bound(id) && i == self@.home(id),
                None => !self@.is_bound(id),
            },
    {
        let mut i: usize = 0;
        while i < self.rooms.len()
            invariant
                i <= self.rooms@.len(),
                self.wf(),
                forall|k: int| 0 <= k < i ==> !#[trigger] self@.in_room(k, id),
            decreases self.rooms@.len() - i,
        {
            if self.rooms[i].1.sessions().contains_key(id) {
                proof {
                    lemma_home_unique(self@, id, i as int);
                }
                return Some(i);
            }
            i = i + 1;
        }
        None
    }

    /// The connections that are in no room.
    pub fn unbound(&self) -> (table: &IdMap<RoomSlot>)
        ensures
            table@ == self@.unbound,
    {
        &self.unbound_sessions
    }

    /// The room that goes by `name`.
    pub fn room(&self, name: &String) -> (room: Option<&Room>)
        requires
            self.wf(),
        ensures
            match room {
                Some(room) => self@.has_room(name@) && room@ == self@.room(name@),
                None => !self@.has_room(name@),
            },
    {
        match self.room_position(name) {
            Some(at) => Some(&self.rooms[at].1),
            None => None,
        }
    }

    /// The names of the rooms, in the order in which each was made. A room
    /// is among them exactly as long as someone is in it.
    pub fn list_rooms(&self, _msg: ListRooms) -> (names: Vec<String>)
        ensures
            names_view(names@) == self@.room_names(),
    {
        let mut names: Vec<String> = Vec::new();
        let mut i: usize = 0;
        while i < self.rooms.len()
            invariant
                i <= self.rooms@.len(),
                names@.len() == i,
                forall|k: int| 0 <= k < i ==> (#[trigger] names@[k])@ == self@.rooms[k].0,
            decreases self.rooms@.len() - i,
        {
            names.push(self.rooms[i].0.clone());
            i = i + 1;
        }
        assert(names_view(names@) =~= self@.room_names());
        names
    }

    /// Takes `id` out of the room it is in, and gives back its slot with
    /// the notice for those who stay. The round in play in that room is
    /// called off, and the room is given up if no one is left in it.
    pub fn leave_all_rooms(&mut self, id: usize) -> (left: Result<(RoomSlot, Delivery), IuroError>)
        requires
            old(self).wf(),
        ensures
            final(self).wf(),
            match left {
                Ok((slot, notice)) => {
                    &&& old(self)@.is_bound(id)
                    &&& final(self)@ == old(self)@.vacate(id)
                    &&& slot@ == old(self)@.rooms[old(self)@.home(id)].1.occupants[index_of(
                        old(self)@.rooms[old(self)@.home(id)].1.occupants,
                        id,
                    )].1
                    &&& notice@ == old(self)@.farewell(id)
                },
                Err(e) => {
                    &&& !old(self)@.is_bound(id)
                    &&& e@ == ErrorModel::AddrNotFound(id)
                    &&& final(self)@ == old(self)@
                },
            },
    {
        match self.home_of(id) {
            None => Err(IuroError::AddrNotFound(id)),
            Some(at) => {
                proof {
                    lemma_vacate(self@, id);
                    assert(self@.rooms[at as int].1.serving());
                }
                let removed = self.rooms[at].1.remove_session(id);
                let slot = removed.unwrap();
                let to = self.rooms[at].1.sessions().keys();
                assert(self@.rooms =~= old(self)@.rooms.update(
                    at as int,
                    (old(self)@.rooms[at as int].0, old(self)@.rooms[at as int].1.leave(id)),
                ));
                if self.rooms[at].1.sessions().is_empty() {
                    self.rooms.remove(at);
                    assert(self@.rooms =~= old(self)@.rooms.remove(at as int));
                }
                Ok((slot, Delivery { to, message: Broadcast::Literal("Someone disconnected") }))
            },
        }
    }

    /// A connection has opened: it is entered among those in no room, under
    /// the name that it goes by until it picks one. Should the id be that
    /// of a connection that is open already, that connection is gone: it
    /// leaves its room, if it is in one, and those who stay there are told.
    pub fn connect(&mut self, msg: Connect) -> (deliveries: Vec<Delivery>)
        requires
            old(self).wf(),
        ensures
            final(self).wf(),
            final(self)@ == old(self)@.connect(msg.id),
            final(self)@.is_unbound(msg.id),
            deliveries_view(deliveries@) == old(self)@.farewells(msg.id),
    {
        let mut deliveries: Vec<Delivery> = Vec::new();
        if !self.unbound_sessions.contains_key(msg.id) {
            match self.leave_all_rooms(msg.id) {
                Ok((_, notice)) => {
                    deliveries.push(notice);
                    proof {
                        lemma_vacate(old(self)@, msg.id);
                    }
                },
                Err(_) => {},
            }
        } else {
            proof {
                assert(self@.is_unbound(msg.id));
                if self@.is_bound(msg.id) {
                    lemma_home_unique(self@, msg.id, self@.home(msg.id));
                }
            }
        }
        let slot = RoomSlot { name: default_user_name(msg.id), wins: 0 };
        proof {
            lemma_enlist(self@, msg.id, slot@);
            lemma_with_entry(self@.unbound, msg.id, slot@);
        }
        self.unbound_sessions.insert(msg.id, slot);
        assert(deliveries_view(deliveries@) =~= old(self)@.farewells(msg.id));
        deliveries
    }

    /// A connection has closed: it is taken out from wherever it is. If it
    /// was in a room, the round in play there is called off, those who stay
    /// are told, and the room is given up if no one is left in it.
    pub fn disconnect(&mut self, msg: Disconnect) -> (deliveries: Result<Vec<Delivery>, IuroError>)
        requires
            old(self).wf(),
        ensures
            final(self).wf(),
            match deliveries {
                Ok(sent) => {
                    &&& old(self)@.knows(msg.id)
                    &&& final(self)@ == old(self)@.without(msg.id)
                    &&& !final(self)@.knows(msg.id)
                    &&& deliveries_view(sent@) == old(self)@.farewells(msg.id)
                },
                Err(e) => {
                    &&& !old(self)@.knows(msg.id)
                    &&& e@ == ErrorModel::AddrNotFound(msg.id)
                    &&& final(self)@ == old(self)@
                },
            },
    {
        let mut sent: Vec<Delivery> = Vec::new();
        proof {
            if self@.is_unbound(msg.id) {
                lemma_release(self@, msg.id);
            } else if self@.is_bound(msg.id) {
                lemma_vacate(self@, msg.id);
            }
        }
        if self.unbound_sessions.remove(msg.id).is_none() {
            match self.leave_all_rooms(msg.id) {
                Ok((_, notice)) => {
                    sent.push(notice);
                },
                Err(e) => {
                    return Err(e);
                },
            }
        }
        assert(deliveries_view(sent@) =~= old(self)@.farewells(msg.id));
        Ok(sent)
    }

    /// A user takes a name. The user is looked for where its session
    /// believes it is: in the room that the message names, or else among
    /// the connections in no room.
    pub fn set_username(&mut self, set: SetUsername) -> (done: Result<(), IuroError>)
        requires
            old(self).wf(),
        ensures
            final(self).wf(),
            final(self)@ == old(self)@.rename(set.user_id, name_view(set.room), set.name@),
            match old(self)@.rename_refusal(set.user_id, name_view(set.room)) {
                Some(error) => done matches Err(e) && e@ == error,
                None => done is Ok,
            },
    {
        let SetUsername { user_id, room, name } = set;
        proof {
            lemma_rename(self@, user_id, name_view(room), name@);
        }
        match room {
            Some(room) => {
                match self.room_position(&room) {
                    None => Err(IuroError::NoRoom(room)),
                    Some(at) => {
                        assert(self@.rooms[at as int].1.serving());
                        let done = self.rooms[at].1.rename(user_id, name);
                        assert(self@.rooms =~= old(self)@.rooms.update(
                            at as int,
                            (room@, old(self)@.room(room@).rename(user_id, name@)),
                        ));
                        proof {
                            if done is Err {
                                assert(self@.rooms =~= old(self)@.rooms);
                            }
                        }
                        done
                    },
                }
            },
            None => {
                match self.unbound_sessions.position(user_id) {
                    None => Err(IuroError::AddrNotFound(user_id)),
                    Some(at) => {
                        let slot = self.unbound_sessions.value_mut(at);
                        slot.name = name;
                        assert(self@ == old(self)@.rename(user_id, None, name@));
                        Ok(())
                    },
                }
            },
        }
    }

    /// What is to be sent when `message` goes to everyone in `room`.
    pub fn send_message(&self, room: &String, message: Broadcast) -> (delivery: Result<
        Delivery,
        IuroError,
    >)
        requires
            self.wf(),
        ensures
            match delivery {
                Ok(sent) => {
                    &&& self@.has_room(room@)
                    &&& sent@.to == ids_of(self@.room(room@).occupants)
                    &&& sent@.message == message@
                },
                Err(e) => !self@.has_room(room@) && e@ == ErrorModel::NoRoom(room@),
            },
    {
        match self.room_position(room) {
            Some(at) => Ok(Delivery { to: self.rooms[at].1.sessions().keys(), message }),
            None => Err(IuroError::NoRoom(room.clone())),
        }
    }

    /// A line of chat: it goes to everyone in the room, its sender too,
    /// with the sender's name before it. The hub stays as it is.
    pub fn chat_message(&self, msg: ChatMessage) -> (delivery: Result<Delivery, IuroError>)
        requires
            self.wf(),
        ensures
            match self@.chat_refusal(msg.id, msg.room@) {
                Some(error) => delivery matches Err(e) && e@ == error,
                None => delivery matches Ok(sent) && sent@ == self@.chat_line(
                    msg.id,
                    msg.room@,
                    msg.msg@,
                ),
            },
    {
        let ChatMessage { id, msg, room } = msg;
        let at = match self.room_position(&room) {
            Some(at) => at,
            None => {
                return Err(IuroError::NoRoom(room));
            },
        };
        proof {
            assert(self@.rooms[at as int].1.serving());
        }
        let line = match self.rooms[at].1.sessions().get(id) {
            Some(slot) => {
                let mut line = slot.name.clone();
                line.append(": ");
                line.append(msg.as_str());
                line
            },
            None => {
                return Err(IuroError::AddrNotFound(id));
            },
        };
        self.send_message(&room, Broadcast::Text(line))
    }

    /// A user wants to be in the room of the given name, and in no other.
    /// A connection that is not open, or a room that is full, leaves the
    /// hub as it is.
    pub fn join(&mut self, msg: Join) -> (deliveries: Result<Vec<Delivery>, IuroError>)
        requires
            old(self).wf(),
        ensures
            final(self).wf(),
            match old(self)@.join_refusal(msg.id, msg.name@) {
                Some(error) => {
                    &&& deliveries matches Err(e) && e@ == error
                    &&& final(self)@ == old(self)@
                },
                None => {
                    &&& deliveries matches Ok(sent) && joined(
                        old(self)@,
                        msg.id,
                        msg.name@,
                        final(self)@,
                        deliveries_view(sent@),
                    )
                    &&& final(self)@.has_room(msg.name@)
                    &&& has_id(final(self)@.room(msg.name@).occupants, msg.id)
                },
            },
    {
        let Join { id, name } = msg;
        let unbound = self.unbound_sessions.contains_key(id);
        if !unbound && self.home_of(id).is_none() {
            return Err(IuroError::AddrNotFound(id));
        }
        match self.room_position(&name) {
            Some(t) => {
                if self.rooms[t].1.sessions().len() == EXPECTED_USERS {
                    return Err(IuroError::FullRoom(name));
                }
            },
            None => {},
        }
        proof {
            if unbound {
                lemma_release(self@, id);
            } else {
                lemma_vacate(self@, id);
            }
        }
        let mut sent: Vec<Delivery> = Vec::new();
        let slot = match self.unbound_sessions.remove(id) {
            Some(slot) => slot,
            None => match self.leave_all_rooms(id) {
                Ok((slot, notice)) => {
                    sent.push(notice);
                    slot
                },
                Err(e) => {
                    return Err(e);
                },
            },
        };
        let ghost vacated = self@;
        let ghost newcomer = SlotModel { name: old(self)@.slot_of(id).name, wins: 0 };
        assert(vacated == old(self)@.without(id));
        assert(slot@.name == newcomer.name);
        assert(deliveries_view(sent@) =~= old(self)@.farewells(id));
        match self.room_position(&name) {
            Some(t) => {
                proof {
                    assert(vacated.rooms[t as int].1.serving());
                    assert(old(self)@.has_room(name@));
                    assert(!vacated.rooms[t as int].1.is_full());
                    lemma_with_entry(vacated.rooms[t as int].1.occupants, id, newcomer);
                }
                let result = self.rooms[t].1.join(id, slot);
                let to = self.rooms[t].1.sessions().keys();
                proof {
                    let seated = vacated.rooms[t as int].1.seat(id, newcomer.name);
                    let room = self@.rooms[t as int].1;
                    assert(self@.rooms =~= vacated.rooms.update(t as int, (name@, room)));
                    assert(room.occupants == seated.occupants);
                    assert(room.serving());
                    assert forall|who: usize| #[trigger] has_id(room.occupants, who)
                        implies vacated.in_room(t as int, who) || !vacated.knows(who) by {}
                    lemma_with_room(vacated, t as int, room);
                    assert(self@ == vacated.with_room(t as int, room));
                    lemma_room_index_unique(self@, name@, t as int);
                }
                match result {
                    JoinResult::NewGame(game) => {
                        sent.push(Delivery { to, message: Broadcast::GameStarted(game) });
                        proof {
                            let seated = vacated.rooms[t as int].1.seat(id, newcomer.name);
                            assert(deliveries_view(sent@) =~= old(self)@.farewells(id).push(
                                DeliveryModel {
                                    to: ids_of(seated.occupants),
                                    message: BroadcastModel::GameStarted(seated.backlog.last()),
                                },
                            ));
                        }
                    },
                    JoinResult::NoGame => {},
                    JoinResult::Full => {},
                }
            },
            None => {
                let mut room = Room::default();
                proof {
                    lemma_with_entry(room@.occupants, id, newcomer);
                }
                let _ = room.join(id, slot);
                proof {
                    assert(room@.occupants =~= seq![(id, newcomer)]);
                    assert(room@.occupants[0].0 == id);
                    assert forall|who: usize| #[trigger]
                        has_id(room@.occupants, who) implies !vacated.knows(who) by {
                        let k = index_of(room@.occupants, who);
                        assert(k == 0);
                    }
                    lemma_push_room(vacated, name@, room@);
                }
                self.rooms.push((name, room));
                proof {
                    assert(self@.rooms =~= vacated.rooms.push((name@, room@)));
                    assert(self@.rooms.drop_last() =~= vacated.rooms);
                    lemma_room_index_unique(self@, name@, self@.rooms.len() - 1);
                }
            },
        }
        Ok(sent)
    }

    /// Whether every occupant of `room` can still win a round without its
    /// count running over. It is so, too, where no room goes by that name.
    pub fn can_score(&self, room: &String) -> (fits: bool)
        requires
            self.wf(),
        ensures
            fits == (self@.has_room(room@) ==> self@.room(room@).can_score()),
    {
        match self.room_position(room) {
            Some(at) => self.rooms[at].1.can_score(),
            None => true,
        }
    }

    /// A user plays in the round of its room. If the round is full with the
    /// input, the round is settled and the next game starts at once.
    pub fn user_game_input(&mut self, input: UserGameInput) -> (deliveries: Result<
        Vec<Delivery>,
        IuroError,
    >)
        requires
            old(self).wf(),
            old(self)@.has_room(input.room@) ==> old(self)@.room(input.room@).can_score(),
        ensures
            final(self).wf(),
            match old(self)@.input_refusal(input.id, input.room@, input.input@) {
                Some(error) => {
                    &&& deliveries matches Err(e) && e@ == error
                    &&& final(self)@ == old(self)@
                },
                None => deliveries matches Ok(sent) && played(
                    old(self)@,
                    input.id,
                    input.room@,
                    input.input@,
                    final(self)@,
                    deliveries_view(sent@),
                ),
            },
    {
        let UserGameInput { id, room, input } = input;
        let at = match self.room_position(&room) {
            Some(at) => at,
            None => {
                return Err(IuroError::NoRoom(room));
            },
        };
        let ghost before = self@.rooms[at as int].1;
        proof {
            assert(before.serving());
        }
        let wins = self.rooms[at].1.update(id, input);
        let ghost updated = self@.rooms[at as int].1;
        proof {
            assert(self@.rooms =~= old(self)@.rooms.update(at as int, (room@, updated)));
            assert(updated == before.update(id, input@));
            if before.refusal(id, input@).is_some() {
                assert(self@.rooms =~= old(self)@.rooms);
            }
        }
        let board = match wins {
            Ok(board) => board,
            Err(e) => {
                return Err(e);
            },
        };
        let mut sent: Vec<Delivery> = Vec::new();
        proof {
            assert(before.game.is_some());
            assert(before.is_full());
            assert(updated.occupants.len() == before.occupants.len());
            assert forall|k: int| 0 <= k < before.occupants.len() implies (
            #[trigger] updated.occupants[k]).0 == before.occupants[k].0 by {}
            assert forall|who: usize| #[trigger] has_id(updated.occupants, who) implies old(
                self,
            )@.in_room(at as int, who) || !old(self)@.knows(who) by {
                let k = index_of(updated.occupants, who);
                assert(before.occupants[k].0 == who);
            }
        }
        if board.len() > 0 {
            proof {
                assert(board_view(board@).len() == board@.len());
                assert(before.completes(id, input@));
            }
            let game = self.rooms[at].1.start_game();
            let to = self.rooms[at].1.sessions().keys();
            let again = self.rooms[at].1.sessions().keys();
            sent.push(Delivery { to, message: Broadcast::GameEnded(board) });
            sent.push(Delivery { to: again, message: Broadcast::GameStarted(game) });
            proof {
                let next = self@.rooms[at as int].1;
                assert(self@.rooms =~= old(self)@.rooms.update(at as int, (room@, next)));
                assert(next.serving());
                lemma_with_room(old(self)@, at as int, next);
                assert(self@ == old(self)@.with_room(at as int, next));
                assert(deliveries_view(sent@) =~= seq![
                    DeliveryModel {
                        to: ids_of(updated.occupants),
                        message: BroadcastModel::GameEnded(scoreboard(updated.occupants)),
                    },
                    DeliveryModel {
                        to: ids_of(updated.occupants),
                        message: BroadcastModel::GameStarted(updated.backlog.last()),
                    },
                ]);
            }
        } else {
            proof {
                if before.completes(id, input@) {
                    assert(board_view(board@).len() == board@.len());
                    assert(scoreboard(updated.occupants).len() == updated.occupants.len());
                }
                assert(updated.serving());
                lemma_with_room(old(self)@, at as int, updated);
                assert(self@ == old(self)@.with_room(at as int, updated));
                assert(deliveries_view(sent@) =~= Seq::<DeliveryModel>::empty());
            }
        }
        Ok(sent)
    }

    /// Whether `request` can be handled: it is not a game input for a room
    /// in which the count of someone's wins has no room left to grow.
    pub fn can_handle(&self, request: &Request) -> (fits: bool)
        requires
            self.wf(),
        ensures
            fits == handles(self@, *request),
    {
        match request {
            Request::UserGameInput(input) => self.can_score(&input.room),
            _ => true,
        }
    }

    /// Takes one request of a session: the step of the hub that the request
    /// names, with the answer for the session and what is to be sent.
    pub fn handle(&mut self, request: Request) -> (handled: Handled)
        requires
            old(self).wf(),
            handles(old(self)@, request),
        ensures
            final(self).wf(),
            handled.answer is Err ==> handled.deliveries@.len() == 0 && final(self)@ == old(self)@,
            match request {
                Request::ListRooms(_) => {
                    &&& final(self)@ == old(self)@
                    &&& handled.deliveries@.len() == 0
                    &&& handled.answer matches Ok(Answer::Rooms(names)) && names_view(names@)
                        == old(self)@.room_names()
                },
                Request::Join(join) => match old(self)@.join_refusal(join.id, join.name@) {
                    Some(error) => handled.answer matches Err(e) && e@ == error,
                    None => {
                        &&& handled.answer matches Ok(Answer::Joined(room)) && room@ == join.name@
                        &&& joined(
                            old(self)@,
                            join.id,
                            join.name@,
                            final(self)@,
                            deliveries_view(handled.deliveries@),
                        )
                    },
                },
                Request::SetUsername(set) => {
                    let room = name_view(set.room);
                    &&& final(self)@ == old(self)@.rename(set.user_id, room, set.name@)
                    &&& handled.deliveries@.len() == 0
                    &&& match old(self)@.rename_refusal(set.user_id, room) {
                        Some(error) => handled.answer matches Err(e) && e@ == error,
                        None => handled.answer matches Ok(Answer::Nothing),
                    }
                },
                Request::ChatMessage(chat) => {
                    &&& final(self)@ == old(self)@
                    &&& match old(self)@.chat_refusal(chat.id, chat.room@) {
                        Some(error) => handled.answer matches Err(e) && e@ == error,
                        None => {
                            &&& handled.answer matches Ok(Answer::Nothing)
                            &&& deliveries_view(handled.deliveries@) == seq![
                                old(self)@.chat_line(chat.id, chat.room@, chat.msg@),
                            ]
                        },
                    }
                },
                Request::UserGameInput(input) => match old(self)@.input_refusal(
                    input.id,
                    input.room@,
                    input.input@,
                ) {
                    Some(error) => handled.answer matches Err(e) && e@ == error,
                    None => {
                        &&& handled.answer matches Ok(Answer::Nothing)
                        &&& played(
                            old(self)@,
                            input.id,
                            input.room@,
                            input.input@,
                            final(self)@,
                            deliveries_view(handled.deliveries@),
                        )
                    },
                },
            },
    {
        match request {
            Request::ListRooms(list) => Handled {
                answer: Ok(Answer::Rooms(self.list_rooms(list))),
                deliveries: Vec::new(),
            },
            Request::Join(join) => {
                let room = join.name.clone();
                match self.join(join) {
                    Ok(deliveries) => Handled { answer: Ok(Answer::Joined(room)), deliveries },
                    Err(e) => Handled { answer: Err(e), deliveries: Vec::new() },
                }
            },
            Request::SetUsername(set) => match self.set_username(set) {
                Ok(()) => Handled { answer: Ok(Answer::Nothing), deliveries: Vec::new() },
                Err(e) => Handled { answer: Err(e), deliveries: Vec::new() },
            },
            Request::ChatMessage(chat) => match self.chat_message(chat) {
                Ok(delivery) => {
                    let mut deliveries: Vec<Delivery> = Vec::new();
                    deliveries.push(delivery);
                    assert(deliveries_view(deliveries@) =~= seq![delivery@]);
                    Handled { answer: Ok(Answer::Nothing), deliveries }
                },
                Err(e) => Handled { answer: Err(e), deliveries: Vec::new() },
            },
            Request::UserGameInput(input) => match self.user_game_input(input) {
                Ok(deliveries) => Handled { answer: Ok(Answer::Nothing), deliveries },
                Err(e) => Handled { answer: Err(e), deliveries: Vec::new() },
            },
        }
    }
}

} // verus!
