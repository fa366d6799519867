use iuro_server::games::rock_papiuro_scissor::RockPapiuroScissorInput;
use iuro_server::games::{Game, GameInput};
use iuro_server::messages::{
    Answer, Broadcast, ChatMessage, Connect, Delivery, Disconnect, Handled, Join, ListRooms,
    Request, SetUsername, UserGameInput,
};
use iuro_server::room::RoomSlot;
use iuro_server::server::names::default_user_name;
use iuro_server::{IuroError, IuroServer};

use iuro_server::games::rock_papiuro_scissor::RockPapiuroScissorInput::{
    Papiuro, Rock, Scissor,
};

fn hub_with(ids: &[usize]) -> IuroServer {
    let mut hub = IuroServer::default();
    for id in ids {
        assert_eq!(hub.connect(Connect { id: *id }), vec![]);
    }
    hub
}

fn join(hub: &mut IuroServer, id: usize, room: &str) -> Result<Vec<Delivery>, IuroError> {
    hub.join(Join { id, name: room.to_string() })
}

fn play(
    hub: &mut IuroServer,
    id: usize,
    room: &str,
    input: RockPapiuroScissorInput,
) -> Result<Vec<Delivery>, IuroError> {
    hub.user_game_input(UserGameInput {
        id,
        room: room.to_string(),
        input: GameInput::RockPapiuroScissor(input),
    })
}

fn chat(hub: &IuroServer, id: usize, room: &str, text: &str) -> Result<Delivery, IuroError> {
    hub.chat_message(ChatMessage { id, msg: text.to_string(), room: room.to_string() })
}

fn farewell(to: Vec<usize>) -> Delivery {
    Delivery { to, message: Broadcast::Literal("Someone disconnected") }
}

fn started(to: Vec<usize>) -> Delivery {
    Delivery { to, message: Broadcast::GameStarted(Game::RockPapiuroScissor) }
}

fn ended(to: Vec<usize>, board: &[(&str, usize)]) -> Delivery {
    Delivery {
        to,
        message: Broadcast::GameEnded(
            board.iter().map(|(name, wins)| (name.to_string(), *wins)).collect(),
        ),
    }
}

fn lobby() -> IuroServer {
    let mut hub = hub_with(&[1, 2, 3, 4]);
    assert_eq!(join(&mut hub, 1, "lobby"), Ok(vec![]));
    assert_eq!(join(&mut hub, 2, "lobby"), Ok(vec![]));
    assert_eq!(join(&mut hub, 3, "lobby"), Ok(vec![]));
    assert_eq!(join(&mut hub, 4, "lobby"), Ok(vec![started(vec![1, 2, 3, 4])]));
    hub
}

fn wins_in(hub: &IuroServer, room: &str) -> Vec<(String, usize)> {
    hub.room(&room.to_string()).map(|room| room.scores()).unwrap_or_default()
}

#[test]
fn a_connection_goes_by_a_name_made_of_its_id() {
    assert_eq!(default_user_name(0), "user-0");
    assert_eq!(default_user_name(7), "user-7");
    assert_eq!(default_user_name(10), "user-10");
    assert_eq!(default_user_name(4094), "user-4094");
    assert_eq!(default_user_name(4095), "user-0");
    assert_eq!(default_user_name(5000), "user-905");
    assert_eq!(default_user_name(123_456_789), "user-729");
    let hub = hub_with(&[5000]);
    assert_eq!(hub.unbound().get(5000), Some(&RoomSlot { name: "user-905".to_string(), wins: 0 }));
}

#[test]
fn connecting_again_starts_over() {
    let mut hub = hub_with(&[1, 2]);
    assert_eq!(
        hub.set_username(SetUsername { user_id: 1, room: None, name: "ann".to_string() }),
        Ok(())
    );
    assert_eq!(hub.connect(Connect { id: 1 }), vec![]);
    assert_eq!(hub.unbound().keys(), vec![1, 2]);
    assert_eq!(hub.unbound().get(1).map(|s| s.name.as_str()), Some("user-1"));
    // an id that is in a room leaves it
    assert_eq!(join(&mut hub, 1, "den"), Ok(vec![]));
    assert_eq!(join(&mut hub, 2, "den"), Ok(vec![]));
    assert_eq!(hub.connect(Connect { id: 1 }), vec![farewell(vec![2])]);
    assert_eq!(hub.unbound().keys(), vec![1]);
    assert_eq!(hub.room(&"den".to_string()).map(|r| r.sessions().keys()), Some(vec![2]));
}

#[test]
fn four_join_the_lobby_and_rock_wins_the_round() {
    let mut hub = lobby();
    assert_eq!(play(&mut hub, 1, "lobby", Rock), Ok(vec![]));
    assert_eq!(play(&mut hub, 2, "lobby", Scissor), Ok(vec![]));
    assert_eq!(play(&mut hub, 3, "lobby", Scissor), Ok(vec![]));
    let board = [("user-1", 1), ("user-2", 0), ("user-3", 0), ("user-4", 0)];
    assert_eq!(
        play(&mut hub, 4, "lobby", Papiuro),
        Ok(vec![ended(vec![1, 2, 3, 4], &board), started(vec![1, 2, 3, 4])])
    );
    // the next round is open at once, and empty
    assert_eq!(play(&mut hub, 4, "lobby", Rock), Ok(vec![]));
    assert_eq!(play(&mut hub, 3, "lobby", Rock), Ok(vec![]));
    assert_eq!(play(&mut hub, 2, "lobby", Rock), Ok(vec![]));
    let board = [("user-1", 2), ("user-2", 0), ("user-3", 0), ("user-4", 0)];
    assert_eq!(
        play(&mut hub, 1, "lobby", Papiuro),
        Ok(vec![ended(vec![1, 2, 3, 4], &board), started(vec![1, 2, 3, 4])])
    );
}

#[test]
fn a_full_room_takes_no_one_and_the_one_turned_down_stays_where_it_was() {
    let mut hub = lobby();
    assert_eq!(hub.connect(Connect { id: 5 }), vec![]);
    assert_eq!(join(&mut hub, 5, "lobby"), Err(IuroError::FullRoom("lobby".to_string())));
    assert_eq!(hub.unbound().keys(), vec![5]);
    assert_eq!(wins_in(&hub, "lobby").len(), 4);
    // from another room: it stays in that room, and no one there is told
    assert_eq!(join(&mut hub, 5, "den"), Ok(vec![]));
    assert_eq!(join(&mut hub, 5, "lobby"), Err(IuroError::FullRoom("lobby".to_string())));
    assert_eq!(hub.room(&"den".to_string()).map(|r| r.sessions().keys()), Some(vec![5]));
    // an occupant of the full room that asks for it again stays in, too
    assert_eq!(join(&mut hub, 1, "lobby"), Err(IuroError::FullRoom("lobby".to_string())));
    assert_eq!(
        hub.room(&"lobby".to_string()).map(|r| r.sessions().keys()),
        Some(vec![1, 2, 3, 4])
    );
    assert_eq!(play(&mut hub, 1, "lobby", Rock), Ok(vec![]));
}

#[test]
fn a_connection_that_is_not_open_joins_nothing() {
    let mut hub = hub_with(&[1]);
    assert_eq!(join(&mut hub, 9, "lobby"), Err(IuroError::AddrNotFound(9)));
    assert_eq!(hub.list_rooms(ListRooms), Vec::<String>::new());
    // not even a full room is named before the connection is known
    let mut hub = lobby();
    assert_eq!(join(&mut hub, 9, "lobby"), Err(IuroError::AddrNotFound(9)));
}

#[test]
fn chat_goes_to_everyone_in_the_room_with_the_name_before_it() {
    let mut hub = hub_with(&[1, 2, 3]);
    assert_eq!(join(&mut hub, 2, "den"), Ok(vec![]));
    assert_eq!(join(&mut hub, 1, "den"), Ok(vec![]));
    assert_eq!(
        chat(&hub, 1, "den", "hi"),
        Ok(Delivery { to: vec![2, 1], message: Broadcast::Text("user-1: hi".to_string()) })
    );
    assert_eq!(
        chat(&hub, 2, "den", ""),
        Ok(Delivery { to: vec![2, 1], message: Broadcast::Text("user-2: ".to_string()) })
    );
}

#[test]
fn chat_from_outside_the_room_is_turned_down() {
    let mut hub = hub_with(&[1, 2]);
    assert_eq!(join(&mut hub, 1, "den"), Ok(vec![]));
    assert_eq!(chat(&hub, 2, "den", "hi"), Err(IuroError::AddrNotFound(2)));
    assert_eq!(chat(&hub, 9, "den", "hi"), Err(IuroError::AddrNotFound(9)));
    assert_eq!(chat(&hub, 1, "nowhere", "hi"), Err(IuroError::NoRoom("nowhere".to_string())));
    let handled = hub.handle(Request::ChatMessage(ChatMessage {
        id: 2,
        msg: "hi".to_string(),
        room: "den".to_string(),
    }));
    assert_eq!(handled, Handled { answer: Err(IuroError::AddrNotFound(2)), deliveries: vec![] });
}

#[test]
fn a_message_goes_to_a_room_as_it_is() {
    let mut hub = hub_with(&[1, 2]);
    assert_eq!(join(&mut hub, 1, "den"), Ok(vec![]));
    assert_eq!(join(&mut hub, 2, "den"), Ok(vec![]));
    assert_eq!(
        hub.send_message(&"den".to_string(), Broadcast::Literal("ho")),
        Ok(Delivery { to: vec![1, 2], message: Broadcast::Literal("ho") })
    );
    assert_eq!(
        hub.send_message(&"none".to_string(), Broadcast::Literal("ho")),
        Err(IuroError::NoRoom("none".to_string()))
    );
}

#[test]
fn a_room_is_listed_as_long_as_someone_is_in_it() {
    let mut hub = hub_with(&[1, 2, 3]);
    assert_eq!(hub.list_rooms(ListRooms), Vec::<String>::new());
    assert_eq!(join(&mut hub, 1, "a"), Ok(vec![]));
    assert_eq!(join(&mut hub, 2, "b"), Ok(vec![]));
    assert_eq!(join(&mut hub, 3, "a"), Ok(vec![]));
    assert_eq!(hub.list_rooms(ListRooms), vec!["a".to_string(), "b".to_string()]);
    assert_eq!(hub.disconnect(Disconnect { id: 1 }), Ok(vec![farewell(vec![3])]));
    assert_eq!(hub.list_rooms(ListRooms), vec!["a".to_string(), "b".to_string()]);
    assert_eq!(hub.disconnect(Disconnect { id: 3 }), Ok(vec![farewell(vec![])]));
    assert_eq!(hub.list_rooms(ListRooms), vec!["b".to_string()]);
    assert_eq!(join(&mut hub, 2, "c"), Ok(vec![farewell(vec![])]));
    assert_eq!(hub.list_rooms(ListRooms), vec!["c".to_string()]);
    assert!(hub.room(&"b".to_string()).is_none());
}

#[test]
fn moving_to_another_room_is_leaving_the_first() {
    let mut hub = hub_with(&[1, 2, 3]);
    assert_eq!(join(&mut hub, 1, "a"), Ok(vec![]));
    assert_eq!(join(&mut hub, 2, "a"), Ok(vec![]));
    assert_eq!(join(&mut hub, 3, "a"), Ok(vec![]));
    assert_eq!(join(&mut hub, 2, "b"), Ok(vec![farewell(vec![1, 3])]));
    assert_eq!(hub.room(&"a".to_string()).map(|r| r.sessions().keys()), Some(vec![1, 3]));
    assert_eq!(hub.room(&"b".to_string()).map(|r| r.sessions().keys()), Some(vec![2]));
    assert!(hub.unbound().is_empty());
    // into the room one is in: out and in again, behind the others
    assert_eq!(join(&mut hub, 1, "a"), Ok(vec![farewell(vec![3])]));
    assert_eq!(hub.room(&"a".to_string()).map(|r| r.sessions().keys()), Some(vec![3, 1]));
}

#[test]
fn the_name_and_nothing_else_comes_along_into_a_room() {
    let mut hub = lobby();
    assert_eq!(
        hub.set_username(SetUsername {
            user_id: 1,
            room: Some("lobby".to_string()),
            name: "ann".to_string()
        }),
        Ok(())
    );
    assert_eq!(play(&mut hub, 1, "lobby", Rock), Ok(vec![]));
    assert_eq!(play(&mut hub, 2, "lobby", Scissor), Ok(vec![]));
    assert_eq!(play(&mut hub, 3, "lobby", Scissor), Ok(vec![]));
    assert!(play(&mut hub, 4, "lobby", Scissor).is_ok());
    assert_eq!(wins_in(&hub, "lobby")[0], ("ann".to_string(), 1));
    assert_eq!(join(&mut hub, 1, "den"), Ok(vec![farewell(vec![2, 3, 4])]));
    assert_eq!(wins_in(&hub, "den"), vec![("ann".to_string(), 0)]);
    assert_eq!(join(&mut hub, 1, "lobby"), Ok(vec![farewell(vec![]), started(vec![2, 3, 4, 1])]));
    assert_eq!(
        wins_in(&hub, "lobby"),
        vec![
            ("user-2".to_string(), 0),
            ("user-3".to_string(), 0),
            ("user-4".to_string(), 0),
            ("ann".to_string(), 0)
        ]
    );
}

#[test]
fn disconnecting_in_the_middle_of_a_round_calls_it_off() {
    let mut hub = lobby();
    assert_eq!(play(&mut hub, 1, "lobby", Rock), Ok(vec![]));
    assert_eq!(play(&mut hub, 2, "lobby", Scissor), Ok(vec![]));
    assert_eq!(play(&mut hub, 3, "lobby", Scissor), Ok(vec![]));
    assert_eq!(hub.disconnect(Disconnect { id: 1 }), Ok(vec![farewell(vec![2, 3, 4])]));
    assert_eq!(play(&mut hub, 4, "lobby", Papiuro), Err(IuroError::NoGameRunning));
    assert_eq!(play(&mut hub, 1, "lobby", Papiuro), Err(IuroError::NoGameRunning));
    // a fourth comes: the round starts from nothing
    assert_eq!(hub.connect(Connect { id: 5 }), vec![]);
    assert_eq!(join(&mut hub, 5, "lobby"), Ok(vec![started(vec![2, 3, 4, 5])]));
    assert_eq!(play(&mut hub, 4, "lobby", Papiuro), Ok(vec![]));
    assert_eq!(play(&mut hub, 1, "lobby", Rock), Err(IuroError::AddrNotFound(1)));
    assert_eq!(play(&mut hub, 5, "lobby", Rock), Ok(vec![]));
    assert_eq!(play(&mut hub, 3, "lobby", Rock), Ok(vec![]));
    let board = [("user-2", 0), ("user-3", 0), ("user-4", 1), ("user-5", 0)];
    assert_eq!(
        play(&mut hub, 2, "lobby", Rock),
        Ok(vec![ended(vec![2, 3, 4, 5], &board), started(vec![2, 3, 4, 5])])
    );
}

#[test]
fn disconnecting_takes_the_connection_out_wherever_it_is() {
    let mut hub = hub_with(&[1, 2]);
    assert_eq!(hub.disconnect(Disconnect { id: 9 }), Err(IuroError::AddrNotFound(9)));
    assert_eq!(hub.disconnect(Disconnect { id: 1 }), Ok(vec![]));
    assert_eq!(hub.disconnect(Disconnect { id: 1 }), Err(IuroError::AddrNotFound(1)));
    assert_eq!(hub.unbound().keys(), vec![2]);
    assert_eq!(join(&mut hub, 2, "den"), Ok(vec![]));
    assert_eq!(hub.leave_all_rooms(9).err(), Some(IuroError::AddrNotFound(9)));
    assert_eq!(
        hub.leave_all_rooms(2),
        Ok((RoomSlot { name: "user-2".to_string(), wins: 0 }, farewell(vec![])))
    );
    assert_eq!(hub.list_rooms(ListRooms), Vec::<String>::new());
    assert_eq!(hub.disconnect(Disconnect { id: 2 }), Err(IuroError::AddrNotFound(2)));
}

#[test]
fn a_name_is_set_where_the_session_believes_its_user_is() {
    let mut hub = hub_with(&[1, 2]);
    assert_eq!(join(&mut hub, 1, "den"), Ok(vec![]));
    let set = |id: usize, room: Option<&str>, name: &str| SetUsername {
        user_id: id,
        room: room.map(|r| r.to_string()),
        name: name.to_string(),
    };
    assert_eq!(hub.set_username(set(1, Some("den"), "ann")), Ok(()));
    assert_eq!(hub.set_username(set(2, None, "bob")), Ok(()));
    assert_eq!(hub.set_username(set(1, None, "x")), Err(IuroError::AddrNotFound(1)));
    assert_eq!(hub.set_username(set(2, Some("den"), "x")), Err(IuroError::AddrNotFound(2)));
    assert_eq!(
        hub.set_username(set(1, Some("attic"), "x")),
        Err(IuroError::NoRoom("attic".to_string()))
    );
    assert_eq!(hub.set_username(set(9, None, "x")), Err(IuroError::AddrNotFound(9)));
    assert_eq!(
        chat(&hub, 1, "den", "hi"),
        Ok(Delivery { to: vec![1], message: Broadcast::Text("ann: hi".to_string()) })
    );
    assert_eq!(hub.unbound().get(2).map(|s| s.name.as_str()), Some("bob"));
    assert_eq!(join(&mut hub, 2, "den"), Ok(vec![]));
    assert_eq!(wins_in(&hub, "den"), vec![("ann".to_string(), 0), ("bob".to_string(), 0)]);
}

#[test]
fn a_game_input_is_turned_down_where_it_cannot_count() {
    let mut hub = hub_with(&[1, 2]);
    assert_eq!(play(&mut hub, 1, "lobby", Rock), Err(IuroError::NoRoom("lobby".to_string())));
    assert_eq!(join(&mut hub, 1, "lobby"), Ok(vec![]));
    assert_eq!(play(&mut hub, 1, "lobby", Rock), Err(IuroError::NoGameRunning));
    let mut hub = lobby();
    assert_eq!(play(&mut hub, 9, "lobby", Rock), Err(IuroError::AddrNotFound(9)));
    assert_eq!(
        hub.user_game_input(UserGameInput {
            id: 1,
            room: "lobby".to_string(),
            input: GameInput::TheRightIuro(vec![1, 2])
        }),
        Err(IuroError::JsonParsingFailed)
    );
    assert!(hub.can_score(&"lobby".to_string()));
    assert!(hub.can_score(&"nowhere".to_string()));
}

#[test]
fn every_request_is_one_step_of_the_hub() {
    let mut hub = hub_with(&[1, 2, 3, 4]);
    let join = |id: usize| Request::Join(Join { id, name: "lobby".to_string() });
    let joined = |deliveries: Vec<Delivery>| Handled {
        answer: Ok(Answer::Joined("lobby".to_string())),
        deliveries,
    };
    assert!(hub.can_handle(&join(1)));
    assert_eq!(hub.handle(join(1)), joined(vec![]));
    assert_eq!(hub.handle(join(2)), joined(vec![]));
    assert_eq!(hub.handle(join(3)), joined(vec![]));
    assert_eq!(hub.handle(join(4)), joined(vec![started(vec![1, 2, 3, 4])]));
    assert_eq!(
        hub.handle(join(9)),
        Handled { answer: Err(IuroError::AddrNotFound(9)), deliveries: vec![] }
    );
    assert_eq!(
        hub.handle(Request::ListRooms(ListRooms)),
        Handled { answer: Ok(Answer::Rooms(vec!["lobby".to_string()])), deliveries: vec![] }
    );
    assert_eq!(
        hub.handle(Request::SetUsername(SetUsername {
            user_id: 3,
            room: Some("lobby".to_string()),
            name: "cy".to_string()
        })),
        Handled { answer: Ok(Answer::Nothing), deliveries: vec![] }
    );
    assert_eq!(
        hub.handle(Request::ChatMessage(ChatMessage {
            id: 3,
            msg: "go".to_string(),
            room: "lobby".to_string()
        })),
        Handled {
            answer: Ok(Answer::Nothing),
            deliveries: vec![Delivery {
                to: vec![1, 2, 3, 4],
                message: Broadcast::Text("cy: go".to_string())
            }]
        }
    );
    let input = |id: usize, choice: RockPapiuroScissorInput| {
        Request::UserGameInput(UserGameInput {
            id,
            room: "lobby".to_string(),
            input: GameInput::RockPapiuroScissor(choice),
        })
    };
    assert!(hub.can_handle(&input(1, Rock)));
    let open = Handled { answer: Ok(Answer::Nothing), deliveries: vec![] };
    assert_eq!(hub.handle(input(1, Papiuro)), open);
    assert_eq!(hub.handle(input(2, Rock)), open);
    assert_eq!(hub.handle(input(3, Rock)), open);
    let board = [("user-1", 1), ("user-2", 0), ("cy", 0), ("user-4", 1)];
    assert_eq!(
        hub.handle(input(4, Papiuro)),
        Handled {
            answer: Ok(Answer::Nothing),
            deliveries: vec![ended(vec![1, 2, 3, 4], &board), started(vec![1, 2, 3, 4])]
        }
    );
}
