use iuro_server::games::rock_papiuro_scissor::RockPapiuroScissorInput;
use iuro_server::games::{Game, GameInput};
use iuro_server::room::{
    shuffled_games, JoinResult, Room, RoomSlot, BACKLOG, DRAWN_GAMES, EXPECTED_USERS,
};
use iuro_server::IuroError;

use iuro_server::games::rock_papiuro_scissor::RockPapiuroScissorInput::{
    Papiuro, Rock, Scissor,
};

fn slot(name: &str) -> RoomSlot {
    RoomSlot { name: name.to_string(), wins: 0 }
}

fn choice(input: RockPapiuroScissorInput) -> GameInput {
    GameInput::RockPapiuroScissor(input)
}

fn full_room(games: Vec<Game>) -> Room {
    let mut room = Room::with_games(games);
    assert_eq!(room.join(1, slot("a")), JoinResult::NoGame);
    assert_eq!(room.join(2, slot("b")), JoinResult::NoGame);
    assert_eq!(room.join(3, slot("c")), JoinResult::NoGame);
    assert!(matches!(room.join(4, slot("d")), JoinResult::NewGame(_)));
    room
}

fn board(room: &Room) -> Vec<(String, usize)> {
    room.scores()
}

fn named(entries: &[(&str, usize)]) -> Vec<(String, usize)> {
    entries.iter().map(|(name, wins)| (name.to_string(), *wins)).collect()
}

#[test]
fn the_fourth_join_starts_the_game_and_the_fifth_is_turned_down() {
    let mut room = Room::with_games(vec![Game::TheRightIuro(vec![1]), Game::RockPapiuroScissor]);
    assert_eq!(room.join(1, slot("a")), JoinResult::NoGame);
    assert_eq!(room.join(2, slot("b")), JoinResult::NoGame);
    assert_eq!(room.join(3, slot("c")), JoinResult::NoGame);
    assert_eq!(room.sessions().len(), 3);
    assert_eq!(room.join(4, slot("d")), JoinResult::NewGame(Game::RockPapiuroScissor));
    assert_eq!(room.sessions().len(), EXPECTED_USERS);
    assert_eq!(room.join(5, slot("e")), JoinResult::Full);
    assert_eq!(room.sessions().len(), EXPECTED_USERS);
    assert_eq!(room.sessions().keys(), vec![1, 2, 3, 4]);
    assert!(!room.sessions().contains_key(5));
    // a full room turns down its own occupants too, and keeps their wins
    assert_eq!(room.join(1, slot("z")), JoinResult::Full);
    assert_eq!(room.sessions().get(1).map(|s| s.name.as_str()), Some("a"));
}

#[test]
fn whoever_comes_in_starts_without_wins() {
    let mut room = Room::with_games(vec![Game::RockPapiuroScissor]);
    assert_eq!(room.join(1, RoomSlot { name: "a".to_string(), wins: 7 }), JoinResult::NoGame);
    assert_eq!(room.sessions().get(1), Some(&RoomSlot { name: "a".to_string(), wins: 0 }));
}

#[test]
fn joining_twice_keeps_one_place() {
    let mut room = Room::with_games(vec![Game::RockPapiuroScissor]);
    assert_eq!(room.join(1, slot("a")), JoinResult::NoGame);
    assert_eq!(room.join(2, slot("b")), JoinResult::NoGame);
    assert_eq!(room.join(1, slot("again")), JoinResult::NoGame);
    assert_eq!(room.sessions().keys(), vec![1, 2]);
    assert_eq!(room.sessions().get(1).map(|s| s.name.as_str()), Some("again"));
}

#[test]
fn games_are_played_from_the_end_of_the_backlog() {
    let mut room = Room::with_games(vec![
        Game::TheRightIuro(vec![1]),
        Game::RockPapiuroScissor,
        Game::TheRightIuro(vec![2]),
    ]);
    assert_eq!(room.start_game(), Game::TheRightIuro(vec![2]));
    assert_eq!(room.start_game(), Game::RockPapiuroScissor);
    // the last game is played, and the backlog is drawn anew
    assert_eq!(room.start_game(), Game::TheRightIuro(vec![1]));
    for _ in 0..(2 * BACKLOG + 1) {
        assert_eq!(room.start_game(), Game::RockPapiuroScissor);
    }
}

#[test]
fn a_backlog_is_ten_drawn_games() {
    let games = shuffled_games();
    assert_eq!(games.len(), BACKLOG);
    assert_eq!(BACKLOG, 10);
    assert!(games.iter().all(|game| *game == Game::RockPapiuroScissor));
    for _ in 0..50 {
        assert!(Game::sample_index() < DRAWN_GAMES);
        assert_eq!(Game::sample(), Game::RockPapiuroScissor);
    }
    assert_eq!(Game::drawn(0), Game::RockPapiuroScissor);
}

#[test]
fn a_room_without_games_draws_its_own() {
    let mut room = Room::with_games(Vec::new());
    assert_eq!(room.start_game(), Game::RockPapiuroScissor);
    let mut drawn = Room::default();
    assert!(drawn.sessions().is_empty());
    assert_eq!(drawn.update(1, choice(Rock)), Err(IuroError::NoGameRunning));
    assert_eq!(drawn.start_game(), Game::RockPapiuroScissor);
}

#[test]
fn rock_beats_two_scissors_and_wins_alone() {
    let mut room = full_room(vec![Game::RockPapiuroScissor]);
    assert_eq!(room.update(1, choice(Rock)), Ok(vec![]));
    assert_eq!(room.update(2, choice(Scissor)), Ok(vec![]));
    assert_eq!(room.update(3, choice(Scissor)), Ok(vec![]));
    assert_eq!(
        room.update(4, choice(Papiuro)),
        Ok(named(&[("a", 1), ("b", 0), ("c", 0), ("d", 0)]))
    );
    assert_eq!(board(&room), named(&[("a", 1), ("b", 0), ("c", 0), ("d", 0)]));
}

#[test]
fn wins_add_up_over_the_rounds() {
    let mut room = full_room(vec![Game::RockPapiuroScissor]);
    for round in 1..=3usize {
        assert_eq!(room.update(4, choice(Scissor)), Ok(vec![]));
        assert_eq!(room.update(3, choice(Scissor)), Ok(vec![]));
        assert_eq!(room.update(2, choice(Rock)), Ok(vec![]));
        assert_eq!(
            room.update(1, choice(Rock)),
            Ok(named(&[("a", round), ("b", round), ("c", 0), ("d", 0)]))
        );
    }
}

#[test]
fn a_round_without_a_beaten_choice_has_no_winner() {
    let mut room = full_room(vec![Game::RockPapiuroScissor]);
    assert_eq!(room.update(1, choice(Rock)), Ok(vec![]));
    assert_eq!(room.update(2, choice(Rock)), Ok(vec![]));
    assert_eq!(room.update(3, choice(Rock)), Ok(vec![]));
    assert_eq!(
        room.update(4, choice(Rock)),
        Ok(named(&[("a", 0), ("b", 0), ("c", 0), ("d", 0)]))
    );
}

#[test]
fn an_input_sent_twice_counts_once() {
    let mut room = full_room(vec![Game::RockPapiuroScissor]);
    assert_eq!(room.update(1, choice(Rock)), Ok(vec![]));
    assert_eq!(room.update(1, choice(Papiuro)), Ok(vec![]));
    assert_eq!(room.update(1, choice(Scissor)), Ok(vec![]));
    assert_eq!(room.update(2, choice(Rock)), Ok(vec![]));
    assert_eq!(room.update(3, choice(Rock)), Ok(vec![]));
    assert_eq!(
        room.update(4, choice(Rock)),
        Ok(named(&[("a", 0), ("b", 1), ("c", 1), ("d", 1)]))
    );
}

#[test]
fn an_input_is_turned_down_without_a_game_from_a_stranger_or_for_another_game() {
    let mut room = Room::with_games(vec![Game::RockPapiuroScissor]);
    assert_eq!(room.join(1, slot("a")), JoinResult::NoGame);
    assert_eq!(room.update(1, choice(Rock)), Err(IuroError::NoGameRunning));
    assert_eq!(room.update(9, choice(Rock)), Err(IuroError::NoGameRunning));
    let mut room = full_room(vec![Game::RockPapiuroScissor]);
    assert_eq!(room.update(9, choice(Rock)), Err(IuroError::AddrNotFound(9)));
    assert_eq!(
        room.update(1, GameInput::TheRightIuro(vec![1])),
        Err(IuroError::JsonParsingFailed)
    );
    // what was turned down has left no trace
    assert_eq!(room.update(1, choice(Rock)), Ok(vec![]));
    assert_eq!(room.update(2, choice(Scissor)), Ok(vec![]));
    assert_eq!(room.update(3, choice(Scissor)), Ok(vec![]));
    assert_eq!(
        room.update(4, choice(Scissor)),
        Ok(named(&[("a", 1), ("b", 0), ("c", 0), ("d", 0)]))
    );
}

#[test]
fn the_right_bytes_are_guessed_in_a_room() {
    let mut room = full_room(vec![Game::TheRightIuro(vec![1, 2, 3])]);
    assert_eq!(room.update(1, choice(Rock)), Err(IuroError::JsonParsingFailed));
    assert_eq!(room.update(1, GameInput::TheRightIuro(vec![1, 2, 3])), Ok(vec![]));
    assert_eq!(room.update(2, GameInput::TheRightIuro(vec![])), Ok(vec![]));
    assert_eq!(room.update(3, GameInput::TheRightIuro(vec![1, 2, 3, 4])), Ok(vec![]));
    assert_eq!(
        room.update(4, GameInput::TheRightIuro(vec![1, 2, 3])),
        Ok(named(&[("a", 1), ("b", 0), ("c", 0), ("d", 1)]))
    );
}

#[test]
fn leaving_calls_the_round_off() {
    let mut room = full_room(vec![Game::RockPapiuroScissor]);
    assert_eq!(room.update(1, choice(Rock)), Ok(vec![]));
    assert_eq!(room.update(2, choice(Scissor)), Ok(vec![]));
    assert_eq!(room.remove_session(2), Some(slot("b")));
    assert_eq!(room.remove_session(2), None);
    assert_eq!(room.sessions().keys(), vec![1, 3, 4]);
    assert_eq!(room.update(1, choice(Rock)), Err(IuroError::NoGameRunning));
    // with a fourth again, the round starts from nothing
    assert!(matches!(room.join(5, slot("e")), JoinResult::NewGame(_)));
    assert_eq!(room.update(3, choice(Scissor)), Ok(vec![]));
    assert_eq!(room.update(4, choice(Scissor)), Ok(vec![]));
    assert_eq!(room.update(5, choice(Scissor)), Ok(vec![]));
    assert_eq!(
        room.update(1, choice(Papiuro)),
        Ok(named(&[("a", 0), ("c", 1), ("d", 1), ("e", 1)]))
    );
}

#[test]
fn leaving_a_room_one_is_not_in_changes_nothing() {
    let mut room = full_room(vec![Game::RockPapiuroScissor]);
    assert_eq!(room.update(1, choice(Rock)), Ok(vec![]));
    assert_eq!(room.remove_session(9), None);
    assert_eq!(room.update(2, choice(Scissor)), Ok(vec![]));
}

#[test]
fn wins_are_lost_on_the_way_out_and_back_in() {
    let mut room = full_room(vec![Game::RockPapiuroScissor]);
    assert_eq!(room.update(1, choice(Rock)), Ok(vec![]));
    assert_eq!(room.update(2, choice(Scissor)), Ok(vec![]));
    assert_eq!(room.update(3, choice(Scissor)), Ok(vec![]));
    assert!(room.update(4, choice(Scissor)).is_ok());
    let gone = room.remove_session(1).unwrap();
    assert_eq!(gone, RoomSlot { name: "a".to_string(), wins: 1 });
    assert!(matches!(room.join(1, gone), JoinResult::NewGame(_)));
    assert_eq!(board(&room), named(&[("b", 0), ("c", 0), ("d", 0), ("a", 0)]));
}

#[test]
fn a_round_can_be_called_off_and_a_name_changed() {
    let mut room = full_room(vec![Game::RockPapiuroScissor]);
    room.reset_game();
    assert_eq!(room.update(1, choice(Rock)), Err(IuroError::NoGameRunning));
    assert_eq!(room.rename(2, "bee".to_string()), Ok(()));
    assert_eq!(room.rename(9, "nine".to_string()), Err(IuroError::AddrNotFound(9)));
    assert_eq!(board(&room), named(&[("a", 0), ("bee", 0), ("c", 0), ("d", 0)]));
    assert!(room.can_score());
}

#[test]
fn a_count_at_its_limit_cannot_grow() {
    let mut room = Room::with_games(vec![Game::RockPapiuroScissor]);
    assert!(room.can_score());
    assert_eq!(room.join(1, slot("a")), JoinResult::NoGame);
    assert!(room.can_score());
}
