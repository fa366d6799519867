use iuro_server::games::rock_papiuro_scissor::{
    score_of, winners, RockPapiuroScissorInput, Update as ChoiceUpdate,
};
use iuro_server::games::the_right_iuro::{winners as guess_winners, Update as GuessUpdate};
use iuro_server::games::{copy_bytes, same_bytes, settle, Game, GameState};
use iuro_server::room::RoomSlot;
use iuro_server::table::IdMap;
use iuro_server::IuroError;

use iuro_server::games::rock_papiuro_scissor::RockPapiuroScissorInput::{
    Papiuro, Rock, Scissor,
};

fn slots(ids: &[usize]) -> IdMap<RoomSlot> {
    let mut sessions = IdMap::new();
    for id in ids {
        sessions.insert(*id, RoomSlot { name: format!("p{}", id), wins: 0 });
    }
    sessions
}

fn wins(sessions: &IdMap<RoomSlot>) -> Vec<(usize, usize)> {
    (0..sessions.len()).map(|i| (sessions.key_at(i), sessions.value_at(i).wins)).collect()
}

#[test]
fn beats_is_the_cycle_and_nothing_else() {
    let all = [Rock, Papiuro, Scissor];
    for a in all {
        for b in all {
            let expected = matches!((a, b), (Rock, Scissor) | (Scissor, Papiuro) | (Papiuro, Rock));
            assert_eq!(a.beats(b), expected, "{:?} against {:?}", a, b);
        }
    }
}

#[test]
fn no_choice_beats_itself_and_of_two_exactly_one_wins() {
    let all = [Rock, Papiuro, Scissor];
    for a in all {
        assert!(!a.beats(a));
        for b in all {
            if a != b {
                assert_ne!(a.beats(b), b.beats(a));
            }
        }
    }
}

#[test]
fn score_counts_the_other_inputs_that_are_beaten() {
    let mut state = IdMap::new();
    state.insert(1, Rock);
    state.insert(2, Scissor);
    state.insert(3, Scissor);
    state.insert(4, Papiuro);
    assert_eq!(score_of(&state, 0), 2);
    assert_eq!(score_of(&state, 1), 1);
    assert_eq!(score_of(&state, 2), 1);
    assert_eq!(score_of(&state, 3), 1);
    assert_eq!(winners(&state), vec![true, false, false, false]);
}

#[test]
fn no_one_wins_where_no_one_beats_anyone() {
    let mut state = IdMap::new();
    state.insert(1, Rock);
    state.insert(2, Rock);
    state.insert(3, Rock);
    assert_eq!(score_of(&state, 0), 0);
    assert_eq!(winners(&state), vec![false, false, false]);
    let lonely: IdMap<RockPapiuroScissorInput> = IdMap::new();
    assert_eq!(winners(&lonely), Vec::<bool>::new());
}

#[test]
fn everyone_level_at_the_top_wins() {
    let mut state = IdMap::new();
    state.insert(1, Rock);
    state.insert(2, Papiuro);
    state.insert(3, Scissor);
    assert_eq!(winners(&state), vec![true, true, true]);
    let mut pairs = IdMap::new();
    pairs.insert(1, Rock);
    pairs.insert(2, Scissor);
    pairs.insert(3, Rock);
    pairs.insert(4, Scissor);
    assert_eq!(score_of(&pairs, 0), 2);
    assert_eq!(score_of(&pairs, 1), 0);
    assert_eq!(winners(&pairs), vec![true, false, true, false]);
}

#[test]
fn a_round_stays_open_until_everyone_has_sent() {
    let mut sessions = slots(&[1, 2]);
    let mut state = IdMap::new();
    let first = ChoiceUpdate { user_id: 1, input: Rock, state: &mut state }.consume(&mut sessions);
    assert_eq!(first, Ok(false));
    assert_eq!(state.len(), 1);
    assert_eq!(wins(&sessions), vec![(1, 0), (2, 0)]);
    // the same user again: the input is replaced, the round stays open
    let again =
        ChoiceUpdate { user_id: 1, input: Papiuro, state: &mut state }.consume(&mut sessions);
    assert_eq!(again, Ok(false));
    assert_eq!(state.len(), 1);
    assert_eq!(state.get(1), Some(&Papiuro));
}

#[test]
fn a_full_round_is_settled_and_cleared() {
    let mut sessions = slots(&[1, 2]);
    let mut state = IdMap::new();
    assert_eq!(
        ChoiceUpdate { user_id: 1, input: Rock, state: &mut state }.consume(&mut sessions),
        Ok(false)
    );
    assert_eq!(
        ChoiceUpdate { user_id: 2, input: Scissor, state: &mut state }.consume(&mut sessions),
        Ok(true)
    );
    assert!(state.is_empty());
    assert_eq!(wins(&sessions), vec![(1, 1), (2, 0)]);
    // the next round starts empty and counts on top
    assert_eq!(
        ChoiceUpdate { user_id: 2, input: Papiuro, state: &mut state }.consume(&mut sessions),
        Ok(false)
    );
    assert_eq!(
        ChoiceUpdate { user_id: 1, input: Rock, state: &mut state }.consume(&mut sessions),
        Ok(true)
    );
    assert_eq!(wins(&sessions), vec![(1, 1), (2, 1)]);
}

#[test]
fn a_winner_without_a_slot_is_reported_and_no_win_is_counted() {
    let mut sessions = slots(&[1, 2]);
    let mut state = IdMap::new();
    assert_eq!(
        ChoiceUpdate { user_id: 1, input: Scissor, state: &mut state }.consume(&mut sessions),
        Ok(false)
    );
    let broken =
        ChoiceUpdate { user_id: 9, input: Rock, state: &mut state }.consume(&mut sessions);
    assert_eq!(broken, Err(IuroError::AddrNotFound(9)));
    assert_eq!(state.len(), 2);
    assert_eq!(wins(&sessions), vec![(1, 0), (2, 0)]);
}

#[test]
fn a_loser_without_a_slot_does_not_stop_the_round() {
    let mut sessions = slots(&[1, 2]);
    let mut state = IdMap::new();
    assert_eq!(
        ChoiceUpdate { user_id: 1, input: Rock, state: &mut state }.consume(&mut sessions),
        Ok(false)
    );
    assert_eq!(
        ChoiceUpdate { user_id: 9, input: Scissor, state: &mut state }.consume(&mut sessions),
        Ok(true)
    );
    assert!(state.is_empty());
    assert_eq!(wins(&sessions), vec![(1, 1), (2, 0)]);
}

#[test]
fn settle_awards_the_marked_inputs() {
    let mut sessions = slots(&[5, 6, 7]);
    let mut state: IdMap<u8> = IdMap::new();
    state.insert(7, 0);
    state.insert(5, 0);
    state.insert(6, 0);
    assert_eq!(settle(&mut state, &vec![true, false, true], &mut sessions), Ok(()));
    assert!(state.is_empty());
    assert_eq!(wins(&sessions), vec![(5, 0), (6, 1), (7, 1)]);
}

#[test]
fn the_right_bytes_win() {
    let target = vec![1u8, 2, 3];
    let mut inputs = IdMap::new();
    inputs.insert(1, vec![1u8, 2, 3]);
    inputs.insert(2, vec![1u8, 2]);
    inputs.insert(3, vec![3u8, 2, 1]);
    inputs.insert(4, vec![1u8, 2, 3]);
    assert_eq!(guess_winners(&target, &inputs), vec![true, false, false, true]);
}

#[test]
fn a_round_of_guesses_is_settled_when_everyone_has_sent() {
    let mut sessions = slots(&[1, 2, 3]);
    let mut state = (vec![7u8, 7], IdMap::new());
    assert_eq!(
        GuessUpdate { user_id: 1, input: vec![7, 7], state: &mut state }.consume(&mut sessions),
        Ok(false)
    );
    assert_eq!(
        GuessUpdate { user_id: 2, input: vec![7], state: &mut state }.consume(&mut sessions),
        Ok(false)
    );
    assert_eq!(
        GuessUpdate { user_id: 3, input: vec![7, 7], state: &mut state }.consume(&mut sessions),
        Ok(true)
    );
    assert_eq!(state.0, vec![7u8, 7]);
    assert!(state.1.is_empty());
    assert_eq!(wins(&sessions), vec![(1, 1), (2, 0), (3, 1)]);
}

#[test]
fn bytes_are_compared_and_copied_one_by_one() {
    assert!(same_bytes(&vec![], &vec![]));
    assert!(same_bytes(&vec![1, 2], &vec![1, 2]));
    assert!(!same_bytes(&vec![1, 2], &vec![1, 3]));
    assert!(!same_bytes(&vec![1, 2], &vec![1]));
    assert_eq!(copy_bytes(&vec![9, 8, 7]), vec![9, 8, 7]);
}

#[test]
fn a_new_round_is_empty_and_of_its_game() {
    match GameState::new(&Game::RockPapiuroScissor) {
        GameState::RockPapiuroScissor(inputs) => assert!(inputs.is_empty()),
        _ => panic!("the round is of another game"),
    }
    match GameState::new(&Game::TheRightIuro(vec![4, 2])) {
        GameState::TheRightIuro((target, inputs)) => {
            assert_eq!(target, vec![4, 2]);
            assert!(inputs.is_empty());
        }
        _ => panic!("the round is of another game"),
    }
    assert_eq!(Game::TheRightIuro(vec![1]).clone(), Game::TheRightIuro(vec![1]));
}
