use bataille::game::{Game, GameError, Identity};
use bataille::registry::Bataille;
use bataille::schedule::{expected_round, GENESIS_TIME};

const T0: u64 = GENESIS_TIME + 30;

fn id(n: u8) -> Identity {
    Identity { bytes: [n; 20] }
}

fn cards_of(game: &Game) -> Vec<u8> {
    let mut cards = game.common_heap().clone();
    for p in 0..game.player_count() {
        cards.extend(game.player(p).unwrap().heap().iter());
        cards.extend(game.player(p).unwrap().revealed().iter());
    }
    cards
}

#[test]
fn games_are_numbered_in_order() {
    let mut registry = Bataille::new();
    assert!(registry.get(0).is_none());
    assert_eq!(registry.createGame(id(1)), 0);
    assert_eq!(registry.createGame(id(2)), 1);
    assert_eq!(registry.createGame(id(1)), 2);
    assert_eq!(registry.get(1).unwrap().player(0).unwrap().owner(), id(2));
    assert!(registry.get(2).is_some());
    assert!(registry.get(3).is_none());
    assert_eq!(registry.get(0).unwrap().common_heap().len(), 52);
}

#[test]
fn calls_on_a_missing_game_fail() {
    let mut registry = Bataille::new();
    registry.createGame(id(1));
    assert_eq!(registry.joinGame(1, id(2)), Err(GameError::NoSuchGame));
    assert_eq!(registry.startGame(1, T0), Err(GameError::NoSuchGame));
    assert_eq!(registry.draw(1, &id(1), b"sig", true, T0), Err(GameError::NoSuchGame));
    assert_eq!(registry.draw(u64::MAX, &id(1), b"sig", true, T0), Err(GameError::NoSuchGame));
    assert_eq!(registry.round_to_verify(1, &id(1)), Err(GameError::NoSuchGame));
    assert_eq!(registry.winner(1), Identity::zero());
    assert_eq!(registry.get(0).unwrap().player_count(), 1);
    assert!(!registry.get(0).unwrap().started());
}

#[test]
fn joining_a_started_game_fails() {
    let mut registry = Bataille::new();
    registry.createGame(id(1));
    assert_eq!(registry.joinGame(0, id(2)), Ok(()));
    assert_eq!(registry.startGame(0, T0), Ok(()));
    assert_eq!(registry.joinGame(0, id(3)), Err(GameError::GameAlreadyStarted));
    assert_eq!(registry.get(0).unwrap().player_count(), 2);
    assert_eq!(*registry.get(0).unwrap().active_players(), vec![0, 1]);
}

#[test]
fn a_draw_in_an_open_game_fails() {
    let mut registry = Bataille::new();
    registry.createGame(id(1));
    assert_eq!(registry.draw(0, &id(1), b"sig", true, T0), Err(GameError::GameNotStarted));
    assert_eq!(registry.round_to_verify(0, &id(1)), Err(GameError::GameNotStarted));
    assert_eq!(registry.get(0).unwrap().common_heap().len(), 52);
}

#[test]
fn two_players_play_a_round() {
    let mut registry = Bataille::new();
    assert_eq!(registry.createGame(id(1)), 0);
    assert_eq!(registry.joinGame(0, id(2)), Ok(()));
    assert_eq!(registry.startGame(0, T0), Ok(()));
    let round = registry.nextDrandRound(0);
    assert_eq!(round, 11);
    assert_eq!(registry.round_to_verify(0, &id(1)), Ok(round));
    let first = registry.draw(0, &id(1), b"sigA", true, T0 + 3).unwrap();
    assert!(first < 52);
    assert_eq!(first, 14);
    assert_eq!(registry.turn(0), 1);
    assert_eq!(registry.nextDrandRound(0), round + 1);
    assert_eq!(registry.round_to_verify(0, &id(2)), Ok(round + 1));
    let second = registry.draw(0, &id(2), b"sigB", true, T0 + 6).unwrap();
    assert_eq!(second, 20);
    assert_eq!(registry.turn(0), 0);
    assert_eq!(registry.nextDrandRound(0), round + 2);
    let game = registry.get(0).unwrap();
    assert!(first % 13 < second % 13);
    assert_eq!(*game.player(1).unwrap().heap(), vec![first, second]);
    assert!(game.player(0).unwrap().heap().is_empty());
    assert!(game.player(0).unwrap().revealed().is_empty());
    assert!(game.player(1).unwrap().revealed().is_empty());
    assert_eq!(registry.winner(0), Identity::zero());
}

#[test]
fn an_unverified_draw_leaves_the_registry_as_it_was() {
    let mut registry = Bataille::new();
    registry.createGame(id(1));
    registry.joinGame(0, id(2)).unwrap();
    registry.startGame(0, T0).unwrap();
    registry.draw(0, &id(1), b"sigA", true, T0 + 3).unwrap();
    let before = cards_of(registry.get(0).unwrap());
    let round = registry.nextDrandRound(0);
    assert_eq!(
        registry.draw(0, &id(2), b"forged", false, T0 + 30),
        Err(GameError::VerificationFailed)
    );
    assert_eq!(cards_of(registry.get(0).unwrap()), before);
    assert_eq!(registry.nextDrandRound(0), round);
    assert_eq!(registry.turn(0), 1);
    assert!(registry.get(0).unwrap().player(1).unwrap().revealed().is_empty());
}

#[test]
fn a_draw_by_the_wrong_player_leaves_the_registry_as_it_was() {
    let mut registry = Bataille::new();
    registry.createGame(id(1));
    registry.joinGame(0, id(2)).unwrap();
    registry.startGame(0, T0).unwrap();
    let before = cards_of(registry.get(0).unwrap());
    assert_eq!(registry.draw(0, &id(2), b"sigA", true, T0 + 3), Err(GameError::OutOfTurn));
    assert_eq!(registry.draw(0, &id(3), b"sigA", true, T0 + 3), Err(GameError::OutOfTurn));
    assert_eq!(cards_of(registry.get(0).unwrap()), before);
    assert_eq!(registry.nextDrandRound(0), 11);
    assert_eq!(registry.turn(0), 0);
}

#[test]
fn games_do_not_touch_each_other() {
    let mut registry = Bataille::new();
    registry.createGame(id(1));
    registry.createGame(id(1));
    registry.joinGame(1, id(2)).unwrap();
    registry.startGame(1, T0).unwrap();
    registry.draw(1, &id(1), b"sigA", true, T0 + 3).unwrap();
    let other = registry.get(0).unwrap();
    assert!(!other.started());
    assert_eq!(other.common_heap().len(), 52);
    assert_eq!(other.player_count(), 1);
    assert_eq!(other.next_round(), 0);
    assert_eq!(registry.get(1).unwrap().common_heap().len(), 51);
}

#[test]
fn starting_again_moves_the_round() {
    let mut registry = Bataille::new();
    registry.createGame(id(1));
    registry.startGame(0, T0).unwrap();
    assert_eq!(registry.nextDrandRound(0), 11);
    registry.startGame(0, T0 + 300).unwrap();
    assert_eq!(registry.nextDrandRound(0), 111);
    assert!(registry.get(0).unwrap().started());
}

#[test]
fn the_deck_stays_whole_through_a_long_game() {
    let mut registry = Bataille::new();
    registry.createGame(id(1));
    registry.joinGame(0, id(2)).unwrap();
    registry.joinGame(0, id(3)).unwrap();
    registry.startGame(0, T0).unwrap();
    let owners = [id(1), id(2), id(3)];
    let full: Vec<u8> = (0..52).collect();
    let mut last_round = registry.nextDrandRound(0);
    let mut draws = 0u32;
    for step in 1u64..=3000 {
        let game = registry.get(0).unwrap();
        if game.finished() {
            break;
        }
        let caller = owners[game.current_player()];
        let now = T0 + 3 * step;
        let mut signature = b"round ".to_vec();
        signature.extend_from_slice(&step.to_be_bytes());
        let before = cards_of(game);
        match registry.draw(0, &caller, &signature, true, now) {
            Ok(card) => {
                assert!(card < 52);
                draws += 1;
                assert_eq!(registry.nextDrandRound(0), expected_round(now));
                assert!(registry.nextDrandRound(0) > last_round);
                last_round = registry.nextDrandRound(0);
            }
            Err(refused) => {
                assert_eq!(refused, GameError::HeapExhausted);
                assert_eq!(cards_of(registry.get(0).unwrap()), before);
                assert_eq!(registry.nextDrandRound(0), last_round);
                break;
            }
        }
        let game = registry.get(0).unwrap();
        let mut cards = cards_of(game);
        cards.sort();
        assert_eq!(cards, full);
        assert!((registry.turn(0) as usize) < game.active_players().len());
        for p in game.active_players() {
            assert!(*p < game.player_count());
        }
        for p in game.players_bataille() {
            assert!(game.active_players().contains(p));
        }
        assert_eq!(game.bataille(), !game.players_bataille().is_empty());
    }
    assert!(draws >= 52);
    let game = registry.get(0).unwrap();
    if game.finished() {
        assert_eq!(game.active_players().len(), 1);
        assert_eq!(registry.winner(0), owners[game.active_players()[0]]);
    } else {
        assert_eq!(registry.winner(0), Identity::zero());
    }
}
