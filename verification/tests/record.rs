use bataille::game::{Game, GameError, Identity};
use bataille::record::{GameRecord, PlayerRecord};
use bataille::registry::Bataille;
use bataille::schedule::GENESIS_TIME;

const T0: u64 = GENESIS_TIME + 30;

fn id(n: u8) -> Identity {
    Identity { bytes: [n; 20] }
}

fn seat(n: u8, heap: Vec<u8>, revealed: Vec<u8>) -> PlayerRecord {
    PlayerRecord { owner: id(n), heap, revealed }
}

/// Two players, one card face up before the first, the second to draw.
fn mid_round() -> GameRecord {
    GameRecord {
        common_heap: (3..52).collect(),
        players: vec![seat(1, vec![0], vec![1]), seat(2, vec![2], vec![])],
        active_players: vec![0, 1],
        current_player_index: 1,
        started: true,
        finished: false,
        bataille: false,
        next_round: 11,
        players_bataille: vec![],
    }
}

#[test]
fn a_played_game_is_written_out_as_it_stands() {
    let mut game = Game::new(id(1));
    game.join(id(2));
    game.start(T0);
    assert_eq!(game.draw(&id(1), b"sigA", true, T0 + 3), Ok(14));
    let record = game.record();
    assert_eq!(record.common_heap, *game.common_heap());
    assert_eq!(record.common_heap.len(), 51);
    assert_eq!(record.players.len(), 2);
    assert_eq!(record.players[0].owner, id(1));
    assert_eq!(record.players[0].revealed, vec![14]);
    assert!(record.players[0].heap.is_empty());
    assert_eq!(record.players[1].owner, id(2));
    assert_eq!(record.active_players, vec![0, 1]);
    assert_eq!(record.current_player_index, 1);
    assert!(record.started);
    assert!(!record.finished);
    assert!(!record.bataille);
    assert_eq!(record.next_round, 12);
    assert!(record.players_bataille.is_empty());
    assert!(record.well_formed());
}

#[test]
fn a_written_game_comes_back_and_plays_on() {
    let mut game = Game::new(id(1));
    game.join(id(2));
    game.start(T0);
    game.draw(&id(1), b"sigA", true, T0 + 3).unwrap();
    let mut back = Game::restore(&game.record()).unwrap();
    assert_eq!(back.turn(), 1);
    assert_eq!(back.next_round(), 12);
    assert_eq!(*back.common_heap(), *game.common_heap());
    assert_eq!(back.draw(&id(1), b"sigB", true, T0 + 6), Err(GameError::OutOfTurn));
    assert_eq!(back.draw(&id(2), b"sigB", true, T0 + 6), Ok(20));
    assert_eq!(game.draw(&id(2), b"sigB", true, T0 + 6), Ok(20));
    assert_eq!(*back.player(1).unwrap().heap(), vec![14, 20]);
    assert_eq!(*back.player(1).unwrap().heap(), *game.player(1).unwrap().heap());
}

#[test]
fn a_sound_record_passes() {
    assert!(mid_round().well_formed());
    let game = Game::restore(&mid_round()).unwrap();
    assert_eq!(game.current_player(), 1);
    assert_eq!(*game.player(0).unwrap().revealed(), vec![1]);
    assert_eq!(*game.player(1).unwrap().heap(), vec![2]);
    assert_eq!(game.next_round(), 11);
}

#[test]
fn a_new_game_passes() {
    assert!(Game::new(id(1)).record().well_formed());
}

#[test]
fn a_card_twice_fails() {
    let mut record = mid_round();
    record.players[1].heap = vec![2, 2];
    assert!(!record.well_formed());
    let mut record = mid_round();
    record.common_heap[0] = 1;
    assert!(!record.well_formed());
    assert!(Game::restore(&record).is_none());
}

#[test]
fn a_card_missing_fails() {
    let mut record = mid_round();
    record.common_heap.pop();
    assert!(!record.well_formed());
    let mut record = mid_round();
    record.players[0].revealed = vec![];
    record.current_player_index = 0;
    assert!(!record.well_formed());
}

#[test]
fn a_card_that_is_none_fails() {
    let mut record = mid_round();
    record.common_heap.push(52);
    assert!(!record.well_formed());
    let mut record = mid_round();
    record.players[1].heap = vec![200];
    assert!(!record.well_formed());
    let mut record = mid_round();
    record.players[0].revealed = vec![255];
    assert!(!record.well_formed());
}

#[test]
fn a_roster_entry_without_a_seat_fails() {
    let mut record = mid_round();
    record.active_players = vec![0, 2];
    assert!(!record.well_formed());
    let mut record = mid_round();
    record.active_players = vec![];
    assert!(!record.well_formed());
}

#[test]
fn a_game_without_players_fails() {
    let record = GameRecord {
        common_heap: (0..52).collect(),
        players: vec![],
        active_players: vec![],
        current_player_index: 0,
        started: false,
        finished: false,
        bataille: false,
        next_round: 0,
        players_bataille: vec![],
    };
    assert!(!record.well_formed());
}

#[test]
fn a_turn_pointer_outside_the_roster_fails() {
    let mut record = mid_round();
    record.current_player_index = 2;
    assert!(!record.well_formed());
}

#[test]
fn a_turn_passed_without_a_card_fails() {
    let mut record = mid_round();
    record.players[0].heap = vec![0, 1];
    record.players[0].revealed = vec![];
    assert!(!record.well_formed());
    record.current_player_index = 0;
    assert!(record.well_formed());
}

#[test]
fn the_tie_list_goes_with_the_bataille_flag() {
    let mut record = mid_round();
    record.players_bataille = vec![0, 1];
    assert!(!record.well_formed());
    record.bataille = true;
    assert!(record.well_formed());
    record.players_bataille = vec![0];
    record.current_player_index = 0;
    assert!(!record.well_formed());
    record.players_bataille = vec![0, 1, 1];
    assert!(!record.well_formed());
    record.players_bataille = vec![0, 5];
    assert!(!record.well_formed());
    record.players_bataille = vec![];
    assert!(!record.well_formed());
}

#[test]
fn the_tied_are_on_the_roster() {
    let mut record = mid_round();
    record.players.push(seat(3, vec![], vec![]));
    record.bataille = true;
    record.players_bataille = vec![0, 2];
    record.current_player_index = 1;
    assert!(!record.well_formed());
    record.active_players = vec![0, 1, 2];
    assert!(record.well_formed());
}

#[test]
fn the_flags_agree() {
    let mut record = mid_round();
    record.finished = true;
    assert!(!record.well_formed());
    record.active_players = vec![0];
    record.current_player_index = 0;
    assert!(record.well_formed());
    record.started = false;
    assert!(!record.well_formed());
    let mut record = mid_round();
    record.started = false;
    assert!(record.well_formed());
    record.bataille = true;
    record.players_bataille = vec![0, 1];
    assert!(!record.well_formed());
}

#[test]
fn a_registry_is_written_out_and_comes_back() {
    let mut registry = Bataille::new();
    registry.createGame(id(1));
    registry.createGame(id(2));
    registry.joinGame(1, id(3)).unwrap();
    registry.startGame(1, T0).unwrap();
    registry.draw(1, &id(2), b"sigA", true, T0 + 3).unwrap();
    let records = registry.records();
    assert_eq!(records.len(), 2);
    assert!(!records[0].started);
    assert_eq!(records[1].players[0].revealed, vec![14]);
    let mut back = Bataille::restore(&records).unwrap();
    assert_eq!(back.nextDrandRound(1), 12);
    assert_eq!(back.turn(1), 1);
    assert_eq!(back.createGame(id(9)), 2);
    assert_eq!(back.draw(1, &id(3), b"sigB", true, T0 + 6), Ok(20));
    assert_eq!(back.get(0).unwrap().player(0).unwrap().owner(), id(1));
}

#[test]
fn one_bad_game_spoils_the_registry() {
    let mut records = vec![mid_round(), mid_round()];
    assert!(Bataille::restore(&records).is_some());
    records[1].common_heap.pop();
    assert!(Bataille::restore(&records).is_none());
    assert!(Bataille::restore(&Vec::new()).is_some());
}
