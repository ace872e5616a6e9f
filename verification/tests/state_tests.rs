use snake_server::errors::GameError;
use snake_server::messages::ServerMessage;
use snake_server::state::State;
use snake_server::types::{Colour, Config, Direction, Point};

fn p(x: isize, y: isize) -> Point {
    Point { x, y }
}

fn cfg(w: isize, h: isize, food: usize, max_players: usize) -> Config {
    Config {
        port: 0,
        max_players_count: max_players,
        field_width: w,
        field_height: h,
        game_tick: 1,
        food_count: food,
    }
}

fn colour() -> Colour {
    Colour { r: 1, g: 2, b: 3 }
}

fn tx() -> tokio::sync::mpsc::Sender<()> {
    tokio::sync::mpsc::channel::<()>(1).0
}

fn add(state: &mut State, id: u128, at: Point, dir: Direction) {
    state.add_player(id, format!("player-{}", id), at, colour(), dir, tx());
}

#[test]
fn new_state_is_idle_and_empty() {
    let s = State::new(cfg(10, 10, 5, 25));
    assert_eq!(s.players.len(), 0);
    assert_eq!(s.map_state.len(), 0);
    assert_eq!(s.food.len(), 0);
    assert!(!s.is_running);
}

#[test]
fn add_player_claims_cell() {
    let mut s = State::new(cfg(10, 10, 0, 25));
    add(&mut s, 7, p(2, 2), Direction::Right);
    assert_eq!(s.players.len(), 1);
    assert_eq!(s.players[0].id, 7);
    assert_eq!(s.players[0].score, 1);
    assert_eq!(s.players[0].last_move, None);
    assert_eq!(s.map_state, vec![(p(2, 2), 7u128)]);
}

#[test]
fn set_intent_records_pending_direction() {
    let mut s = State::new(cfg(10, 10, 0, 25));
    add(&mut s, 7, p(2, 2), Direction::Right);
    assert_eq!(s.set_intent(7, Direction::Up), Ok(()));
    assert_eq!(s.players[0].last_move, Some(Direction::Up));
}

#[test]
fn set_intent_unknown_player_fails() {
    let mut s = State::new(cfg(10, 10, 0, 25));
    add(&mut s, 7, p(2, 2), Direction::Right);
    assert_eq!(s.set_intent(8, Direction::Up), Err(GameError));
    assert_eq!(s.players[0].last_move, None);
}

#[test]
fn remove_player_vacates_and_is_idempotent() {
    let mut s = State::new(cfg(10, 10, 0, 25));
    add(&mut s, 7, p(2, 2), Direction::Right);
    add(&mut s, 8, p(5, 5), Direction::Left);
    s.remove_player(7);
    assert_eq!(s.players.len(), 1);
    assert_eq!(s.players[0].id, 8);
    assert_eq!(s.map_state, vec![(p(5, 5), 8u128)]);
    s.remove_player(7);
    assert_eq!(s.players.len(), 1);
    assert_eq!(s.map_state, vec![(p(5, 5), 8u128)]);
}

#[test]
fn run_flag_compare_and_set() {
    let mut s = State::new(cfg(10, 10, 0, 25));
    assert!(s.try_start_loop());
    assert!(s.is_running);
    assert!(!s.try_start_loop());
    s.mark_stopped();
    assert!(!s.is_running);
    assert!(s.try_start_loop());
}

#[test]
fn capacity_rejects_extra_registration() {
    let max = 25usize;
    let mut s = State::new(cfg(10, 10, 0, max));
    for i in 0..max {
        let at = p((i % 10) as isize, (i / 10) as isize);
        add(&mut s, i as u128, at, Direction::Right);
        if i + 1 < max {
            assert!(s.can_accept());
        }
    }
    assert_eq!(s.players.len(), max);
    assert!(!s.can_accept());
    assert_eq!(s.players.len(), max);
}

#[test]
fn spawn_player_places_fresh_snake() {
    let mut s = State::new(cfg(10, 10, 0, 25));
    let (id, _rx) = s.spawn_player("ada".to_string()).expect("room on the field");
    assert_eq!(s.players.len(), 1);
    assert_eq!(s.players[0].id, id);
    assert_eq!(s.players[0].name, "ada");
    assert_eq!(s.players[0].score, 1);
    assert_eq!(s.players[0].snake.parts.len(), 1);
    let head = s.players[0].snake.parts[0];
    assert!(s.config.is_in_map(&head));
    assert_eq!(s.map_state, vec![(head, id)]);
}

#[test]
fn spawn_player_fails_only_on_a_full_field() {
    let mut s = State::new(cfg(1, 1, 0, 25));
    let (id, _rx) = s.spawn_player("first".to_string()).expect("empty field has room");
    assert_eq!(s.map_state, vec![(p(0, 0), id)]);
    assert_eq!(s.spawn_player("second".to_string()).err(), Some(GameError));
    assert_eq!(s.players.len(), 1);
}

#[test]
fn refill_food_reaches_target_on_free_cells() {
    let mut s = State::new(cfg(5, 5, 3, 25));
    s.refill_food();
    assert_eq!(s.food.len(), 3);
    for i in 0..s.food.len() {
        let f = s.food[i];
        assert!(s.config.is_in_map(&f));
        for j in 0..s.food.len() {
            if i != j {
                assert_ne!(f, s.food[j]);
            }
        }
        assert!(!s.map_state.iter().any(|e| e.0 == f));
    }
}

#[test]
fn refill_food_stops_at_field_capacity() {
    let mut s = State::new(cfg(1, 2, 5, 25));
    add(&mut s, 7, p(0, 0), Direction::Down);
    s.refill_food();
    assert_eq!(s.food.len(), 1);
    assert_eq!(s.food[0], p(0, 1));
}

#[test]
fn random_free_point_finds_the_last_free_cell() {
    let mut s = State::new(cfg(1, 2, 0, 25));
    add(&mut s, 7, p(0, 0), Direction::Down);
    assert_eq!(s.random_free_point(), Some(p(0, 1)));
}

#[test]
fn random_free_point_none_when_full() {
    let mut s = State::new(cfg(1, 2, 0, 25));
    add(&mut s, 7, p(0, 0), Direction::Down);
    add(&mut s, 8, p(0, 1), Direction::Up);
    assert_eq!(s.random_free_point(), None);
}

#[test]
fn register_message_carries_dimensions() {
    let s = State::new(cfg(15, 10, 5, 25));
    match s.register_message() {
        ServerMessage::Register { field_width, field_height } => {
            assert_eq!(field_width, 15);
            assert_eq!(field_height, 10);
        },
        other => panic!("unexpected message {:?}", other),
    }
}

#[test]
fn snapshot_reports_players_and_food() {
    let mut s = State::new(cfg(10, 10, 0, 25));
    add(&mut s, 7, p(2, 2), Direction::Right);
    s.food.push(p(9, 9));
    match s.snapshot() {
        ServerMessage::Turn { players, food } => {
            assert_eq!(players.len(), 1);
            let (snake, id, name, score) = &players[0];
            assert_eq!(*id, 7);
            assert_eq!(name, "player-7");
            assert_eq!(*score, 1);
            assert_eq!(snake.parts.len(), 1);
            assert_eq!(snake.parts[0], p(2, 2));
            assert_eq!(food, vec![p(9, 9)]);
        },
        other => panic!("unexpected message {:?}", other),
    }
}
