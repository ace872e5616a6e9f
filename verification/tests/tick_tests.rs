use snake_server::state::State;
use snake_server::types::{Colour, Config, Direction, Point};

fn p(x: isize, y: isize) -> Point {
    Point { x, y }
}

fn cfg(w: isize, h: isize, food: usize) -> Config {
    Config {
        port: 0,
        max_players_count: 25,
        field_width: w,
        field_height: h,
        game_tick: 1,
        food_count: food,
    }
}

fn colour() -> Colour {
    Colour { r: 1, g: 2, b: 3 }
}

fn tx() -> tokio::sync::mpsc::Sender<()> {
    tokio::sync::mpsc::channel::<()>(1).0
}

fn add(state: &mut State, id: u128, at: Point, dir: Direction) {
    state.add_player(id, format!("player-{}", id), at, colour(), dir, tx());
}

fn body(state: &State, id: u128) -> Vec<Point> {
    let player = state.players.iter().find(|q| q.id == id).expect("player present");
    player.snake.parts.iter().copied().collect()
}

fn occupied_by(state: &State, id: u128) -> Vec<Point> {
    state.map_state.iter().filter(|e| e.1 == id).map(|e| e.0).collect()
}

#[test]
fn simple_move_advances_one_cell() {
    let mut s = State::new(cfg(10, 10, 0));
    add(&mut s, 7, p(2, 2), Direction::Right);
    s.tick();
    assert_eq!(body(&s, 7), vec![p(3, 2)]);
    assert_eq!(s.players[0].score, 1);
    assert_eq!(s.map_state, vec![(p(3, 2), 7u128)]);
    assert_eq!(s.food.len(), 0);
}

#[test]
fn eating_grows_and_scores() {
    let mut s = State::new(cfg(10, 10, 1));
    add(&mut s, 7, p(2, 2), Direction::Right);
    s.food.push(p(3, 2));
    s.tick();
    assert_eq!(body(&s, 7), vec![p(3, 2), p(2, 2)]);
    assert_eq!(s.players[0].score, 2);
    assert_eq!(s.food.len(), 1);
    assert_ne!(s.food[0], p(3, 2));
    assert_ne!(s.food[0], p(2, 2));
}

#[test]
fn pending_intent_is_applied_and_cleared() {
    let mut s = State::new(cfg(10, 10, 0));
    add(&mut s, 7, p(2, 2), Direction::Right);
    s.set_intent(7, Direction::Down).unwrap();
    s.tick();
    assert_eq!(body(&s, 7), vec![p(2, 3)]);
    assert_eq!(s.players[0].last_move, None);
    assert_eq!(s.players[0].snake.direction, Direction::Down);
}

#[test]
fn head_on_collision_kills_and_respawns_both() {
    let mut s = State::new(cfg(10, 10, 0));
    add(&mut s, 1, p(4, 5), Direction::Right);
    add(&mut s, 2, p(6, 5), Direction::Left);
    s.tick();
    assert_eq!(s.players.len(), 2);
    let a = body(&s, 1);
    let b = body(&s, 2);
    assert_eq!(a.len(), 1);
    assert_eq!(b.len(), 1);
    assert_ne!(a[0], b[0]);
    assert!(s.config.is_in_map(&a[0]));
    assert!(s.config.is_in_map(&b[0]));
    assert_eq!(occupied_by(&s, 1), a);
    assert_eq!(occupied_by(&s, 2), b);
}

#[test]
fn leaving_the_field_kills_and_respawns() {
    let mut s = State::new(cfg(10, 10, 0));
    add(&mut s, 7, p(0, 0), Direction::Left);
    s.tick();
    assert_eq!(s.players.len(), 1);
    let a = body(&s, 7);
    assert_eq!(a.len(), 1);
    assert!(s.config.is_in_map(&a[0]));
    assert_eq!(occupied_by(&s, 7), a);
}

#[test]
fn moving_into_a_vacated_tail_survives() {
    let mut s = State::new(cfg(10, 10, 0));
    add(&mut s, 1, p(4, 5), Direction::Right);
    add(&mut s, 2, p(5, 5), Direction::Right);
    s.tick();
    assert_eq!(body(&s, 1), vec![p(5, 5)]);
    assert_eq!(body(&s, 2), vec![p(6, 5)]);
}

#[test]
fn moving_into_an_eating_snake_kills() {
    let mut s = State::new(cfg(10, 10, 1));
    add(&mut s, 1, p(4, 5), Direction::Right);
    add(&mut s, 2, p(5, 5), Direction::Right);
    s.food.push(p(6, 5));
    s.tick();
    // Player 2 ate, so its tail at (5,5) was never vacated and player 1
    // died proposing that cell.
    assert_eq!(body(&s, 2), vec![p(6, 5), p(5, 5)]);
    let a = body(&s, 1);
    assert_eq!(a.len(), 1);
    assert!(s.config.is_in_map(&a[0]));
    assert_ne!(a[0], p(6, 5));
    assert_ne!(a[0], p(5, 5));
}

#[test]
fn tick_wakes_registered_players() {
    let mut s = State::new(cfg(10, 10, 0));
    let (_id, mut rx) = s.spawn_player("ada".to_string()).expect("room on the field");
    assert!(rx.try_recv().is_err());
    s.tick();
    assert!(rx.try_recv().is_ok());
}

#[test]
fn spawned_players_never_overlap() {
    let mut s = State::new(cfg(3, 3, 0));
    for _ in 0..5 {
        s.spawn_player("p".to_string()).expect("room on the field");
    }
    assert_eq!(s.players.len(), 5);
    assert_eq!(s.map_state.len(), 5);
    for i in 0..s.map_state.len() {
        assert!(s.config.is_in_map(&s.map_state[i].0));
        for j in 0..s.map_state.len() {
            if i != j {
                assert_ne!(s.map_state[i].0, s.map_state[j].0);
                assert_ne!(s.map_state[i].1, s.map_state[j].1);
            }
        }
    }
}

#[test]
fn tick_on_empty_world_only_replenishes_food() {
    let mut s = State::new(cfg(6, 6, 2));
    s.tick();
    assert_eq!(s.players.len(), 0);
    assert_eq!(s.food.len(), 2);
    assert_ne!(s.food[0], s.food[1]);
}

#[test]
fn food_count_matches_free_cells_after_tick() {
    let mut s = State::new(cfg(1, 2, 5));
    add(&mut s, 7, p(0, 0), Direction::Down);
    s.tick();
    // The snake moved to (0,1); one cell is left and food fills it.
    assert_eq!(body(&s, 7), vec![p(0, 1)]);
    assert_eq!(s.food.len(), 1);
    assert_eq!(s.food[0], p(0, 0));
}
