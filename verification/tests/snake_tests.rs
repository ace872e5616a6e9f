use std::collections::VecDeque;

use snake_server::snake::Snake;
use snake_server::types::{Colour, Config, Direction, Point};

fn colour() -> Colour {
    Colour { r: 10, g: 20, b: 30 }
}

fn p(x: isize, y: isize) -> Point {
    Point { x, y }
}

#[test]
fn point_step_all_directions() {
    let c = p(4, 7);
    assert_eq!(c.step(Direction::Up), p(4, 6));
    assert_eq!(c.step(Direction::Right), p(5, 7));
    assert_eq!(c.step(Direction::Down), p(4, 8));
    assert_eq!(c.step(Direction::Left), p(3, 7));
}

#[test]
fn config_defaults() {
    let cfg = Config::default();
    assert_eq!(cfg.port, 43210);
    assert_eq!(cfg.max_players_count, 25);
    assert_eq!(cfg.field_width, 15);
    assert_eq!(cfg.field_height, 10);
    assert_eq!(cfg.game_tick, 500);
    assert_eq!(cfg.food_count, 5);
}

#[test]
fn config_bounds_check() {
    let cfg = Config {
        field_width: 3,
        field_height: 2,
        ..Config::default()
    };
    assert!(cfg.is_in_map(&p(0, 0)));
    assert!(cfg.is_in_map(&p(2, 1)));
    assert!(!cfg.is_in_map(&p(3, 0)));
    assert!(!cfg.is_in_map(&p(0, 2)));
    assert!(!cfg.is_in_map(&p(-1, 0)));
    assert!(!cfg.is_in_map(&p(0, -1)));
}

#[test]
fn snake_do_move_advances_and_drops_tail() {
    let mut s = Snake::new(
        VecDeque::from(vec![p(2, 2), p(1, 2)]),
        colour(),
        Direction::Right,
    );
    let (new_head, last) = s.do_move();
    assert_eq!(new_head, p(3, 2));
    assert_eq!(last, p(1, 2));
    assert_eq!(s.parts, VecDeque::from(vec![p(3, 2), p(2, 2)]));
    assert_eq!(s.direction, Direction::Right);
}

#[test]
fn snake_single_segment_move() {
    let mut s = Snake::new(VecDeque::from(vec![p(2, 2)]), colour(), Direction::Right);
    let (new_head, last) = s.do_move();
    assert_eq!(new_head, p(3, 2));
    assert_eq!(last, p(2, 2));
    assert_eq!(s.parts, VecDeque::from(vec![p(3, 2)]));
}

#[test]
fn snake_grow_keeps_tail() {
    let mut s = Snake::new(VecDeque::from(vec![p(2, 2), p(1, 2)]), colour(), Direction::Right);
    s.grow(p(3, 2));
    assert_eq!(s.parts, VecDeque::from(vec![p(3, 2), p(2, 2), p(1, 2)]));
}

#[test]
fn snake_killed_restart_resets_body() {
    let mut s = Snake::new(
        VecDeque::from(vec![p(2, 2), p(1, 2), p(0, 2)]),
        colour(),
        Direction::Right,
    );
    s.killed_restart(p(7, 7), Direction::Up);
    assert_eq!(s.parts, VecDeque::from(vec![p(7, 7)]));
    assert_eq!(s.direction, Direction::Up);
    assert_eq!(s.colour, colour());
}

#[test]
fn snake_set_direction_only_turns() {
    let mut s = Snake::new(VecDeque::from(vec![p(2, 2)]), colour(), Direction::Right);
    s.set_direction(Direction::Down);
    assert_eq!(s.direction, Direction::Down);
    assert_eq!(s.parts, VecDeque::from(vec![p(2, 2)]));
}

#[test]
fn snake_duplicate_is_equal() {
    let s = Snake::new(
        VecDeque::from(vec![p(2, 2), p(1, 2)]),
        colour(),
        Direction::Left,
    );
    let d = s.duplicate();
    assert_eq!(d.parts, s.parts);
    assert_eq!(d.colour, s.colour);
    assert_eq!(d.direction, s.direction);
}
