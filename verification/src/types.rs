//! Geometry and entity primitives: points, directions, colours, and the
//! server configuration.

use vstd::prelude::*;

verus! {

/// A player's score, counted in food items eaten (starting at 1).
pub type Score = usize;

/// A player's display name.
pub type Name = String;

/// Width coordinate type of the playing field.
pub type FieldWidthT = isize;

/// Height coordinate type of the playing field.
pub type FieldHeightT = isize;

/// Opaque unique identity of a player, allocated at registration.
pub type PlayerId = u128;

/// One of the four movement directions; adding a direction to a point
/// moves the point by one cell.
#[derive(Clone, Copy, Debug, PartialEq, Eq, Structural)]
pub enum Direction {
    Up,
    Right,
    Down,
    Left,
}

/// An integer cell coordinate on the playing field.
#[derive(Clone, Copy, Debug, Hash, PartialEq, Eq, Structural)]
pub struct Point {
    pub x: FieldWidthT,
    pub y: FieldHeightT,
}

/// An RGB colour assigned to a snake at registration.
#[derive(Clone, Copy, Debug, PartialEq, Eq, Structural)]
pub struct Colour {
    pub r: u8,
    pub g: u8,
    pub b: u8,
}

impl Point {
    /// The cell one step away from `self` in direction `d`.
    pub open spec fn spec_step(self, d: Direction) -> Point {
        match d {
            Direction::Up => Point { x: self.x, y: (self.y - 1) as isize },
            Direction::Right => Point { x: (self.x + 1) as isize, y: self.y },
            Direction::Down => Point { x: self.x, y: (self.y + 1) as isize },
            Direction::Left => Point { x: (self.x - 1) as isize, y: self.y },
        }
    }

    /// Moves the point one cell in direction `d`.  Only the coordinate
    /// that moves must have room in its machine type.
    pub fn step(self, d: Direction) -> (r: Point)
        requires
            d == Direction::Right ==> self.x < isize::MAX,
            d == Direction::Left ==> self.x > isize::MIN,
            d == Direction::Down ==> self.y < isize::MAX,
            d == Direction::Up ==> self.y > isize::MIN,
        ensures
            r == self.spec_step(d),
    {
        let mut x = self.x;
        let mut y = self.y;
        match d {
            Direction::Up => y = y - 1,
            Direction::Right => x = x + 1,
            Direction::Down => y = y + 1,
            Direction::Left => x = x - 1,
        }
        Point { x, y }
    }
}

/// Server configuration: field dimensions, capacity, tick period and the
/// food replenishment target.
#[derive(Clone, Copy, Debug)]
pub struct Config {
    pub port: u16,
    pub max_players_count: usize,
    pub field_width: FieldWidthT,
    pub field_height: FieldHeightT,
    pub game_tick: u64,
    pub food_count: usize,
}

impl Config {
    /// A configuration makes sense when the field has at least one cell.
    pub open spec fn valid(self) -> bool {
        0 < self.field_width && 0 < self.field_height
    }

    /// Number of cells on the field.
    pub open spec fn area(self) -> int {
        self.field_width * self.field_height
    }

    /// Whether `p` lies within `[0, field_width) x [0, field_height)`.
    pub open spec fn in_bounds(self, p: Point) -> bool {
        0 <= p.x < self.field_width && 0 <= p.y < self.field_height
    }

    /// Whether `point` lies on the playing field.
    pub fn is_in_map(&self, point: &Point) -> (r: bool)
        ensures
            r == self.in_bounds(*point),
    {
        let field_width = self.field_width;
        let field_height = self.field_height;
        if point.x < 0 || point.y < 0 {
            false
        } else if point.x >= field_width {
            false
        } else if point.y >= field_height {
            false
        } else {
            true
        }
    }
}

impl Default for Config {
    /// The documented defaults: port 43210, 25 players, a 15 x 10 field,
    /// a 500 ms tick and 5 food items.
    fn default() -> (c: Config)
        ensures
            c.port == 43210,
            c.max_players_count == 25,
            c.field_width == 15,
            c.field_height == 10,
            c.game_tick == 500,
            c.food_count == 5,
            c.valid(),
    {
        Config {
            port: 43210,
            max_players_count: 25,
            field_width: 15,
            field_height: 10,
            game_tick: 500,
            food_count: 5,
        }
    }
}

} // verus!
