//! The snake entity: an ordered body of cells, head first, with a colour
//! and a facing direction.

use vstd::prelude::*;
use std::collections::VecDeque;
use crate::types::{Colour, Direction, Point};

verus! {

/// A snake: body segments head-first (index 0 is the head), a colour, and
/// the current facing direction.  A snake always has at least one segment.
#[derive(Debug)]
pub struct Snake {
    pub parts: VecDeque<Point>,
    pub colour: Colour,
    pub direction: Direction,
}

impl Snake {
    /// Structural invariant: the body is never empty.
    pub open spec fn wf(self) -> bool {
        self.parts@.len() >= 1
    }

    /// The head cell (front of the body).
    pub open spec fn head(self) -> Point {
        self.parts@[0]
    }

    /// The tail cell (back of the body).
    pub open spec fn tail(self) -> Point {
        self.parts@.last()
    }

    /// A snake from its body segments (head first), colour and facing
    /// direction.
    pub fn new(parts: VecDeque<Point>, colour: Colour, direction: Direction) -> (s: Snake)
        ensures
            s.parts@ == parts@,
            s.colour == colour,
            s.direction == direction,
    {
        Snake { parts, colour, direction }
    }

    /// Advances the snake one cell without growing: the new head is one
    /// step from the old head in the facing direction and the tail segment
    /// is dropped.  Returns the new head and the dropped tail.
    pub fn do_move(&mut self) -> (r: (Point, Point))
        requires
            old(self).wf(),
            old(self).direction == Direction::Right ==> old(self).head().x < isize::MAX,
            old(self).direction == Direction::Left ==> old(self).head().x > isize::MIN,
            old(self).direction == Direction::Down ==> old(self).head().y < isize::MAX,
            old(self).direction == Direction::Up ==> old(self).head().y > isize::MIN,
        ensures
            r.0 == old(self).head().spec_step(old(self).direction),
            r.1 == old(self).tail(),
            final(self).parts@ == seq![r.0] + old(self).parts@.drop_last(),
            final(self).wf(),
            final(self).colour == old(self).colour,
            final(self).direction == old(self).direction,
    {
        let head: Point = *(&self.parts[0]);
        let new_head = head.step(self.direction);
        let last = self.parts.pop_back().unwrap();
        self.parts.push_front(new_head);
        (new_head, last)
    }

    /// Grows the snake by one cell: pushes `new_head` as the new front
    /// without dropping the tail.
    pub fn grow(&mut self, new_head: Point)
        ensures
            final(self).parts@ == seq![new_head] + old(self).parts@,
            final(self).colour == old(self).colour,
            final(self).direction == old(self).direction,
    {
        self.parts.push_front(new_head);
    }

    /// Resets the snake after death: a single segment at `point`, facing
    /// `direction`; the colour is kept.
    pub fn killed_restart(&mut self, point: Point, direction: Direction)
        ensures
            final(self).parts@ == seq![point],
            final(self).direction == direction,
            final(self).colour == old(self).colour,
    {
        self.parts.clear();
        self.parts.push_front(point);
        self.direction = direction;
    }

    /// Replaces the facing direction; the body is untouched.
    pub fn set_direction(&mut self, direction: Direction)
        ensures
            final(self).direction == direction,
            final(self).parts@ == old(self).parts@,
            final(self).colour == old(self).colour,
    {
        self.direction = direction;
    }

    /// A copy of this snake, equal in body, colour and direction.
    pub fn duplicate(&self) -> (s: Snake)
        ensures
            s.parts@ == self.parts@,
            s.colour == self.colour,
            s.direction == self.direction,
    {
        let mut parts: VecDeque<Point> = VecDeque::new();
        let n = self.parts.len();
        let mut i: usize = 0;
        while i < n
            invariant
                i <= n,
                n == self.parts@.len(),
                parts@ == self.parts@.take(i as int),
            decreases n - i,
        {
            let p: Point = *(&self.parts[i]);
            parts.push_back(p);
            proof {
                assert(parts@ =~= self.parts@.take(i + 1 as int));
            }
            i = i + 1;
        }
        proof {
            assert(parts@ =~= self.parts@);
        }
        Snake { parts, colour: self.colour, direction: self.direction }
    }
}

} // verus!
