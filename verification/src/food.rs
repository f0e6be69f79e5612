//! A morsel of food: a position on the arena.
//!
//! Food is never destroyed. When an agent touches it, it is teleported to
//! a fresh random position, so the food count of a world is constant.

use vstd::prelude::*;
use crate::random::random_coord;
use crate::units::{MAX_COORD, SCALE};

verus! {

#[derive(Clone, Copy, Debug, PartialEq, Eq, Structural)]
pub struct Food {
    pub x: u64,
    pub y: u64,
}

impl Food {
    /// The position lies inside the arena.
    pub open spec fn in_arena(self) -> bool {
        self.x < SCALE && self.y < SCALE
    }

    /// A food at a chosen position; the sensor accepts positions somewhat
    /// past the arena, so tests and hosts may place food on its very edge.
    pub fn new(x: u64, y: u64) -> (f: Food)
        requires
            x <= MAX_COORD,
            y <= MAX_COORD,
        ensures
            f.x == x,
            f.y == y,
    {
        Food { x, y }
    }

    /// A food at a uniformly random position of the arena.
    pub fn random(rng: &mut rand::rngs::StdRng) -> (f: Food)
        ensures
            f.in_arena(),
    {
        Food { x: random_coord(rng), y: random_coord(rng) }
    }

    pub fn position(&self) -> (p: (u64, u64))
        ensures
            p.0 == self.x,
            p.1 == self.y,
    {
        (self.x, self.y)
    }
}

} // verus!
