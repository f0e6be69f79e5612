//! An agent ("bird"): a position, a direction of travel, a forward speed,
//! an eye, and a count of foods eaten.
//!
//! The direction is carried as a fixed-point vector of roughly unit
//! length, the exact state the movement phase consumes; the matching
//! heading angle, where one is needed for vision, is the host's to
//! compute, since an arc tangent lies outside the fixed-point model.

use vstd::prelude::*;
use crate::animal::eye::Eye;
use crate::random::{random_coord, random_direction};
use crate::units::SCALE;

pub mod eye;

verus! {

/// The forward speed of every fresh agent, in coordinate units per tick:
/// 0.002 arena sides.
pub const SPEED: u64 = 2_000;

#[derive(Clone, Copy, Debug, PartialEq, Eq, Structural)]
pub struct Animal {
    pub x: u64,
    pub y: u64,
    pub dir_x: i64,
    pub dir_y: i64,
    pub speed: u64,
    pub eye: Eye,
    pub satiation: u64,
}

impl Animal {
    /// The agent invariant: position inside the arena, direction and
    /// speed bounded so one tick's displacement stays within one arena
    /// side, and a well-formed eye.
    pub open spec fn wf(self) -> bool {
        &&& self.x < SCALE
        &&& self.y < SCALE
        &&& -(SCALE as int) <= self.dir_x <= SCALE as int
        &&& -(SCALE as int) <= self.dir_y <= SCALE as int
        &&& self.speed <= SCALE
        &&& self.eye.wf()
    }

    /// An agent with the given eye at a random position, facing a random
    /// direction, hungry and at the default speed.
    fn new(eye: Eye, rng: &mut rand::rngs::StdRng) -> (a: Animal)
        requires
            eye.wf(),
        ensures
            a.wf(),
            a.eye == eye,
            a.speed == SPEED,
            a.satiation == 0,
    {
        let (dir_x, dir_y) = random_direction(rng);
        Animal {
            x: random_coord(rng),
            y: random_coord(rng),
            dir_x,
            dir_y,
            speed: SPEED,
            eye,
            satiation: 0,
        }
    }

    /// A random agent with the default eye.
    pub fn random(rng: &mut rand::rngs::StdRng) -> (a: Animal)
        ensures
            a.wf(),
            a.eye == crate::animal::eye::default_eye(),
            a.speed == SPEED,
            a.satiation == 0,
    {
        let eye = Eye::default();
        Animal::new(eye, rng)
    }

    /// An agent in a chosen state, for hosts and tests that need a
    /// reproducible world.
    pub fn create(x: u64, y: u64, dir_x: i64, dir_y: i64, speed: u64, eye: Eye) -> (a: Animal)
        requires
            x < SCALE,
            y < SCALE,
            -(SCALE as int) <= dir_x <= SCALE as int,
            -(SCALE as int) <= dir_y <= SCALE as int,
            speed <= SCALE,
            eye.wf(),
        ensures
            a == (Animal { x, y, dir_x, dir_y, speed, eye, satiation: 0 }),
            a.wf(),
    {
        Animal { x, y, dir_x, dir_y, speed, eye, satiation: 0 }
    }

    pub fn position(&self) -> (p: (u64, u64))
        ensures
            p.0 == self.x,
            p.1 == self.y,
    {
        (self.x, self.y)
    }

    /// The direction of travel, a fixed-point vector in place of a
    /// rotation.
    pub fn rotation(&self) -> (d: (i64, i64))
        ensures
            d.0 == self.dir_x,
            d.1 == self.dir_y,
    {
        (self.dir_x, self.dir_y)
    }

    pub fn satiation(&self) -> (n: u64)
        ensures
            n == self.satiation,
    {
        self.satiation
    }

    /// Applies a controller's command: a new direction and speed, to take
    /// effect in the next movement phase.
    pub fn steer(&mut self, dir_x: i64, dir_y: i64, speed: u64)
        requires
            -(SCALE as int) <= dir_x <= SCALE as int,
            -(SCALE as int) <= dir_y <= SCALE as int,
            speed <= SCALE,
        ensures
            *final(self) == (Animal { dir_x, dir_y, speed, ..*old(self) }),
    {
        self.dir_x = dir_x;
        self.dir_y = dir_y;
        self.speed = speed;
    }
}

} // verus!
