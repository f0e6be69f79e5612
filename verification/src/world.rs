//! The world: the full collection of agents and the full collection of
//! food. A pure state container; every rule that changes it lives in the
//! tick.

use vstd::prelude::*;
use crate::animal::Animal;
use crate::food::Food;

verus! {

/// How many agents a random world holds.
pub const ANIMAL_COUNT: usize = 40;

/// How many foods a random world holds.
pub const FOOD_COUNT: usize = 60;

pub struct World {
    pub animals: Vec<Animal>,
    pub foods: Vec<Food>,
}

impl World {
    /// The world invariant: every agent and every food well formed.
    pub open spec fn wf(self) -> bool {
        &&& forall|k: int| 0 <= k < self.animals@.len() ==> (#[trigger] self.animals@[k]).wf()
        &&& forall|k: int| 0 <= k < self.foods@.len() ==> (#[trigger] self.foods@[k]).in_arena()
    }

    /// A world from chosen parts, for hosts and tests that need a
    /// reproducible population.
    pub fn new(animals: Vec<Animal>, foods: Vec<Food>) -> (w: World)
        requires
            forall|k: int| 0 <= k < animals@.len() ==> (#[trigger] animals@[k]).wf(),
            forall|k: int| 0 <= k < foods@.len() ==> (#[trigger] foods@[k]).in_arena(),
        ensures
            w.animals@ == animals@,
            w.foods@ == foods@,
            w.wf(),
    {
        World { animals, foods }
    }

    /// A world of random agents and random food: every agent hungry, at
    /// the default speed and with the default eye, placed at random.
    pub fn random(rng: &mut rand::rngs::StdRng) -> (w: World)
        ensures
            w.wf(),
            w.animals@.len() == ANIMAL_COUNT,
            w.foods@.len() == FOOD_COUNT,
            forall|k: int| 0 <= k < w.animals@.len() ==> (#[trigger] w.animals@[k]).satiation == 0,
            forall|k: int|
                0 <= k < w.animals@.len() ==> (#[trigger] w.animals@[k]).speed
                    == crate::animal::SPEED,
            forall|k: int|
                0 <= k < w.animals@.len() ==> (#[trigger] w.animals@[k]).eye
                    == crate::animal::eye::default_eye(),
    {
        let mut animals: Vec<Animal> = Vec::new();
        let mut foods: Vec<Food> = Vec::new();
        let mut i: usize = 0;
        while i < ANIMAL_COUNT
            invariant
                i <= ANIMAL_COUNT,
                animals@.len() == i,
                forall|k: int| 0 <= k < animals@.len() ==> (#[trigger] animals@[k]).wf(),
                forall|k: int| 0 <= k < animals@.len() ==> (#[trigger] animals@[k]).satiation == 0,
                forall|k: int|
                    0 <= k < animals@.len() ==> (#[trigger] animals@[k]).speed
                        == crate::animal::SPEED,
                forall|k: int|
                    0 <= k < animals@.len() ==> (#[trigger] animals@[k]).eye
                        == crate::animal::eye::default_eye(),
            decreases ANIMAL_COUNT - i,
        {
            animals.push(Animal::random(rng));
            i = i + 1;
        }
        let mut j: usize = 0;
        while j < FOOD_COUNT
            invariant
                j <= FOOD_COUNT,
                foods@.len() == j,
                forall|k: int| 0 <= k < foods@.len() ==> (#[trigger] foods@[k]).in_arena(),
            decreases FOOD_COUNT - j,
        {
            foods.push(Food::random(rng));
            j = j + 1;
        }
        World { animals, foods }
    }

    pub fn animals(&self) -> (r: &Vec<Animal>)
        ensures
            r@ == self.animals@,
    {
        &self.animals
    }

    pub fn foods(&self) -> (r: &Vec<Food>)
        ensures
            r@ == self.foods@,
    {
        &self.foods
    }
}

} // verus!
