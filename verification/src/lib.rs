//! A 2D simulation of agents ("birds") that move across a toroidal arena,
//! sense nearby food through a bounded field-of-view sensor, and consume
//! food on contact.
//!
//! All geometry is carried in fixed-point integers: lengths in coordinate
//! units (`units::SCALE` per arena side) and angles in angle units
//! (`units::TURN` per full circle), so that every rule of the sensor and of
//! the per-tick update is stated and proved exactly. The one step outside
//! the model is the randomness consumed for placement and respawn: the
//! tick's contract exhibits the drawn positions, and the tick is a pure
//! function of the prior state and that draw stream.

use vstd::prelude::*;

pub mod animal;
pub mod food;
pub mod random;
pub mod units;
pub mod world;

pub use crate::animal::eye::Eye;
pub use crate::animal::Animal;
pub use crate::food::Food;
pub use crate::world::World;

verus! {

use crate::animal::eye::dist_sq;
use crate::units::{wrap_coord, wrap_coord_spec, MAX_COORD, SCALE};

/// How near an agent must be to eat, in coordinate units: 0.01 arena
/// sides.
pub const EAT_RADIUS: u64 = 10_000;

/// Whether the agent stands close enough to the food to eat it: within
/// the eating radius, boundary included, in every direction (the mouth,
/// unlike the eye, is omnidirectional).
pub open spec fn eats(a: Animal, f: Food) -> bool {
    dist_sq(a.x as int, a.y as int, f.x as int, f.y as int) <= (EAT_RADIUS as int) * (
    EAT_RADIUS as int)
}

/// One agent's pass over the first `j` foods, in order: every food it
/// reaches is replaced by the next unused draw; yields the foods and how
/// many draws were used — the count eaten.
pub open spec fn pass_foods(a: Animal, foods: Seq<Food>, draws: Seq<Food>, j: int) -> (Seq<
    Food,
>, int)
    decreases j,
{
    if j <= 0 {
        (foods, 0)
    } else {
        let (fs, used) = pass_foods(a, foods, draws, j - 1);
        if eats(a, fs[j - 1]) {
            (fs.update(j - 1, draws[used]), used + 1)
        } else {
            (fs, used)
        }
    }
}

/// The collision phase over the first `i` agents, in order: each agent
/// passes over every food; the agent is credited one satiation per food
/// eaten, and each eaten food respawns at the next drawn position.
///
/// The order is deliberate and observable, the phase's tie-break: a food
/// an earlier agent ate is tested by later agents of the same tick at
/// its freshly drawn position, never at a frozen snapshot — so when two
/// agents stand within reach of one food, the later is credited only if
/// the draw lands within its reach too, and the food then moves again.
pub open spec fn collide_upto(
    agents: Seq<Animal>,
    foods: Seq<Food>,
    draws: Seq<Food>,
    i: int,
) -> (Seq<Animal>, Seq<Food>, int)
    decreases i,
{
    if i <= 0 {
        (agents, foods, 0)
    } else {
        let (ags, fs, used) = collide_upto(agents, foods, draws, i - 1);
        let a = ags[i - 1];
        let (fs2, ate) = pass_foods(a, fs, draws.skip(used), foods.len() as int);
        (
            ags.update(i - 1, Animal { satiation: (a.satiation + ate) as u64, ..a }),
            fs2,
            used + ate,
        )
    }
}

/// One pass keeps the food count, eats at most one food per food slot,
/// and leaves the foods beyond `j` untouched.
pub proof fn lemma_pass_foods_shape(a: Animal, foods: Seq<Food>, draws: Seq<Food>, j: int)
    requires
        0 <= j <= foods.len(),
    ensures
        pass_foods(a, foods, draws, j).0.len() == foods.len(),
        0 <= pass_foods(a, foods, draws, j).1 <= j,
        forall|k: int|
            j <= k < foods.len() ==> #[trigger] pass_foods(a, foods, draws, j).0[k] == foods[k],
    decreases j,
{
    if j > 0 {
        lemma_pass_foods_shape(a, foods, draws, j - 1);
    }
}

/// A pass reads only the draws it uses: appending draws changes nothing.
pub proof fn lemma_pass_foods_grow(
    a: Animal,
    foods: Seq<Food>,
    draws: Seq<Food>,
    ext: Seq<Food>,
    j: int,
)
    requires
        0 <= j <= foods.len(),
        pass_foods(a, foods, draws, j).1 <= draws.len(),
    ensures
        pass_foods(a, foods, draws + ext, j) == pass_foods(a, foods, draws, j),
    decreases j,
{
    if j > 0 {
        lemma_pass_foods_shape(a, foods, draws, j - 1);
        lemma_pass_foods_grow(a, foods, draws, ext, j - 1);
    }
}

/// The collision phase keeps both counts and touches no agent at or
/// beyond `i`.
pub proof fn lemma_collide_upto_shape(
    agents: Seq<Animal>,
    foods: Seq<Food>,
    draws: Seq<Food>,
    i: int,
)
    requires
        0 <= i <= agents.len(),
    ensures
        collide_upto(agents, foods, draws, i).0.len() == agents.len(),
        collide_upto(agents, foods, draws, i).1.len() == foods.len(),
        0 <= collide_upto(agents, foods, draws, i).2,
        forall|k: int|
            i <= k < agents.len() ==> #[trigger] collide_upto(agents, foods, draws, i).0[k]
                == agents[k],
    decreases i,
{
    if i > 0 {
        lemma_collide_upto_shape(agents, foods, draws, i - 1);
        let (ags, fs, used) = collide_upto(agents, foods, draws, i - 1);
        lemma_pass_foods_shape(ags[i - 1], fs, draws.skip(used), foods.len() as int);
    }
}

/// The collision phase reads only the draws it uses: appending draws
/// changes nothing.
pub proof fn lemma_collide_upto_grow(
    agents: Seq<Animal>,
    foods: Seq<Food>,
    draws: Seq<Food>,
    ext: Seq<Food>,
    i: int,
)
    requires
        0 <= i <= agents.len(),
        collide_upto(agents, foods, draws, i).2 <= draws.len(),
    ensures
        collide_upto(agents, foods, draws + ext, i) == collide_upto(agents, foods, draws, i),
    decreases i,
{
    if i > 0 {
        lemma_collide_upto_shape(agents, foods, draws, i - 1);
        let (ags, fs, used) = collide_upto(agents, foods, draws, i - 1);
        let a = ags[i - 1];
        lemma_pass_foods_shape(a, fs, draws.skip(used), foods.len() as int);
        let ate = pass_foods(a, fs, draws.skip(used), foods.len() as int).1;
        assert(collide_upto(agents, foods, draws, i).2 == used + ate);
        lemma_collide_upto_grow(agents, foods, draws, ext, i - 1);
        assert((draws + ext).skip(used) =~= draws.skip(used) + ext);
        lemma_pass_foods_grow(a, fs, draws.skip(used), ext, foods.len() as int);
    }
}

/// The forward displacement along one axis: the direction component times
/// the speed, in coordinate units.
pub open spec fn displacement(dir: int, speed: int) -> int {
    dir * speed / (SCALE as int)
}

/// One agent after the movement phase: displaced along its direction,
/// both coordinates wrapped independently back into the arena.
pub open spec fn moved(a: Animal) -> Animal {
    Animal {
        x: wrap_coord_spec(a.x + displacement(a.dir_x as int, a.speed as int)) as u64,
        y: wrap_coord_spec(a.y + displacement(a.dir_y as int, a.speed as int)) as u64,
        ..a
    }
}

/// Every drawn position lies in the arena.
pub open spec fn draws_ok(draws: Seq<Food>) -> bool {
    forall|k: int| 0 <= k < draws.len() ==> (#[trigger] draws[k]).in_arena()
}

/// One whole tick as a function of the draw stream: the collision phase
/// over every agent, then the movement phase over every agent.
pub open spec fn step_spec(agents: Seq<Animal>, foods: Seq<Food>, draws: Seq<Food>) -> (Seq<
    Animal,
>, Seq<Food>) {
    let (ags, fs, used) = collide_upto(agents, foods, draws, agents.len() as int);
    (ags.map_values(|a: Animal| moved(a)), fs)
}

/// The tick is deterministic: two equal worlds stepped on equal draw
/// streams end equal. All the tick's non-determinism is the draws, so a
/// seeded random source reproduces a run exactly.
pub proof fn lemma_step_deterministic(
    agents1: Seq<Animal>,
    foods1: Seq<Food>,
    draws1: Seq<Food>,
    agents2: Seq<Animal>,
    foods2: Seq<Food>,
    draws2: Seq<Food>,
)
    requires
        agents1 == agents2,
        foods1 == foods2,
        draws1 == draws2,
    ensures
        step_spec(agents1, foods1, draws1) == step_spec(agents2, foods2, draws2),
{
}

/// Whether two positions lie within the eating radius of one another.
fn close_enough(ax: u64, ay: u64, fx: u64, fy: u64) -> (r: bool)
    requires
        ax <= MAX_COORD,
        ay <= MAX_COORD,
        fx <= MAX_COORD,
        fy <= MAX_COORD,
    ensures
        r == (dist_sq(ax as int, ay as int, fx as int, fy as int) <= (EAT_RADIUS as int) * (
        EAT_RADIUS as int)),
{
    let dxu: u64 = if fx >= ax {
        fx - ax
    } else {
        ax - fx
    };
    let dyu: u64 = if fy >= ay {
        fy - ay
    } else {
        ay - fy
    };
    proof {
        assert(dxu * dxu <= MAX_COORD * MAX_COORD && dyu * dyu <= MAX_COORD * MAX_COORD)
            by (nonlinear_arith)
            requires
                0 <= dxu <= MAX_COORD,
                0 <= dyu <= MAX_COORD,
        ;
        assert(dxu * dxu == (fx - ax) * (fx - ax) && dyu * dyu == (fy - ay) * (fy - ay))
            by (nonlinear_arith)
            requires
                dxu == fx - ax || dxu == ax - fx,
                dyu == fy - ay || dyu == ay - fy,
        ;
    }
    let d2: u64 = dxu * dxu + dyu * dyu;
    d2 <= EAT_RADIUS * EAT_RADIUS
}

/// One agent displaced and wrapped.
fn move_animal(a: Animal) -> (m: Animal)
    requires
        a.wf(),
    ensures
        m == moved(a),
        m.wf(),
{
    proof {
        assert(-(SCALE as int) * (SCALE as int) <= a.dir_x * a.speed <= (SCALE as int) * (
        SCALE as int) && -(SCALE as int) * (SCALE as int) <= a.dir_y * a.speed <= (SCALE as int) * (
        SCALE as int)) by (nonlinear_arith)
            requires
                -(SCALE as int) <= a.dir_x <= SCALE as int,
                -(SCALE as int) <= a.dir_y <= SCALE as int,
                0 <= a.speed <= SCALE,
        ;
    }
    let px: i64 = a.dir_x * (a.speed as i64);
    let py: i64 = a.dir_y * (a.speed as i64);
    proof {
        assert(-(SCALE as int) <= px as int / (SCALE as int) <= SCALE as int
            && -(SCALE as int) <= py as int / (SCALE as int) <= SCALE as int)
            by (nonlinear_arith)
            requires
                -(SCALE as int) * (SCALE as int) <= px <= (SCALE as int) * (SCALE as int),
                -(SCALE as int) * (SCALE as int) <= py <= (SCALE as int) * (SCALE as int),
        ;
    }
    let dx: i64 = match px.checked_div_euclid(SCALE as i64) {
        Some(d) => d,
        None => 0,  // unreachable: the divisor is positive
    };
    let dy: i64 = match py.checked_div_euclid(SCALE as i64) {
        Some(d) => d,
        None => 0,  // unreachable: the divisor is positive
    };
    let nx: u64 = wrap_coord(a.x as i64 + dx);
    let ny: u64 = wrap_coord(a.y as i64 + dy);
    Animal { x: nx, y: ny, ..a }
}

/// The simulation: a world, stepped one tick at a time.
pub struct Simulation {
    pub world: World,
}

impl Simulation {
    /// The simulation invariant: a well-formed world.
    pub open spec fn wf(self) -> bool {
        self.world.wf()
    }

    /// Room left on every satiation counter for one tick's worth of
    /// eating; forced by the counter's fixed width.
    pub open spec fn satiation_headroom(self) -> bool {
        forall|k: int|
            0 <= k < self.world.animals@.len() ==> (#[trigger] self.world.animals@[k]).satiation
                + self.world.foods@.len() <= u64::MAX
    }

    /// A random world of `world::ANIMAL_COUNT` agents and
    /// `world::FOOD_COUNT` foods: every agent hungry, at the default
    /// speed and with the default eye, placed at random.
    pub fn random(rng: &mut rand::rngs::StdRng) -> (sim: Simulation)
        ensures
            sim.wf(),
            sim.satiation_headroom(),
            sim.world.animals@.len() == world::ANIMAL_COUNT,
            sim.world.foods@.len() == world::FOOD_COUNT,
            forall|k: int|
                0 <= k < sim.world.animals@.len() ==> (#[trigger] sim.world.animals@[k]).satiation
                    == 0,
            forall|k: int|
                0 <= k < sim.world.animals@.len() ==> (#[trigger] sim.world.animals@[k]).speed
                    == animal::SPEED,
            forall|k: int|
                0 <= k < sim.world.animals@.len() ==> (#[trigger] sim.world.animals@[k]).eye
                    == animal::eye::default_eye(),
    {
        let w = World::random(rng);
        Simulation { world: w }
    }

    /// A simulation over a chosen world.
    pub fn from_world(w: World) -> (sim: Simulation)
        requires
            w.wf(),
        ensures
            sim.world == w,
            sim.wf(),
    {
        Simulation { world: w }
    }

    pub fn world(&self) -> (w: &World)
        ensures
            w == &self.world,
    {
        &self.world
    }

    /// Applies a controller's command to one agent: the direction and
    /// speed it will move with until steered again.
    pub fn steer(&mut self, index: usize, dir_x: i64, dir_y: i64, speed: u64)
        requires
            index < old(self).world.animals@.len(),
            -(SCALE as int) <= dir_x <= SCALE as int,
            -(SCALE as int) <= dir_y <= SCALE as int,
            speed <= SCALE,
        ensures
            final(self).world.animals@ == old(self).world.animals@.update(
                index as int,
                (Animal { dir_x, dir_y, speed, ..old(self).world.animals@[index as int] }),
            ),
            final(self).world.foods@ == old(self).world.foods@,
            old(self).wf() ==> final(self).wf(),
    {
        let a = self.world.animals[index];
        self.world.animals[index] = Animal { dir_x, dir_y, speed, ..a };
        proof {
            if old(self).wf() {
                assert forall|k: int|
                    0 <= k < self.world.animals@.len() implies (
                #[trigger] self.world.animals@[k]).wf() by {
                    assert(old(self).world.animals@[k].wf());
                }
            }
        }
    }

    /// The collision phase: every agent, in order, passes over every
    /// food; a food within the eating radius is eaten — the agent is
    /// credited one satiation and the food respawns at a fresh random
    /// position.
    ///
    /// Agents are processed strictly in iteration order, and an eaten
    /// food is seen by the later agents of the same pass at its freshly
    /// drawn position: the processing order is the tick's observable
    /// tie-break when several agents stand within reach of one food.
    /// `collide_upto` states exactly that order.
    ///
    /// Public so a host can run a controller between the phases: sense
    /// and steer after this call, then call [`Self::process_movements`];
    /// [`Self::step`] is the two phases back to back.
    pub fn process_collisions(&mut self, rng: &mut rand::rngs::StdRng)
        requires
            old(self).wf(),
            old(self).satiation_headroom(),
        ensures
            final(self).world.animals@.len() == old(self).world.animals@.len(),
            final(self).world.foods@.len() == old(self).world.foods@.len(),
            final(self).wf(),
            forall|k: int|
                0 <= k < old(self).world.animals@.len() ==> (
                #[trigger] final(self).world.animals@[k]).satiation <= old(
                    self,
                ).world.animals@[k].satiation + old(self).world.foods@.len(),
            exists|draws: Seq<Food>|
                draws_ok(draws) && #[trigger] collide_upto(
                    old(self).world.animals@,
                    old(self).world.foods@,
                    draws,
                    old(self).world.animals@.len() as int,
                ) == (final(self).world.animals@, final(self).world.foods@, draws.len() as int),
    {
        let ghost ags0 = self.world.animals@;
        let ghost fds0 = self.world.foods@;
        let ghost mut draws: Seq<Food> = Seq::empty();
        let n_ag = self.world.animals.len();
        let n_fd = self.world.foods.len();
        let mut i: usize = 0;
        while i < n_ag
            invariant
                i <= n_ag,
                n_ag == ags0.len(),
                n_fd == fds0.len(),
                self.world.animals@.len() == n_ag,
                self.world.foods@.len() == n_fd,
                draws_ok(draws),
                collide_upto(ags0, fds0, draws, i as int) == (
                    self.world.animals@,
                    self.world.foods@,
                    draws.len() as int,
                ),
                forall|k: int| 0 <= k < n_ag ==> (#[trigger] self.world.animals@[k]).wf(),
                forall|k: int| 0 <= k < n_fd ==> (#[trigger] self.world.foods@[k]).in_arena(),
                forall|k: int| i <= k < n_ag ==> #[trigger] self.world.animals@[k] == ags0[k],
                forall|k: int| 0 <= k < n_ag ==> (#[trigger] ags0[k]).satiation + n_fd <= u64::MAX,
                forall|k: int|
                    0 <= k < n_ag ==> (#[trigger] self.world.animals@[k]).satiation
                        <= ags0[k].satiation + n_fd,
            decreases n_ag - i,
        {
            let a = self.world.animals[i];
            let ghost base_animals = self.world.animals@;
            let ghost base_foods = self.world.foods@;
            let ghost base_draws = draws;
            let ghost mut pass_draws: Seq<Food> = Seq::empty();
            let mut eaten: u64 = 0;
            let mut j: usize = 0;
            proof {
                assert(pass_foods(a, base_foods, pass_draws, 0int) == (base_foods, 0int));
            }
            while j < n_fd
                invariant
                    j <= n_fd,
                    n_fd == base_foods.len(),
                    self.world.foods@.len() == n_fd,
                    self.world.animals@ == base_animals,
                    a.wf(),
                    draws == base_draws + pass_draws,
                    draws_ok(draws),
                    draws_ok(pass_draws),
                    eaten as int == pass_draws.len(),
                    eaten <= j,
                    pass_foods(a, base_foods, pass_draws, j as int) == (
                        self.world.foods@,
                        eaten as int,
                    ),
                    forall|k: int| 0 <= k < n_fd ==> (#[trigger] self.world.foods@[k]).in_arena(),
                decreases n_fd - j,
            {
                let f = self.world.foods[j];
                if close_enough(a.x, a.y, f.x, f.y) {
                    let nf = Food::random(rng);
                    proof {
                        assert(pass_draws.push(nf) =~= pass_draws + seq![nf]);
                        assert(draws.push(nf) =~= base_draws + pass_draws.push(nf));
                        lemma_pass_foods_grow(a, base_foods, pass_draws, seq![nf], j as int);
                    }
                    self.world.foods[j] = nf;
                    proof {
                        draws = draws.push(nf);
                        pass_draws = pass_draws.push(nf);
                    }
                    eaten = eaten + 1;
                }
                j = j + 1;
            }
            let a2 = self.world.animals[i];
            proof {
                assert(a2 == ags0[i as int]);
                assert(ags0[i as int].satiation + n_fd <= u64::MAX);
            }
            let s2: u64 = a2.satiation + eaten;
            self.world.animals[i] = Animal { satiation: s2, ..a2 };
            proof {
                lemma_collide_upto_grow(ags0, fds0, base_draws, pass_draws, i as int);
                assert(draws =~= base_draws + pass_draws);
                assert(collide_upto(ags0, fds0, draws, i as int) == (
                    base_animals,
                    base_foods,
                    base_draws.len() as int,
                ));
                assert(draws.skip(base_draws.len() as int) =~= pass_draws);
                assert(collide_upto(ags0, fds0, draws, i + 1) == (
                    self.world.animals@,
                    self.world.foods@,
                    draws.len() as int,
                ));
            }
            i = i + 1;
        }
        proof {
            assert(draws_ok(draws) && collide_upto(ags0, fds0, draws, n_ag as int) == (
                self.world.animals@,
                self.world.foods@,
                draws.len() as int,
            ));
        }
    }

    /// One tick: the collision phase over the whole world, then the
    /// movement phase, in that order, each phase a pass over every agent
    /// in iteration order (see [`Self::process_collisions`] for the
    /// tie-break that order fixes). The tick is a pure function of the
    /// prior world and the stream of positions drawn for respawns,
    /// exhibited in the contract. A host that runs a controller calls
    /// the two phases itself, sensing between them.
    pub fn step(&mut self, rng: &mut rand::rngs::StdRng)
        requires
            old(self).wf(),
            old(self).satiation_headroom(),
        ensures
            final(self).wf(),
            final(self).world.animals@.len() == old(self).world.animals@.len(),
            final(self).world.foods@.len() == old(self).world.foods@.len(),
            forall|k: int|
                0 <= k < old(self).world.animals@.len() ==> (
                #[trigger] final(self).world.animals@[k]).satiation <= old(
                    self,
                ).world.animals@[k].satiation + old(self).world.foods@.len(),
            exists|draws: Seq<Food>|
                draws_ok(draws) && #[trigger] step_spec(
                    old(self).world.animals@,
                    old(self).world.foods@,
                    draws,
                ) == (final(self).world.animals@, final(self).world.foods@),
    {
        let ghost ags0 = self.world.animals@;
        let ghost fds0 = self.world.foods@;
        self.process_collisions(rng);
        let ghost mid_ags = self.world.animals@;
        let ghost mid_fds = self.world.foods@;
        self.process_movements();
        proof {
            let draws = choose|d: Seq<Food>|
                draws_ok(d) && #[trigger] collide_upto(ags0, fds0, d, ags0.len() as int) == (
                    mid_ags,
                    mid_fds,
                    d.len() as int,
                );
            assert(self.world.animals@ =~= mid_ags.map_values(|a: Animal| moved(a)));
            assert(step_spec(ags0, fds0, draws) == (self.world.animals@, self.world.foods@));
            assert forall|k: int|
                0 <= k < ags0.len() implies (#[trigger] self.world.animals@[k]).satiation
                <= ags0[k].satiation + fds0.len() by {
                assert(self.world.animals@[k] == moved(mid_ags[k]));
                assert(moved(mid_ags[k]).satiation == mid_ags[k].satiation);
            }
        }
    }

    /// The movement phase: every agent advances one tick along its
    /// direction and wraps around the arena's edges.
    pub fn process_movements(&mut self)
        requires
            old(self).wf(),
        ensures
            final(self).world.animals@.len() == old(self).world.animals@.len(),
            forall|k: int|
                0 <= k < old(self).world.animals@.len() ==> final(self).world.animals@[k] == moved(
                    #[trigger] old(self).world.animals@[k],
                ),
            final(self).world.foods@ == old(self).world.foods@,
            final(self).wf(),
    {
        let n = self.world.animals.len();
        let mut i: usize = 0;
        while i < n
            invariant
                i <= n,
                n == self.world.animals@.len(),
                self.world.animals@.len() == old(self).world.animals@.len(),
                self.world.foods@ == old(self).world.foods@,
                old(self).wf(),
                forall|k: int|
                    i <= k < n ==> #[trigger] self.world.animals@[k] == old(
                        self,
                    ).world.animals@[k],
                forall|k: int|
                    0 <= k < i ==> #[trigger] self.world.animals@[k] == moved(
                        old(self).world.animals@[k],
                    ),
                forall|k: int|
                    0 <= k < n ==> (#[trigger] self.world.animals@[k]).wf(),
            decreases n - i,
        {
            let a = self.world.animals[i];
            let m = move_animal(a);
            self.world.animals[i] = m;
            i = i + 1;
        }
    }
}

} // verus!
