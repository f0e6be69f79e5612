use rand::rngs::StdRng;
use rand::SeedableRng;

use lib_simulation::units::SCALE;
use lib_simulation::{Animal, Eye, Food, Simulation, World};

fn still_agent(x: u64, y: u64) -> Animal {
    // Speed zero: the agent stays put through the movement phase.
    Animal::create(x, y, SCALE as i64, 0, 0, Eye::default())
}

#[test]
fn movement_wraps_across_the_edge() {
    // An agent at x = 0.999 moving along +x at 0.002 per tick wraps to
    // x = 0.001: modular wraparound, not clamping.
    let agent = Animal::create(999_000, 500_000, SCALE as i64, 0, 2_000, Eye::default());
    let world = World::new(vec![agent], vec![]);
    let mut sim = Simulation::from_world(world);
    let mut rng = StdRng::seed_from_u64(7);
    sim.step(&mut rng);
    let (x, y) = sim.world().animals()[0].position();
    assert_eq!(x, 1_000);
    assert_eq!(y, 500_000);
}

#[test]
fn movement_follows_the_direction() {
    let agent = Animal::create(500_000, 500_000, 0, -(SCALE as i64), 2_000, Eye::default());
    let world = World::new(vec![agent], vec![]);
    let mut sim = Simulation::from_world(world);
    let mut rng = StdRng::seed_from_u64(7);
    sim.step(&mut rng);
    let (x, y) = sim.world().animals()[0].position();
    assert_eq!(x, 500_000);
    assert_eq!(y, 498_000);
}

#[test]
fn two_close_foods_are_both_eaten() {
    // Two foods within the eating radius of the agent and of each other:
    // one tick credits the agent twice and repositions both foods.
    let agent = still_agent(500_000, 500_000);
    let f1 = Food::new(504_000, 500_000);
    let f2 = Food::new(500_000, 504_000);
    let world = World::new(vec![agent], vec![f1, f2]);
    let mut sim = Simulation::from_world(world);
    let mut rng = StdRng::seed_from_u64(11);
    sim.step(&mut rng);
    assert_eq!(sim.world().animals()[0].satiation(), 2);
    assert_eq!(sim.world().foods().len(), 2);
    let p1 = sim.world().foods()[0].position();
    let p2 = sim.world().foods()[1].position();
    assert_ne!(p1, (504_000, 500_000));
    assert_ne!(p2, (500_000, 504_000));
    assert!(p1.0 < SCALE && p1.1 < SCALE);
    assert!(p2.0 < SCALE && p2.1 < SCALE);
}

#[test]
fn food_on_the_radius_boundary_is_eaten() {
    // Distance exactly 0.01: eaten (the eating test is inclusive).
    let agent = still_agent(500_000, 500_000);
    let world = World::new(vec![agent], vec![Food::new(510_000, 500_000)]);
    let mut sim = Simulation::from_world(world);
    let mut rng = StdRng::seed_from_u64(3);
    sim.step(&mut rng);
    assert_eq!(sim.world().animals()[0].satiation(), 1);
}

#[test]
fn food_past_the_radius_is_not_eaten() {
    let agent = still_agent(500_000, 500_000);
    let world = World::new(vec![agent], vec![Food::new(510_001, 500_000)]);
    let mut sim = Simulation::from_world(world);
    let mut rng = StdRng::seed_from_u64(3);
    sim.step(&mut rng);
    assert_eq!(sim.world().animals()[0].satiation(), 0);
    assert_eq!(sim.world().foods()[0].position(), (510_001, 500_000));
}

#[test]
fn satiation_accumulates_over_ticks() {
    let agent = still_agent(500_000, 500_000);
    let world = World::new(vec![agent], vec![Food::new(505_000, 500_000)]);
    let mut sim = Simulation::from_world(world);
    let mut rng = StdRng::seed_from_u64(5);
    let mut eaten: u64 = 0;
    for _ in 0..50 {
        sim.step(&mut rng);
        let s = sim.world().animals()[0].satiation();
        assert!(s >= eaten);
        eaten = s;
    }
    // The first tick always eats the food placed within reach.
    assert!(eaten >= 1);
}

#[test]
fn equal_seeds_give_identical_runs() {
    let mut rng_a = StdRng::seed_from_u64(42);
    let mut rng_b = StdRng::seed_from_u64(42);
    let mut sim_a = Simulation::random(&mut rng_a);
    let mut sim_b = Simulation::random(&mut rng_b);
    for _ in 0..10 {
        sim_a.step(&mut rng_a);
        sim_b.step(&mut rng_b);
    }
    let wa = sim_a.world();
    let wb = sim_b.world();
    assert_eq!(wa.animals().len(), wb.animals().len());
    assert_eq!(wa.foods().len(), wb.foods().len());
    for (a, b) in wa.animals().iter().zip(wb.animals().iter()) {
        assert_eq!(a.position(), b.position());
        assert_eq!(a.rotation(), b.rotation());
        assert_eq!(a.satiation(), b.satiation());
    }
    for (fa, fb) in wa.foods().iter().zip(wb.foods().iter()) {
        assert_eq!(fa.position(), fb.position());
    }
}

#[test]
fn different_seeds_diverge() {
    let mut rng_a = StdRng::seed_from_u64(1);
    let mut rng_b = StdRng::seed_from_u64(2);
    let sim_a = Simulation::random(&mut rng_a);
    let sim_b = Simulation::random(&mut rng_b);
    let pa: Vec<(u64, u64)> = sim_a.world().animals().iter().map(|a| a.position()).collect();
    let pb: Vec<(u64, u64)> = sim_b.world().animals().iter().map(|a| a.position()).collect();
    assert_ne!(pa, pb);
}

#[test]
fn random_world_is_inside_the_arena() {
    let mut rng = StdRng::seed_from_u64(9);
    let sim = Simulation::random(&mut rng);
    let w = sim.world();
    assert_eq!(w.animals().len(), 40);
    assert_eq!(w.foods().len(), 60);
    for a in w.animals().iter() {
        let (x, y) = a.position();
        assert!(x < SCALE && y < SCALE);
        let (dx, dy) = a.rotation();
        assert!(dx.unsigned_abs() <= SCALE && dy.unsigned_abs() <= SCALE);
        // the direction is of roughly unit length
        let m = dx * dx + dy * dy;
        let s = SCALE as i64;
        assert!((s - 4) * (s - 4) <= m && m <= (s + 4) * (s + 4));
        assert_eq!(a.satiation(), 0);
        // every fresh agent starts at the default speed with the default eye
        assert_eq!(a.speed, 2_000);
        assert_eq!(a.eye, Eye::default());
    }
    for f in w.foods().iter() {
        let (x, y) = f.position();
        assert!(x < SCALE && y < SCALE);
    }
}

#[test]
fn the_phases_compose_into_a_step() {
    // Running the two phases oneself — as a host with a controller does,
    // sensing in between — is exactly one step.
    let mut rng_a = StdRng::seed_from_u64(21);
    let mut rng_b = StdRng::seed_from_u64(21);
    let mut sim_a = Simulation::random(&mut rng_a);
    let mut sim_b = Simulation::random(&mut rng_b);
    sim_a.step(&mut rng_a);
    sim_b.process_collisions(&mut rng_b);
    sim_b.process_movements();
    for (a, b) in sim_a.world().animals().iter().zip(sim_b.world().animals().iter()) {
        assert_eq!(a.position(), b.position());
        assert_eq!(a.satiation(), b.satiation());
    }
    for (fa, fb) in sim_a.world().foods().iter().zip(sim_b.world().foods().iter()) {
        assert_eq!(fa.position(), fb.position());
    }
}

#[test]
fn steer_changes_course() {
    let agent = Animal::create(500_000, 500_000, SCALE as i64, 0, 2_000, Eye::default());
    let world = World::new(vec![agent], vec![]);
    let mut sim = Simulation::from_world(world);
    sim.steer(0, 0, SCALE as i64, 4_000);
    let mut rng = StdRng::seed_from_u64(1);
    sim.step(&mut rng);
    let (x, y) = sim.world().animals()[0].position();
    assert_eq!(x, 500_000);
    assert_eq!(y, 504_000);
}
