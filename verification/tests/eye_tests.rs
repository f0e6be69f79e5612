use lib_simulation::units::{SCALE, TURN};
use lib_simulation::{Eye, Food};

/// A single food seen from `(x, y)` with the given bearing.
fn see_one(eye: &Eye, x: u64, y: u64, heading: i64, food: Food, bearing: i64) -> Vec<u64> {
    eye.process_vision(x, y, heading, &vec![food], &vec![bearing])
}

#[test]
fn vector_has_one_entry_per_cell() {
    let eye = Eye::new(250_000, TURN as u64 / 2, 9);
    let foods = vec![Food::new(400_000, 500_000), Food::new(600_000, 500_000)];
    let bearings = vec![TURN / 2, 0];
    let vision = eye.process_vision(500_000, 500_000, 0, &foods, &bearings);
    assert_eq!(vision.len(), 9);
    let empty = eye.process_vision(500_000, 500_000, 0, &vec![], &vec![]);
    assert_eq!(empty.len(), 9);
    assert!(empty.iter().all(|&c| c == 0));
}

#[test]
fn food_at_exact_range_is_invisible() {
    // Distance exactly the field-of-view range: strict cutoff, no entry.
    let eye = Eye::new(1_000_000, TURN as u64 / 2, 13);
    let vision = see_one(&eye, 0, 500_000, 0, Food::new(1_000_000, 500_000), 0);
    assert!(vision.iter().all(|&c| c == 0));
    // One unit nearer: visible.
    let vision = see_one(&eye, 1, 500_000, 0, Food::new(1_000_000, 500_000), 0);
    assert!(vision.iter().any(|&c| c > 0));
}

#[test]
fn food_beyond_range_is_invisible() {
    let eye = Eye::new(250_000, TURN as u64 / 2, 13);
    let vision = see_one(&eye, 100_000, 500_000, 0, Food::new(900_000, 500_000), 0);
    assert!(vision.iter().all(|&c| c == 0));
}

#[test]
fn boundary_angles_clamp_to_edge_cells() {
    // A half-circle cone: the edges lie at a quarter turn either side.
    let eye = Eye::new(1_000_000, TURN as u64 / 2, 13);
    // Food straight "left" of the heading: bearing a quarter turn.
    let left = see_one(&eye, 500_000, 500_000, 0, Food::new(500_000, 501_000), TURN / 4);
    assert_eq!(left[12], 999_000);
    assert!(left[..12].iter().all(|&c| c == 0));
    // Food straight "right": bearing minus a quarter turn.
    let right = see_one(&eye, 500_000, 500_000, 0, Food::new(500_000, 499_000), -TURN / 4);
    assert_eq!(right[0], 999_000);
    assert!(right[1..].iter().all(|&c| c == 0));
    // One angle unit outside the cone: invisible.
    let out = see_one(&eye, 500_000, 500_000, 0, Food::new(500_000, 501_000), TURN / 4 + 1);
    assert!(out.iter().all(|&c| c == 0));
}

#[test]
fn nearer_food_contributes_more_energy() {
    // Same bearing, different distances: energy falls strictly.
    let eye = Eye::new(1_000_000, TURN as u64, 1);
    let near = see_one(&eye, 500_000, 500_000, 0, Food::new(600_000, 500_000), 0);
    let far = see_one(&eye, 500_000, 500_000, 0, Food::new(700_000, 500_000), 0);
    assert_eq!(near[0], 900_000);
    assert_eq!(far[0], 800_000);
    assert!(near[0] > far[0]);
}

#[test]
fn full_turn_of_heading_reproduces_vision() {
    let eye = Eye::new(800_000, TURN as u64 / 2 + TURN as u64 / 8, 11);
    let foods = vec![
        Food::new(700_000, 500_000),
        Food::new(500_000, 300_000),
        Food::new(400_000, 600_000),
    ];
    let bearings = vec![0, -TURN / 4, TURN / 3];
    let heading = TURN / 8;
    let base = eye.process_vision(500_000, 500_000, heading, &foods, &bearings);
    let turned = eye.process_vision(500_000, 500_000, heading + TURN, &foods, &bearings);
    assert_eq!(base, turned);
    // A full-circle eye repeats under a turn by its own angle.
    let omni = Eye::new(800_000, TURN as u64, 7);
    let base = omni.process_vision(500_000, 500_000, heading, &foods, &bearings);
    let turned = omni.process_vision(500_000, 500_000, heading + TURN, &foods, &bearings);
    assert_eq!(base, turned);
}

#[test]
fn single_food_ahead_lands_in_middle_cell() {
    // Range one arena side, a quarter-circle cone, thirteen cells; the
    // agent looks straight at a food half an arena away.
    let eye = Eye::new(1_000_000, TURN as u64 / 4, 13);
    let vision = see_one(&eye, 500_000, 500_000, 0, Food::new(1_000_000, 500_000), 0);
    assert_eq!(vision.len(), 13);
    assert_eq!(vision[6], 500_000);
    for (k, &c) in vision.iter().enumerate() {
        if k != 6 {
            assert_eq!(c, 0);
        }
    }
}

#[test]
fn foods_in_one_cell_accumulate() {
    let eye = Eye::new(1_000_000, TURN as u64 / 4, 13);
    let foods = vec![Food::new(1_000_000, 500_000), Food::new(750_000, 500_000)];
    let bearings = vec![0, 0];
    let vision = eye.process_vision(500_000, 500_000, 0, &foods, &bearings);
    assert_eq!(vision[6], 500_000 + 750_000);
}

#[test]
fn energy_uses_the_rounded_down_distance() {
    // Distance sqrt(1000^2 + 500^2) = 1118.03...: the model measures
    // 1118 whole coordinate units.
    let eye = Eye::new(1_000_000, TURN as u64, 1);
    let vision = see_one(&eye, 500_000, 500_000, 0, Food::new(501_000, 500_500), 0);
    assert_eq!(vision[0], 1_000_000 - 1_118);
}

#[test]
fn try_new_rejects_non_positive_parameters() {
    assert!(Eye::try_new(0, TURN as u64 / 2, 9).is_none());
    assert!(Eye::try_new(250_000, 0, 9).is_none());
    assert!(Eye::try_new(250_000, TURN as u64 / 2, 0).is_none());
    let eye = Eye::try_new(250_000, TURN as u64 / 2, 9);
    assert!(eye.is_some());
    assert_eq!(eye.unwrap().cells(), 9);
}

#[test]
fn default_eye_parameters() {
    let eye = Eye::default();
    assert_eq!(eye.cells(), 9);
    // Default range: a quarter arena; default angle: five eighths of a
    // full circle.
    assert_eq!(lib_simulation::animal::eye::FOV_RANGE, SCALE / 4);
    assert_eq!(lib_simulation::animal::eye::FOV_ANGLE as i64, TURN / 8 * 5);
}
