//! The sensor: a coarse retina that discretizes the world's geometry into
//! a fixed-length vector of energy readings.
//!
//! For each food, the eye asks two questions. Is the food within the
//! field-of-view range (strictly)? Is its bearing within half the
//! field-of-view angle of the agent's heading, either side (inclusively)?
//! If both hold, the food lands in the cell that its relative angle selects
//! linearly across the cone, and contributes an energy that falls linearly
//! from `SCALE` at distance zero towards zero at the range.
//!
//! Angle geometry is exact: where the real rules shift the relative angle
//! by half the field-of-view angle, the spec and the code double every
//! angle first, so that no halving ever rounds.
//!
//! The one quantity the fixed-point model cannot derive itself is the
//! world-frame bearing of a food as seen from the agent (an arc tangent);
//! the host computes it and passes one bearing per food.

use vstd::prelude::*;
use crate::food::Food;
use crate::units::{
    isqrt, lemma_sqrt_floor_bounds, lemma_wrap_angle_diff, lemma_wrap_angle_range, sqrt_floor,
    wrap_angle, wrap_angle_spec, HALF_TURN, MAX_COORD, SCALE, TURN,
};

verus! {

/// The default field-of-view range: a quarter of the arena.
pub const FOV_RANGE: u64 = 250_000;

/// The default field-of-view angle: five eighths of a full circle.
pub const FOV_ANGLE: u64 = 2_684_354_560;

/// The default number of photoreceptor cells.
pub const CELLS: usize = 9;

/// The widest field of view accepted, sixteen full circles: the angle may
/// exceed one circle (omnidirectional vision) but must leave the cell
/// arithmetic inside 64 bits.
pub const MAX_FOV_ANGLE: u64 = 0x10_0000_0000;

/// The longest range accepted, ten arena sides: far beyond the arena's
/// diagonal, yet keeping every energy product inside 64 bits.
pub const MAX_FOV_RANGE: u64 = 10_000_000;

/// The most cells accepted; keeps the cell arithmetic inside 64 bits.
pub const MAX_CELLS: usize = 65_536;

/// The most foods one vision pass accepts; keeps accumulated energy, at
/// most `SCALE` per food, inside 64 bits.
pub const MAX_FOODS_SEEN: u64 = 0x1_0000_0000;

#[derive(Clone, Copy, Debug, PartialEq, Eq, Structural)]
pub struct Eye {
    pub fov_range: u64,
    pub fov_angle: u64,
    pub cells: usize,
}

/// The default eye configuration: what `Eye::default()` returns and what
/// every randomly created agent carries.
pub open spec fn default_eye() -> Eye {
    Eye { fov_range: FOV_RANGE, fov_angle: FOV_ANGLE, cells: CELLS }
}

/// The squared distance between two points.
pub open spec fn dist_sq(ax: int, ay: int, fx: int, fy: int) -> int {
    (fx - ax) * (fx - ax) + (fy - ay) * (fy - ay)
}

/// The energy a visible food contributes: a linear falloff from `SCALE`
/// at distance zero towards zero at the field-of-view range.
pub open spec fn energy_spec(dist: int, range: int) -> int {
    (range - dist) * (SCALE as int) / range
}

/// Whether a relative angle lies within the angular cone: within half the
/// field-of-view angle of straight ahead, boundary included.
pub open spec fn angle_visible(rel: int, fov_angle: int) -> bool {
    -fov_angle <= 2 * rel <= fov_angle
}

/// The cell a relative angle selects: the doubled angle, shifted so the
/// cone starts at zero, maps linearly onto the cells; the far boundary is
/// clamped into the last cell.
pub open spec fn cell_index(rel: int, fov_angle: int, cells: int) -> int {
    let raw = (2 * rel + fov_angle) * cells / (2 * fov_angle);
    if raw >= cells {
        cells - 1
    } else {
        raw
    }
}

/// One food's mark on the sensory vector: visible food adds its energy to
/// its cell; invisible food leaves the vector as it stands.
pub open spec fn see_food(
    eye: Eye,
    ax: int,
    ay: int,
    heading: int,
    f: Food,
    bearing: int,
    acc: Seq<int>,
) -> Seq<int> {
    let d2 = dist_sq(ax, ay, f.x as int, f.y as int);
    let rel = wrap_angle_spec(bearing - heading);
    if d2 < (eye.fov_range as int) * (eye.fov_range as int) && angle_visible(
        rel,
        eye.fov_angle as int,
    ) {
        let cell = cell_index(rel, eye.fov_angle as int, eye.cells as int);
        acc.update(cell, acc[cell] + energy_spec(sqrt_floor(d2), eye.fov_range as int))
    } else {
        acc
    }
}

/// The sensory vector after the first `i` foods.
pub open spec fn vision_upto(
    eye: Eye,
    ax: int,
    ay: int,
    heading: int,
    foods: Seq<Food>,
    bearings: Seq<int>,
    i: int,
) -> Seq<int>
    decreases i,
{
    if i <= 0 {
        Seq::new(eye.cells as nat, |j: int| 0)
    } else {
        see_food(
            eye,
            ax,
            ay,
            heading,
            foods[i - 1],
            bearings[i - 1],
            vision_upto(eye, ax, ay, heading, foods, bearings, i - 1),
        )
    }
}

/// A visible relative angle always selects a cell in range.
pub proof fn lemma_cell_index_range(rel: int, fov_angle: int, cells: int)
    requires
        0 < fov_angle,
        0 < cells,
        angle_visible(rel, fov_angle),
    ensures
        0 <= cell_index(rel, fov_angle, cells) < cells,
{
    assert(0 <= (2 * rel + fov_angle) * cells) by (nonlinear_arith)
        requires
            0 <= 2 * rel + fov_angle,
            0 < cells,
    ;
    vstd::arithmetic::div_mod::lemma_div_pos_is_pos((2 * rel + fov_angle) * cells, 2 * fov_angle);
}

/// The sensory vector always has one entry per cell.
pub proof fn lemma_vision_upto_len(
    eye: Eye,
    ax: int,
    ay: int,
    heading: int,
    foods: Seq<Food>,
    bearings: Seq<int>,
    i: int,
)
    requires
        0 < eye.fov_angle,
        0 < eye.cells,
    ensures
        vision_upto(eye, ax, ay, heading, foods, bearings, i).len() == eye.cells,
    decreases i,
{
    if i <= 0 {
        assert(vision_upto(eye, ax, ay, heading, foods, bearings, i) == Seq::new(
            eye.cells as nat,
            |j: int| 0int,
        ));
    } else {
        lemma_vision_upto_len(eye, ax, ay, heading, foods, bearings, i - 1);
        let prev = vision_upto(eye, ax, ay, heading, foods, bearings, i - 1);
        let f = foods[i - 1];
        let rel = wrap_angle_spec(bearings[i - 1] - heading);
        if dist_sq(ax, ay, f.x as int, f.y as int) < (eye.fov_range as int) * (
        eye.fov_range as int) && angle_visible(rel, eye.fov_angle as int) {
            lemma_cell_index_range(rel, eye.fov_angle as int, eye.cells as int);
            assert(vision_upto(eye, ax, ay, heading, foods, bearings, i) == prev.update(
                cell_index(rel, eye.fov_angle as int, eye.cells as int),
                prev[cell_index(rel, eye.fov_angle as int, eye.cells as int)] + energy_spec(
                    sqrt_floor(dist_sq(ax, ay, f.x as int, f.y as int)),
                    eye.fov_range as int,
                ),
            ));
        } else {
            assert(vision_upto(eye, ax, ay, heading, foods, bearings, i) == prev);
        }
    }
}

/// The full sensory vector: every food seen in order.
pub open spec fn vision_spec(
    eye: Eye,
    ax: int,
    ay: int,
    heading: int,
    foods: Seq<Food>,
    bearings: Seq<int>,
) -> Seq<int> {
    vision_upto(eye, ax, ay, heading, foods, bearings, foods.len() as int)
}

/// Seeing depends only on the foods already seen: two foodlists that
/// agree on their first `i` entries give the same vector after `i` foods.
pub proof fn lemma_vision_upto_prefix(
    eye: Eye,
    ax: int,
    ay: int,
    heading: int,
    foods1: Seq<Food>,
    bearings1: Seq<int>,
    foods2: Seq<Food>,
    bearings2: Seq<int>,
    i: int,
)
    requires
        forall|k: int| 0 <= k < i ==> (#[trigger] foods1[k]) == foods2[k],
        forall|k: int| 0 <= k < i ==> (#[trigger] bearings1[k]) == bearings2[k],
    ensures
        vision_upto(eye, ax, ay, heading, foods1, bearings1, i) == vision_upto(
            eye,
            ax,
            ay,
            heading,
            foods2,
            bearings2,
            i,
        ),
    decreases i,
{
    if i > 0 {
        lemma_vision_upto_prefix(
            eye,
            ax,
            ay,
            heading,
            foods1,
            bearings1,
            foods2,
            bearings2,
            i - 1,
        );
    }
}

/// Every entry of a sensory vector is nonnegative: contributions only
/// ever add energy, and every energy is nonnegative.
pub proof fn lemma_vision_upto_nonneg(
    eye: Eye,
    ax: int,
    ay: int,
    heading: int,
    foods: Seq<Food>,
    bearings: Seq<int>,
    i: int,
)
    requires
        0 < eye.fov_range,
        0 < eye.fov_angle,
        0 < eye.cells,
    ensures
        forall|k: int|
            0 <= k < vision_upto(eye, ax, ay, heading, foods, bearings, i).len() ==> 0 <= #[trigger]
                vision_upto(eye, ax, ay, heading, foods, bearings, i)[k],
    decreases i,
{
    lemma_vision_upto_len(eye, ax, ay, heading, foods, bearings, i);
    if i > 0 {
        lemma_vision_upto_nonneg(eye, ax, ay, heading, foods, bearings, i - 1);
        lemma_vision_upto_len(eye, ax, ay, heading, foods, bearings, i - 1);
        let prev = vision_upto(eye, ax, ay, heading, foods, bearings, i - 1);
        let f = foods[i - 1];
        let d2 = dist_sq(ax, ay, f.x as int, f.y as int);
        let rel = wrap_angle_spec(bearings[i - 1] - heading);
        let range = eye.fov_range as int;
        if d2 < range * range && angle_visible(rel, eye.fov_angle as int) {
            lemma_cell_index_range(rel, eye.fov_angle as int, eye.cells as int);
            assert(0 <= d2) by (nonlinear_arith)
                requires
                    d2 == dist_sq(ax, ay, f.x as int, f.y as int),
            ;
            lemma_sqrt_floor_bounds(d2);
            let dist = sqrt_floor(d2);
            assert(dist < range) by (nonlinear_arith)
                requires
                    0 < range,
                    0 <= dist,
                    dist * dist <= d2,
                    d2 < range * range,
            ;
            assert(0 <= (range - dist) * (SCALE as int));
            vstd::arithmetic::div_mod::lemma_div_pos_is_pos((range - dist) * (SCALE as int), range);
        }
    }
}

/// LAW (sensor shape): for every valid eye, a sensory vector has exactly
/// one entry per cell, and each entry is nonnegative.
pub proof fn lemma_vision_shape(
    eye: Eye,
    ax: int,
    ay: int,
    heading: int,
    foods: Seq<Food>,
    bearings: Seq<int>,
)
    requires
        0 < eye.fov_range,
        0 < eye.fov_angle,
        0 < eye.cells,
    ensures
        vision_spec(eye, ax, ay, heading, foods, bearings).len() == eye.cells,
        forall|k: int|
            0 <= k < vision_spec(eye, ax, ay, heading, foods, bearings).len() ==> 0 <= #[trigger]
                vision_spec(eye, ax, ay, heading, foods, bearings)[k],
{
    lemma_vision_upto_len(eye, ax, ay, heading, foods, bearings, foods.len() as int);
    lemma_vision_upto_nonneg(eye, ax, ay, heading, foods, bearings, foods.len() as int);
}

/// LAW (range cutoff): a food at or past the field-of-view range — the
/// squared distance at or past the range's square, so the boundary
/// `distance == range` included — contributes to no cell: it leaves any
/// accumulator exactly as it stands, whatever its bearing.
pub proof fn lemma_out_of_range_food_invisible(
    eye: Eye,
    ax: int,
    ay: int,
    heading: int,
    f: Food,
    bearing: int,
    acc: Seq<int>,
)
    requires
        dist_sq(ax, ay, f.x as int, f.y as int) >= (eye.fov_range as int) * (eye.fov_range as int),
    ensures
        see_food(eye, ax, ay, heading, f, bearing, acc) == acc,
{
}

/// Skipping one out-of-range food leaves every step of the seeing as it
/// was: the vector after `i` foods of the list equals the vector after
/// the matching `i - 1` foods of the list without the `k`-th.
proof fn lemma_vision_upto_drop_invisible(
    eye: Eye,
    ax: int,
    ay: int,
    heading: int,
    foods: Seq<Food>,
    bearings: Seq<int>,
    k: int,
    i: int,
)
    requires
        foods.len() == bearings.len(),
        0 <= k < foods.len(),
        k < i <= foods.len(),
        dist_sq(ax, ay, foods[k].x as int, foods[k].y as int) >= (eye.fov_range as int) * (
        eye.fov_range as int),
    ensures
        vision_upto(eye, ax, ay, heading, foods.remove(k), bearings.remove(k), i - 1)
            == vision_upto(eye, ax, ay, heading, foods, bearings, i),
    decreases i,
{
    foods.remove_ensures(k);
    bearings.remove_ensures(k);
    if i - 1 == k {
        lemma_vision_upto_prefix(
            eye,
            ax,
            ay,
            heading,
            foods.remove(k),
            bearings.remove(k),
            foods,
            bearings,
            k,
        );
        lemma_out_of_range_food_invisible(
            eye,
            ax,
            ay,
            heading,
            foods[k],
            bearings[k],
            vision_upto(eye, ax, ay, heading, foods, bearings, k),
        );
    } else {
        lemma_vision_upto_drop_invisible(eye, ax, ay, heading, foods, bearings, k, i - 1);
        assert(foods.remove(k)[i - 2] == foods[i - 1]);
        assert(bearings.remove(k)[i - 2] == bearings[i - 1]);
    }
}

/// LAW (range cutoff, any position): the sensory vector is unchanged by
/// the presence of a food at or past the field-of-view range, wherever
/// in the food list it stands.
pub proof fn lemma_invisible_food_dropped(
    eye: Eye,
    ax: int,
    ay: int,
    heading: int,
    foods: Seq<Food>,
    bearings: Seq<int>,
    k: int,
)
    requires
        foods.len() == bearings.len(),
        0 <= k < foods.len(),
        dist_sq(ax, ay, foods[k].x as int, foods[k].y as int) >= (eye.fov_range as int) * (
        eye.fov_range as int),
    ensures
        vision_spec(eye, ax, ay, heading, foods.remove(k), bearings.remove(k)) == vision_spec(
            eye,
            ax,
            ay,
            heading,
            foods,
            bearings,
        ),
{
    foods.remove_ensures(k);
    bearings.remove_ensures(k);
    lemma_vision_upto_drop_invisible(
        eye,
        ax,
        ay,
        heading,
        foods,
        bearings,
        k,
        foods.len() as int,
    );
}

/// LAW (boundary clamp): a food exactly on the angular boundary of the
/// cone is visible and lands in the first or the last cell — never out
/// of range: the left edge selects cell 0, the right edge the last cell.
pub proof fn lemma_boundary_angle_cell(rel: int, fov_angle: int, cells: int)
    requires
        0 < fov_angle,
        0 < cells,
    ensures
        2 * rel == -fov_angle ==> angle_visible(rel, fov_angle) && cell_index(
            rel,
            fov_angle,
            cells,
        ) == 0,
        2 * rel == fov_angle ==> angle_visible(rel, fov_angle) && cell_index(rel, fov_angle, cells)
            == cells - 1,
{
    if 2 * rel == -fov_angle {
        assert((2 * rel + fov_angle) * cells == 0int) by (nonlinear_arith)
            requires
                2 * rel + fov_angle == 0,
        ;
        vstd::arithmetic::div_mod::lemma_div_of0(2 * fov_angle);
    }
    if 2 * rel == fov_angle {
        assert((2 * rel + fov_angle) * cells == (2 * fov_angle) * cells);
        vstd::arithmetic::div_mod::lemma_div_multiples_vanish(cells, 2 * fov_angle);
    }
}

/// LAW (distance falloff, non-strict): of two foods on the same bearing,
/// the nearer never contributes less energy.
pub proof fn lemma_energy_antitone(range: int, d1: int, d2: int)
    requires
        0 < range,
        0 <= d1 <= d2 <= range,
    ensures
        energy_spec(d2, range) <= energy_spec(d1, range),
{
    vstd::arithmetic::div_mod::lemma_div_is_ordered(
        (range - d2) * (SCALE as int),
        (range - d1) * (SCALE as int),
        range,
    );
}

/// LAW (distance falloff, strict): of two foods on the same bearing, the
/// nearer contributes strictly more energy whenever the two distances
/// are at least one energy quantum — `range / SCALE` coordinate units —
/// apart. For any range of up to one arena side (`range <= SCALE`) every
/// pair of distinct integer distances qualifies; at longer ranges two
/// distances closer together than the quantum can floor to equal energy.
pub proof fn lemma_energy_strictly_falls(range: int, d1: int, d2: int)
    requires
        0 < range,
        0 <= d1 < d2 <= range,
        (d2 - d1) * (SCALE as int) >= range,
    ensures
        energy_spec(d2, range) < energy_spec(d1, range),
{
    let a = (range - d1) * (SCALE as int);
    let b = (range - d2) * (SCALE as int);
    assert(a >= b + range);
    vstd::arithmetic::div_mod::lemma_div_plus_one(b, range);
    vstd::arithmetic::div_mod::lemma_div_is_ordered(range + b, a, range);
}

/// LAW (distance falloff at the sensor): two foods on the same bearing
/// land in the same cell — the cell the bearing selects — and the nearer
/// one is read strictly stronger there, whenever their measured
/// distances are at least one energy quantum apart (see
/// `lemma_energy_strictly_falls` for the quantum).
pub proof fn lemma_nearer_food_reads_stronger(
    eye: Eye,
    ax: int,
    ay: int,
    heading: int,
    bearing: int,
    f1: Food,
    f2: Food,
)
    requires
        0 < eye.fov_range,
        0 < eye.fov_angle,
        0 < eye.cells,
        angle_visible(wrap_angle_spec(bearing - heading), eye.fov_angle as int),
        dist_sq(ax, ay, f1.x as int, f1.y as int) < dist_sq(ax, ay, f2.x as int, f2.y as int),
        dist_sq(ax, ay, f2.x as int, f2.y as int) < (eye.fov_range as int) * (
        eye.fov_range as int),
        (sqrt_floor(dist_sq(ax, ay, f2.x as int, f2.y as int)) - sqrt_floor(
            dist_sq(ax, ay, f1.x as int, f1.y as int),
        )) * (SCALE as int) >= eye.fov_range as int,
    ensures
        vision_spec(eye, ax, ay, heading, seq![f1], seq![bearing])[cell_index(
            wrap_angle_spec(bearing - heading),
            eye.fov_angle as int,
            eye.cells as int,
        )] > vision_spec(eye, ax, ay, heading, seq![f2], seq![bearing])[cell_index(
            wrap_angle_spec(bearing - heading),
            eye.fov_angle as int,
            eye.cells as int,
        )],
{
    let rel = wrap_angle_spec(bearing - heading);
    let range = eye.fov_range as int;
    let c = cell_index(rel, eye.fov_angle as int, eye.cells as int);
    let d2_1 = dist_sq(ax, ay, f1.x as int, f1.y as int);
    let d2_2 = dist_sq(ax, ay, f2.x as int, f2.y as int);
    let d1 = sqrt_floor(d2_1);
    let d2 = sqrt_floor(d2_2);
    lemma_cell_index_range(rel, eye.fov_angle as int, eye.cells as int);
    assert(0 <= d2_1) by (nonlinear_arith)
        requires
            d2_1 == dist_sq(ax, ay, f1.x as int, f1.y as int),
    ;
    lemma_sqrt_floor_bounds(d2_1);
    lemma_sqrt_floor_bounds(d2_2);
    assert(d2 < range) by (nonlinear_arith)
        requires
            0 < range,
            0 <= d2,
            d2 * d2 <= d2_2,
            d2_2 < range * range,
    ;
    lemma_energy_strictly_falls(range, d1, d2);
    let base = Seq::new(eye.cells as nat, |j: int| 0int);
    assert(vision_upto(eye, ax, ay, heading, seq![f1], seq![bearing], 0) == base);
    assert(vision_upto(eye, ax, ay, heading, seq![f2], seq![bearing], 0) == base);
    assert(vision_spec(eye, ax, ay, heading, seq![f1], seq![bearing]) == see_food(
        eye,
        ax,
        ay,
        heading,
        f1,
        bearing,
        base,
    ));
    assert(vision_spec(eye, ax, ay, heading, seq![f2], seq![bearing]) == see_food(
        eye,
        ax,
        ay,
        heading,
        f2,
        bearing,
        base,
    ));
    assert(base[c] == 0);
}

/// Turning the heading by one full circle changes no step of the seeing.
pub proof fn lemma_vision_upto_heading_turn(
    eye: Eye,
    ax: int,
    ay: int,
    heading: int,
    foods: Seq<Food>,
    bearings: Seq<int>,
    i: int,
)
    ensures
        vision_upto(eye, ax, ay, heading + TURN as int, foods, bearings, i) == vision_upto(
            eye,
            ax,
            ay,
            heading,
            foods,
            bearings,
            i,
        ),
    decreases i,
{
    if i > 0 {
        lemma_vision_upto_heading_turn(eye, ax, ay, heading, foods, bearings, i - 1);
        crate::units::lemma_wrap_angle_shift(bearings[i - 1] - (heading + TURN as int), 1int);
    }
}

/// LAW (heading periodicity): turning the agent by one full circle
/// reproduces the identical sensory vector. In particular, an eye whose
/// field-of-view angle is configured as one full circle repeats under a
/// turn by its own field-of-view angle.
pub proof fn lemma_vision_heading_periodic(
    eye: Eye,
    ax: int,
    ay: int,
    heading: int,
    foods: Seq<Food>,
    bearings: Seq<int>,
)
    ensures
        vision_spec(eye, ax, ay, heading + TURN as int, foods, bearings) == vision_spec(
            eye,
            ax,
            ay,
            heading,
            foods,
            bearings,
        ),
{
    lemma_vision_upto_heading_turn(eye, ax, ay, heading, foods, bearings, foods.len() as int);
}

impl Eye {
    /// The configuration invariant: all three parameters strictly
    /// positive, and within the fixed-point arithmetic's headroom.
    pub open spec fn wf(self) -> bool {
        &&& 0 < self.fov_range <= MAX_FOV_RANGE
        &&& 0 < self.fov_angle <= MAX_FOV_ANGLE
        &&& 0 < self.cells <= MAX_CELLS
    }

    /// An eye from its three parameters; a non-positive or oversized
    /// parameter is a configuration error the caller must rule out.
    pub fn new(fov_range: u64, fov_angle: u64, cells: usize) -> (eye: Eye)
        requires
            0 < fov_range <= MAX_FOV_RANGE,
            0 < fov_angle <= MAX_FOV_ANGLE,
            0 < cells <= MAX_CELLS,
        ensures
            eye == (Eye { fov_range, fov_angle, cells }),
            eye.wf(),
    {
        Eye { fov_range, fov_angle, cells }
    }

    /// An eye from arbitrary parameters: `Some` exactly when all three are
    /// strictly positive and within range, `None` otherwise.
    pub fn try_new(fov_range: u64, fov_angle: u64, cells: usize) -> (r: Option<Eye>)
        ensures
            r is Some <==> (0 < fov_range <= MAX_FOV_RANGE && 0 < fov_angle <= MAX_FOV_ANGLE && 0
                < cells <= MAX_CELLS),
            r is Some ==> r->0 == (Eye { fov_range, fov_angle, cells }) && r->0.wf(),
    {
        if 0 < fov_range && fov_range <= MAX_FOV_RANGE && 0 < fov_angle && fov_angle
            <= MAX_FOV_ANGLE && 0 < cells && cells <= MAX_CELLS {
            Some(Eye { fov_range, fov_angle, cells })
        } else {
            None
        }
    }

    pub fn cells(&self) -> (n: usize)
        ensures
            n == self.cells,
    {
        self.cells
    }

    /// Senses the foods from position `(x, y)`: returns the sensory
    /// vector, one accumulated energy per cell.
    ///
    /// `heading` is the agent's heading and `bearings[k]` the world-frame
    /// bearing of `foods[k]` as seen from `(x, y)`, both in angle units;
    /// the host supplies the bearings, which are the one piece of the
    /// geometry (an arc tangent) outside the fixed-point model. Any
    /// angle is accepted; all are normalized before use.
    pub fn process_vision(
        &self,
        x: u64,
        y: u64,
        heading: i64,
        foods: &Vec<Food>,
        bearings: &Vec<i64>,
    ) -> (cells: Vec<u64>)
        requires
            self.wf(),
            x <= MAX_COORD,
            y <= MAX_COORD,
            foods@.len() == bearings@.len(),
            foods@.len() <= MAX_FOODS_SEEN,
            forall|k: int|
                0 <= k < foods@.len() ==> (#[trigger] foods@[k]).x <= MAX_COORD && foods@[k].y
                    <= MAX_COORD,
        ensures
            cells@.len() == self.cells,
            forall|j: int|
                0 <= j < cells@.len() ==> #[trigger] cells@[j] as int == vision_spec(
                    *self,
                    x as int,
                    y as int,
                    heading as int,
                    foods@,
                    bearings@.map_values(|b: i64| b as int),
                )[j],
    {
        let ghost bseq = bearings@.map_values(|b: i64| b as int);
        let n_foods = foods.len();
        let mut vision: Vec<u64> = vec![0u64; self.cells];
        let mut i: usize = 0;
        while i < n_foods
            invariant
                self.wf(),
                x <= MAX_COORD,
                y <= MAX_COORD,
                foods@.len() == bearings@.len(),
                foods@.len() <= MAX_FOODS_SEEN,
                forall|k: int|
                    0 <= k < foods@.len() ==> (#[trigger] foods@[k]).x <= MAX_COORD && foods@[k].y
                        <= MAX_COORD,
                n_foods == foods@.len(),
                i <= n_foods,
                bseq == bearings@.map_values(|b: i64| b as int),
                vision@.len() == self.cells,
                forall|j: int|
                    0 <= j < vision@.len() ==> #[trigger] vision@[j] as int == vision_upto(
                        *self,
                        x as int,
                        y as int,
                        heading as int,
                        foods@,
                        bseq,
                        i as int,
                    )[j],
                forall|j: int| 0 <= j < vision@.len() ==> #[trigger] vision@[j] <= i * SCALE,
            decreases n_foods - i,
        {
            let ghost prev = vision_upto(
                *self,
                x as int,
                y as int,
                heading as int,
                foods@,
                bseq,
                i as int,
            );
            proof {
                lemma_vision_upto_len(
                    *self,
                    x as int,
                    y as int,
                    heading as int,
                    foods@,
                    bseq,
                    i as int,
                );
                lemma_vision_upto_len(
                    *self,
                    x as int,
                    y as int,
                    heading as int,
                    foods@,
                    bseq,
                    i + 1,
                );
            }
            let ghost pre_vec = vision@;
            let f = foods[i];
            let b = bearings[i];
            proof {
                assert(bseq[i as int] == b as int);
            }
            let dxu: u64 = if f.x >= x {
                f.x - x
            } else {
                x - f.x
            };
            let dyu: u64 = if f.y >= y {
                f.y - y
            } else {
                y - f.y
            };
            proof {
                assert(dxu * dxu <= MAX_COORD * MAX_COORD && dyu * dyu <= MAX_COORD * MAX_COORD)
                    by (nonlinear_arith)
                    requires
                        0 <= dxu <= MAX_COORD,
                        0 <= dyu <= MAX_COORD,
                ;
                assert(dxu * dxu == (f.x - x) * (f.x - x) && dyu * dyu == (f.y - y) * (f.y - y))
                    by (nonlinear_arith)
                    requires
                        dxu == f.x - x || dxu == x - f.x,
                        dyu == f.y - y || dyu == y - f.y,
                ;
                assert(self.fov_range * self.fov_range <= MAX_FOV_RANGE * MAX_FOV_RANGE)
                    by (nonlinear_arith)
                    requires
                        self.fov_range <= MAX_FOV_RANGE,
                ;
            }
            let d2: u64 = dxu * dxu + dyu * dyu;
            let range2: u64 = self.fov_range * self.fov_range;
            assert(d2 == dist_sq(x as int, y as int, f.x as int, f.y as int));
            let hw = wrap_angle(heading);
            let bw = wrap_angle(b);
            proof {
                lemma_wrap_angle_range(heading as int);
                lemma_wrap_angle_range(b as int);
            }
            let rel = wrap_angle(bw - hw);
            proof {
                lemma_wrap_angle_diff(b as int, heading as int);
                lemma_wrap_angle_range(b - heading);
                assert(rel == wrap_angle_spec(b - heading));
            }
            let fovi = self.fov_angle as i64;
            if d2 < range2 && 2 * rel >= -fovi && 2 * rel <= fovi {
                let shifted2: i64 = 2 * rel + fovi;
                let cells_n = self.cells as u64;
                proof {
                    assert((shifted2 as int) * (cells_n as int) <= u64::MAX) by (nonlinear_arith)
                        requires
                            0 <= shifted2 <= 0x11_0000_0000,
                            0 < cells_n <= 0x1_0000,
                    ;
                }
                let raw: u64 = (shifted2 as u64) * cells_n / (2 * self.fov_angle);
                let cell: usize = if raw >= cells_n {
                    self.cells - 1
                } else {
                    raw as usize
                };
                assert(cell == cell_index(rel as int, self.fov_angle as int, self.cells as int));
                let dist = isqrt(d2);
                proof {
                    assert(dist < self.fov_range) by (nonlinear_arith)
                        requires
                            0 <= dist,
                            dist * dist <= d2,
                            d2 < self.fov_range * self.fov_range,
                    ;
                    assert((self.fov_range - dist) * SCALE <= MAX_FOV_RANGE * SCALE)
                        by (nonlinear_arith)
                        requires
                            0 <= self.fov_range - dist <= MAX_FOV_RANGE,
                    ;
                    assert((self.fov_range - dist) * (SCALE as int) / (self.fov_range as int)
                        <= SCALE as int) by (nonlinear_arith)
                        requires
                            0 < self.fov_range,
                            0 <= dist < self.fov_range,
                    ;
                }
                let energy: u64 = (self.fov_range - dist) * SCALE / self.fov_range;
                assert(energy == energy_spec(
                    sqrt_floor(d2 as int),
                    self.fov_range as int,
                ));
                assert(cell < vision@.len());
                let cur = vision[cell];
                vision[cell] = cur + energy;
            }
            proof {
                let next = vision_upto(
                    *self,
                    x as int,
                    y as int,
                    heading as int,
                    foods@,
                    bseq,
                    i + 1,
                );
                assert(next == see_food(
                    *self,
                    x as int,
                    y as int,
                    heading as int,
                    foods@[i as int],
                    bseq[i as int],
                    prev,
                ));
                assert forall|j: int|
                    0 <= j < vision@.len() implies (#[trigger] vision@[j]) as int == next[j]
                    && vision@[j] <= (i + 1) * SCALE by {
                    assert(pre_vec[j] as int == prev[j]);
                    assert(pre_vec[j] <= i * SCALE);
                }
            }
            i = i + 1;
        }
        vision
    }
}

impl Default for Eye {
    /// The eye the simulation gives every fresh agent.
    fn default() -> (eye: Eye)
        ensures
            eye == default_eye(),
            eye.wf(),
    {
        Eye { fov_range: FOV_RANGE, fov_angle: FOV_ANGLE, cells: CELLS }
    }
}

} // verus!
