use crate::direction::in_grid;
use crate::universe::{Food, Universe, UniverseView};
use vstd::prelude::*;

verus! {

/// The unit step of ray `k`. The eight rays are the neighbours of a cell,
/// column by column: `x - 1` first, and within a column `y - 1` first.
pub open spec fn ray_delta(k: int) -> (int, int) {
    if k == 0 {
        (-1, -1)
    } else if k == 1 {
        (-1, 0)
    } else if k == 2 {
        (-1, 1)
    } else if k == 3 {
        (0, -1)
    } else if k == 4 {
        (0, 1)
    } else if k == 5 {
        (1, -1)
    } else if k == 6 {
        (1, 0)
    } else {
        (1, 1)
    }
}

/// The point at distance `i` from `origin` along ray `k`.
pub open spec fn ray_point(origin: (u64, u64), k: int, i: int) -> (int, int) {
    (origin.0 + i * ray_delta(k).0, origin.1 + i * ray_delta(k).1)
}

impl UniverseView {
    /// What the first snake's ray `k` meets at distance `i` from its head. A
    /// ray that looks for obstacles is stopped by the snake's own body and by
    /// every point off the grid; a ray that looks for food is stopped by food.
    pub open spec fn ray_hits(self, k: int, i: int, seek_food: bool) -> bool {
        let p = ray_point(self.snakes[0].positions[0], k, i);
        if seek_food {
            in_grid(p.0, p.1, self.width, self.height) && self.food.contains(
                Food(p.0 as u64, p.1 as u64),
            )
        } else {
            !in_grid(p.0, p.1, self.width, self.height) || self.snakes[0].positions.contains(
                (p.0 as u64, p.1 as u64),
            )
        }
    }

    /// `value` is the signal of ray `k` at sight `range`: `range - i` where
    /// `i` is the least distance in `1..=range` at which the ray is stopped,
    /// and 0 where it is stopped nowhere in that reach. Divided by `range`,
    /// this is the closeness `1 - i / range` of what the ray met.
    pub open spec fn is_signal(self, k: int, seek_food: bool, range: u64, value: u64) -> bool {
        &&& value == 0 || value < range
        &&& forall|j: int| 1 <= j < range - value ==> !#[trigger] self.ray_hits(k, j, seek_food)
        &&& value > 0 ==> self.ray_hits(k, range - value, seek_food)
    }
}

/// A ray has one signal only.
pub proof fn lemma_signal_unique(
    u: UniverseView,
    k: int,
    seek_food: bool,
    range: u64,
    a: u64,
    b: u64,
)
    requires
        u.is_signal(k, seek_food, range, a),
        u.is_signal(k, seek_food, range, b),
    ensures
        a == b,
{
    if a < b {
        assert(u.ray_hits(k, range - b, seek_food));
    }
    if b < a {
        assert(u.ray_hits(k, range - a, seek_food));
    }
}

proof fn lemma_ray_point(origin: (u64, u64), k: int, i: int)
    ensures
        ray_delta(k).0 == 0 ==> ray_point(origin, k, i).0 == origin.0,
        ray_delta(k).0 == 1 ==> ray_point(origin, k, i).0 == origin.0 + i,
        ray_delta(k).0 == -1 ==> ray_point(origin, k, i).0 == origin.0 - i,
        ray_delta(k).1 == 0 ==> ray_point(origin, k, i).1 == origin.1,
        ray_delta(k).1 == 1 ==> ray_point(origin, k, i).1 == origin.1 + i,
        ray_delta(k).1 == -1 ==> ray_point(origin, k, i).1 == origin.1 - i,
{
    assert(i * 0 == 0 && i * 1 == i && i * (-1) == -i) by (nonlinear_arith);
}

/// The unit step of ray `k`, each part as -1, 0 or 1.
fn ray_unit(k: usize) -> (r: (i8, i8))
    requires
        k < 8,
    ensures
        (r.0 as int, r.1 as int) == ray_delta(k as int),
{
    if k == 0 {
        (-1, -1)
    } else if k == 1 {
        (-1, 0)
    } else if k == 2 {
        (-1, 1)
    } else if k == 3 {
        (0, -1)
    } else if k == 4 {
        (0, 1)
    } else if k == 5 {
        (1, -1)
    } else if k == 6 {
        (1, 0)
    } else {
        (1, 1)
    }
}

/// One coordinate of a ray point: `origin + i * unit`.
fn ray_coord(origin: u64, unit: i8, i: u64) -> (r: i128)
    requires
        -1 <= unit <= 1,
    ensures
        unit == 0 ==> r == origin,
        unit == 1 ==> r == origin + i,
        unit == -1 ==> r == origin - i,
{
    if unit == 0 {
        origin as i128
    } else if unit > 0 {
        origin as i128 + i as i128
    } else {
        origin as i128 - i as i128
    }
}

impl Universe {
    /// Casts ray `k` from the first snake's head, up to `range` cells far, and
    /// returns its signal: for obstacles where `seek_food` is false, for food
    /// where it is true.
    pub fn cast_ray(&self, k: usize, range: u64, seek_food: bool) -> (value: u64)
        requires
            self@.wf(),
            self@.snakes.len() >= 1,
            k < 8,
        ensures
            self@.is_signal(k as int, seek_food, range, value),
    {
        assert(self@.snakes[0].wf());
        let head = self.snakes[0].positions[0];
        assert(head == self@.snakes[0].positions[0]);
        assert(head.0 < self.width && head.1 < self.height);
        let unit = ray_unit(k);
        let mut d: u64 = 0;
        while d < range
            invariant
                d <= range,
                k < 8,
                self@.wf(),
                self@.snakes.len() >= 1,
                head == self@.snakes[0].positions[0],
                head.0 < self.width && head.1 < self.height,
                (unit.0 as int, unit.1 as int) == ray_delta(k as int),
                forall|j: int| 1 <= j <= d ==> !#[trigger] self@.ray_hits(k as int, j, seek_food),
            decreases range - d,
        {
            let i = d + 1;
            let px = ray_coord(head.0, unit.0, i);
            let py = ray_coord(head.1, unit.1, i);
            proof {
                lemma_ray_point(head, k as int, i as int);
            }
            let inside = 0 <= px && px < self.width as i128 && 0 <= py && py < self.height as i128;
            let hit = if seek_food {
                inside && self.food_index(px as u64, py as u64).is_some()
            } else {
                !inside || self.snakes[0].is_in_position(px as u64, py as u64)
            };
            assert(hit == self@.ray_hits(k as int, i as int, seek_food));
            if hit {
                return range - i;
            }
            if !inside {
                // A ray that has left the grid never comes back: no food lies ahead.
                assert forall|j: int| i < j implies !#[trigger] self@.ray_hits(
                    k as int,
                    j,
                    seek_food,
                ) by {
                    lemma_ray_point(head, k as int, j);
                }
                return 0;
            }
            d += 1;
        }
        0
    }
}

} // verus!
