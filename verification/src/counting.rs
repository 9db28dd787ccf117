use crate::universe::{Food, UniverseView};
use vstd::prelude::*;
use vstd::relations::injective_on;
use vstd::set_lib::{lemma_int_range, lemma_len_subset, lemma_map_size, set_int_range};

verus! {

/// The number that stands for the cell `c` on a grid `height` cells high.
pub open spec fn cell_code(c: (u64, u64), height: u64) -> int {
    c.0 * height + c.1
}

proof fn lemma_cell_code(x: int, y: int, w: int, h: int)
    requires
        0 <= x < w,
        0 <= y < h,
    ensures
        0 <= x * h + y < w * h,
        (x * h + y) / h == x,
        (x * h + y) % h == y,
{
    assert(x * h + y < w * h) by (nonlinear_arith)
        requires
            0 <= x < w,
            0 <= y < h,
    {
        assert((x + 1) * h <= w * h);
    }
    assert(0 <= x * h) by (nonlinear_arith)
        requires
            0 <= x,
            0 < h,
    ;
    vstd::arithmetic::div_mod::lemma_fundamental_div_mod_converse(x * h + y, h, x, y);
}

proof fn lemma_code_cell(n: int, w: int, h: int)
    requires
        0 <= n < w * h,
        0 < h,
    ensures
        0 <= n / h < w,
        0 <= n % h < h,
        (n / h) * h + n % h == n,
{
    vstd::arithmetic::div_mod::lemma_fundamental_div_mod(n, h);
    assert(0 <= n % h < h) by (nonlinear_arith)
        requires
            0 < h,
    ;
    assert(0 <= n / h) by (nonlinear_arith)
        requires
            0 <= n,
            0 < h,
    ;
    assert(n / h < w) by (nonlinear_arith)
        requires
            n == h * (n / h) + n % h,
            0 <= n % h,
            n < w * h,
            0 < h,
    ;
    assert((n / h) * h == h * (n / h)) by (nonlinear_arith);
}

impl UniverseView {
    /// The cells that hold something on a grid with at most one snake: the
    /// body first, then the food.
    pub open spec fn held_cells(self) -> Seq<(u64, u64)> {
        let body = if self.snakes.len() == 0 {
            Seq::<(u64, u64)>::empty()
        } else {
            self.snakes[0].positions
        };
        body + self.food.map_values(|f: Food| (f.0, f.1))
    }
}

/// On a valid grid with at most one snake, a cell is free exactly when the
/// body and the food together hold fewer cells than the grid has.
pub proof fn lemma_room_for_food(u: UniverseView)
    requires
        u.wf(),
        u.snakes.len() <= 1,
    ensures
        u.has_free_cell() <==> u.held_cells().len() < u.width * u.height,
{
    let w = u.width as int;
    let h = u.height as int;
    let cells = u.held_cells();
    let body = if u.snakes.len() == 0 {
        Seq::<(u64, u64)>::empty()
    } else {
        u.snakes[0].positions
    };
    let meals = u.food.map_values(|f: Food| (f.0, f.1));
    assert(cells == body + meals);
    if u.snakes.len() == 1 {
        assert(u.snakes[0].wf());
        assert(u.snakes[0].within(u.width, u.height));
    }
    // Every held cell is on the grid, and none is held twice.
    assert forall|i: int| 0 <= i < cells.len() implies (#[trigger] cells[i]).0 < w && cells[i].1
        < h by {
        if i >= body.len() {
            assert(cells[i] == meals[i - body.len()]);
            assert(u.food[i - body.len()].0 < w);
        } else {
            assert(cells[i] == body[i]);
        }
    }
    assert forall|i: int, j: int| 0 <= i < cells.len() && 0 <= j < cells.len() && i != j implies cells[i]
        != cells[j] by {
        if i < body.len() && j < body.len() {
        } else if i >= body.len() && j >= body.len() {
            let a = i - body.len();
            let b = j - body.len();
            assert(u.food[a] != u.food[b]);
        } else {
            let (p, q) = if i < body.len() {
                (i, j - body.len())
            } else {
                (j, i - body.len())
            };
            let f = u.food[q];
            assert(!u.occupied(f.0, f.1));
            if body[p] == (f.0, f.1) {
                assert(u.snakes[0].positions.contains((f.0, f.1)));
            }
        }
    }
    cells.unique_seq_to_set();
    let held = cells.to_set();
    let code = |c: (u64, u64)| cell_code(c, u.height);
    assert(held.finite());
    assert forall|c: (u64, u64)| held.contains(c) implies c.0 < w && c.1 < h by {
        let i = choose|i: int| 0 <= i < cells.len() && cells[i] == c;
        assert(cells[i].0 < w);
    }
    assert(injective_on(code, held)) by {
        assert forall|a: (u64, u64), b: (u64, u64)|
            held.contains(a) && held.contains(b) && #[trigger] code(a) == #[trigger] code(
                b,
            ) implies a == b by {
            lemma_cell_code(a.0 as int, a.1 as int, w, h);
            lemma_cell_code(b.0 as int, b.1 as int, w, h);
        }
    }
    let codes = held.map(code);
    lemma_map_size(held, codes, code);
    assert(0 <= w * h) by (nonlinear_arith)
        requires
            0 <= w,
            0 <= h,
    ;
    let range = set_int_range(0, w * h);
    lemma_int_range(0, w * h);
    assert forall|n: int| codes.contains(n) implies range.contains(n) by {
        let c = choose|c: (u64, u64)| held.contains(c) && n == code(c);
        lemma_cell_code(c.0 as int, c.1 as int, w, h);
    }
    lemma_len_subset(codes, range);
    if u.has_free_cell() {
        let (x, y) = choose|x: u64, y: u64| u.is_free(x, y);
        let n = cell_code((x, y), u.height);
        lemma_cell_code(x as int, y as int, w, h);
        if codes.contains(n) {
            let c = choose|c: (u64, u64)| held.contains(c) && n == code(c);
            lemma_cell_code(c.0 as int, c.1 as int, w, h);
            assert(c == (x, y));
            let i = choose|i: int| 0 <= i < cells.len() && cells[i] == c;
            if i < body.len() {
                assert(u.snakes[0].positions.contains((x, y)));
                assert(u.occupied(x, y));
            } else {
                assert(u.food[i - body.len()] == Food(x, y));
                assert(u.food.contains(Food(x, y)));
            }
        }
        let rest = range.remove(n);
        assert(codes.subset_of(rest));
        lemma_len_subset(codes, rest);
    }
    if cells.len() < w * h {
        if codes =~= range {
        } else {
            assert(!range.subset_of(codes)) by {
                if range.subset_of(codes) {
                    assert(codes =~= range);
                }
            }
            let n = choose|n: int| range.contains(n) && !codes.contains(n);
            assert(0 < h) by (nonlinear_arith)
                requires
                    0 <= n < w * h,
                    0 <= w,
                    0 <= h,
            ;
            lemma_code_cell(n, w, h);
            let x = (n / h) as u64;
            let y = (n % h) as u64;
            assert(code((x, y)) == n);
            if held.contains((x, y)) {
                assert(codes.contains(code((x, y))));
            }
            if u.occupied(x, y) {
                let i = choose|i: int|
                    0 <= i < u.snakes.len() && (#[trigger] u.snakes[i]).positions.contains((x, y));
                let p = choose|p: int| 0 <= p < body.len() && body[p] == (x, y);
                assert(cells[p] == (x, y));
            }
            if u.food.contains(Food(x, y)) {
                let q = choose|q: int| 0 <= q < u.food.len() && u.food[q] == Food(x, y);
                assert(cells[body.len() + q] == meals[q]);
                assert(cells[body.len() + q] == (x, y));
            }
            assert(u.is_free(x, y));
        }
    }
}

} // verus!
