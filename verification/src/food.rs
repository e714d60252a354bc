//! Food placement: the free cells of a board, and the choice of one of them.

use crate::grid::Grid;
use crate::grid::Position;
use crate::snake::occupies;
use rand::Rng;
use vstd::prelude::*;

verus! {

/// The test "`occupied` does not hold this cell".
pub open spec fn is_free(occupied: Seq<Position>) -> spec_fn(Position) -> bool {
    |p: Position| !occupied.contains(p)
}

/// The cells of `grid` that `occupied` does not hold, in scan order.
pub open spec fn spec_free_cells(grid: Grid, occupied: Seq<Position>) -> Seq<Position> {
    grid.cells().filter(is_free(occupied))
}

/// The cell of `free` that the number `roll` selects, counting round and
/// round; none if `free` is empty.
pub open spec fn spec_choose_cell(free: Seq<Position>, roll: int) -> Option<Position> {
    if free.len() == 0 {
        None
    } else {
        Some(free[roll % (free.len() as int)])
    }
}

/// Where food goes on `grid` when `occupied` is taken and the draw is
/// `roll`.
pub open spec fn spec_place_food_with(grid: Grid, occupied: Seq<Position>, roll: int) -> Option<
    Position,
> {
    spec_choose_cell(spec_free_cells(grid, occupied), roll)
}

/// Filtering a sequence that ends in `last` filters what comes before and
/// then decides on `last`.
proof fn lemma_filter_push(s: Seq<Position>, last: Position, keep: spec_fn(Position) -> bool)
    ensures
        s.push(last).filter(keep) == if keep(last) {
            s.filter(keep).push(last)
        } else {
            s.filter(keep)
        },
{
    reveal(Seq::filter);
    assert(s.push(last).drop_last() =~= s);
}

/// Filtering keeps distinct cells distinct.
proof fn lemma_filter_distinct(s: Seq<Position>, keep: spec_fn(Position) -> bool)
    requires
        s.no_duplicates(),
    ensures
        s.filter(keep).no_duplicates(),
    decreases s.len(),
{
    reveal(Seq::filter);
    if s.len() > 0 {
        let rest = s.drop_last();
        lemma_filter_distinct(rest, keep);
        if keep(s.last()) {
            let kept = rest.filter(keep);
            if kept.contains(s.last()) {
                rest.lemma_filter_contains_rev(keep, s.last());
                let i = choose|i: int| 0 <= i < rest.len() && rest[i] == s.last();
                assert(s[i] == s[s.len() - 1]);
            }
        }
    }
}

/// The free cells are the cells of the board that are not occupied, each
/// listed once.
pub proof fn lemma_free_cells(grid: Grid, occupied: Seq<Position>)
    requires
        grid.wf(),
    ensures
        spec_free_cells(grid, occupied).no_duplicates(),
        forall|p: Position| #[trigger]
            spec_free_cells(grid, occupied).contains(p) <==> grid.contains(p) && !occupied.contains(
                p,
            ),
        spec_free_cells(grid, occupied).len() == 0 <==> forall|p: Position|
            grid.contains(p) ==> occupied.contains(p),
{
    let cells = grid.cells();
    let keep = is_free(occupied);
    let free = spec_free_cells(grid, occupied);
    grid.lemma_cells();
    lemma_filter_distinct(cells, keep);
    assert forall|p: Position| #[trigger]
        free.contains(p) <==> grid.contains(p) && !occupied.contains(p) by {
        if free.contains(p) {
            cells.lemma_filter_contains_rev(keep, p);
            let i = choose|i: int| 0 <= i < free.len() && free[i] == p;
            cells.lemma_filter_pred(keep, i);
        }
        if grid.contains(p) && !occupied.contains(p) {
            assert(cells.contains(p));
            let k = choose|k: int| 0 <= k < cells.len() && cells[k] == p;
            cells.lemma_filter_contains(keep, k);
        }
    }
    if free.len() == 0 {
        assert forall|p: Position| grid.contains(p) implies occupied.contains(p) by {
            if !occupied.contains(p) {
                assert(free.contains(p));
            }
        }
    } else {
        assert(free.contains(free[0]));
    }
}

/// Food is never placed on an occupied cell or off the board, and is
/// withheld exactly when no cell is free. Where the occupied cells are
/// distinct cells of the board, that is exactly when they are as many as
/// the board has cells.
pub proof fn lemma_place_food(grid: Grid, occupied: Seq<Position>, roll: int)
    requires
        grid.wf(),
    ensures
        spec_place_food_with(grid, occupied, roll) matches Some(p) ==> grid.contains(p)
            && !occupied.contains(p),
        spec_place_food_with(grid, occupied, roll) is None <==> forall|p: Position|
            grid.contains(p) ==> occupied.contains(p),
        occupied.no_duplicates() && (forall|i: int|
            0 <= i < occupied.len() ==> grid.contains(#[trigger] occupied[i])) ==> (
        spec_place_food_with(grid, occupied, roll) is None <==> occupied.len()
            == grid.spec_cell_count()),
{
    let free = spec_free_cells(grid, occupied);
    lemma_free_cells(grid, occupied);
    if free.len() > 0 {
        let k = roll % (free.len() as int);
        assert(free.contains(free[k]));
    }
    if occupied.no_duplicates() && (forall|i: int|
        0 <= i < occupied.len() ==> grid.contains(#[trigger] occupied[i])) {
        grid.lemma_occupancy(occupied);
    }
}

/// The cells of `bounds` that `occupied` does not hold, in scan order.
pub fn free_cells(occupied: &Vec<Position>, bounds: &Grid) -> (free: Vec<Position>)
    requires
        bounds.wf(),
    ensures
        free@ == spec_free_cells(*bounds, occupied@),
{
    let ghost cells = bounds.cells();
    let ghost keep = is_free(occupied@);
    let width: i32 = bounds.width();
    let height: i32 = bounds.height();
    let mut free: Vec<Position> = Vec::new();
    let mut x: i32 = 0;
    proof {
        reveal(Seq::filter);
        assert(0 * height == 0) by (nonlinear_arith);
    }
    while x < width
        invariant
            bounds.wf(),
            width == bounds.cols(),
            height == bounds.rows(),
            cells == bounds.cells(),
            keep == is_free(occupied@),
            0 <= x <= width,
            free@ == cells.take(x * height).filter(keep),
        decreases width - x,
    {
        let mut y: i32 = 0;
        while y < height
            invariant
                bounds.wf(),
                width == bounds.cols(),
                height == bounds.rows(),
                cells == bounds.cells(),
                keep == is_free(occupied@),
                0 <= x < width,
                0 <= y <= height,
                free@ == cells.take(x * height + y).filter(keep),
            decreases height - y,
        {
            let p = Position { x, y };
            proof {
                let k = x * height + y;
                bounds.lemma_index_of(p);
                assert(cells.take(k + 1) =~= cells.take(k).push(p));
                lemma_filter_push(cells.take(k), p, keep);
            }
            if !occupies(occupied, p) {
                free.push(p);
            }
            y += 1;
        }
        proof {
            assert(x * height + height == (x + 1) * height) by (nonlinear_arith);
        }
        x += 1;
    }
    proof {
        assert(cells.take(width * height) =~= cells);
    }
    free
}

/// The cell of `free` that the number `roll` selects, counting round and
/// round; none if `free` is empty.
pub fn choose_cell(free: &Vec<Position>, roll: usize) -> (r: Option<Position>)
    ensures
        r == spec_choose_cell(free@, roll as int),
{
    if free.len() == 0 {
        None
    } else {
        Some(free[roll % free.len()])
    }
}

/// Draws a number below `n` from the thread's random generator
/// (`rand::rng`) with `Rng::random_range(0..n)`. Believed of the call: the
/// number lies in the range. The call panics on an empty range, which `n >
/// 0` rules out. The generator also panics when the system's source of
/// randomness fails as a thread first uses it or as it reseeds; no argument
/// decides that, and nothing here guards against it. That every number is
/// equally likely is the generator's promise and is not stated here.
#[verifier::external_body]
fn random_index(n: usize) -> (i: usize)
    requires
        n > 0,
    ensures
        i < n,
{
    rand::rng().random_range(0..n)
}

/// Places food with the draw `fixed`, or with a random draw where none is
/// given.
pub(crate) fn place_food_drawn(occupied: &Vec<Position>, bounds: &Grid, fixed: Option<usize>) -> (r:
    Option<Position>)
    requires
        bounds.wf(),
    ensures
        exists|roll: int|
            {
                &&& 0 <= roll
                &&& fixed matches Some(f) ==> roll == f
                &&& r == #[trigger] spec_place_food_with(*bounds, occupied@, roll)
            },
{
    let free = free_cells(occupied, bounds);
    let roll: usize = match fixed {
        Some(f) => f,
        None => if free.len() > 0 {
            random_index(free.len())
        } else {
            0
        },
    };
    let r = choose_cell(&free, roll);
    assert(r == spec_place_food_with(*bounds, occupied@, roll as int));
    r
}

/// Where food goes on `bounds` when `occupied` is taken and the draw is
/// `roll`: on the free cell that `roll` selects, or nowhere if no cell is
/// free.
pub fn place_food_with(occupied: &Vec<Position>, bounds: &Grid, roll: usize) -> (r: Option<
    Position,
>)
    requires
        bounds.wf(),
    ensures
        r == spec_place_food_with(*bounds, occupied@, roll as int),
{
    place_food_drawn(occupied, bounds, Some(roll))
}

/// Chooses at random a cell of `bounds` that `occupied` does not hold. The
/// result is never an occupied cell and never off the board, and it is
/// none exactly when no cell is free. Every free cell is listed once and
/// one index into that list is drawn, so the call always returns.
pub fn place_food(occupied: &Vec<Position>, bounds: &Grid) -> (r: Option<Position>)
    requires
        bounds.wf(),
    ensures
        exists|roll: int| 0 <= roll && r == #[trigger] spec_place_food_with(*bounds, occupied@, roll),
        r matches Some(p) ==> bounds.contains(p) && !occupied@.contains(p),
        r is None <==> forall|p: Position| bounds.contains(p) ==> occupied@.contains(p),
        occupied@.no_duplicates() && (forall|i: int|
            0 <= i < occupied@.len() ==> bounds.contains(#[trigger] occupied@[i])) ==> (r is None
            <==> occupied@.len() == bounds.spec_cell_count()),
{
    let r = place_food_drawn(occupied, bounds, None);
    proof {
        let roll = choose|roll: int|
            0 <= roll && r == #[trigger] spec_place_food_with(*bounds, occupied@, roll);
        lemma_place_food(*bounds, occupied@, roll);
    }
    r
}

} // verus!
