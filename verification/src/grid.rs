//! The board: cells, headings and the rectangle that bounds them.

use vstd::arithmetic::div_mod::lemma_fundamental_div_mod;
use vstd::arithmetic::div_mod::lemma_fundamental_div_mod_converse;
use vstd::prelude::*;
use vstd::seq_lib::seq_to_set_is_finite;
use vstd::set_lib::lemma_len_subset;
use vstd::set_lib::lemma_subset_equality;

verus! {

/// A cell address: column `x`, row `y`. Addresses outside the board are
/// representable, so that a step off the edge can be named and rejected.
#[derive(Clone, Copy, Debug, PartialEq, Eq, Structural)]
pub struct Position {
    pub x: i32,
    pub y: i32,
}

/// The direction in which the snake's head moves. `Up` increases `y`.
#[derive(Clone, Copy, Debug, PartialEq, Eq, Structural)]
pub enum Heading {
    Up,
    Down,
    Left,
    Right,
}

impl Heading {
    /// The heading that points the other way.
    pub open spec fn spec_opposite(self) -> Heading {
        match self {
            Heading::Up => Heading::Down,
            Heading::Down => Heading::Up,
            Heading::Left => Heading::Right,
            Heading::Right => Heading::Left,
        }
    }

    /// The heading that points the other way.
    #[verifier::when_used_as_spec(spec_opposite)]
    pub fn opposite(self) -> (h: Heading)
        ensures
            h == self.spec_opposite(),
    {
        match self {
            Heading::Up => Heading::Down,
            Heading::Down => Heading::Up,
            Heading::Left => Heading::Right,
            Heading::Right => Heading::Left,
        }
    }

    /// Whether the heading runs along the `y` axis.
    pub open spec fn spec_is_vertical(self) -> bool {
        self == Heading::Up || self == Heading::Down
    }

    /// Whether the heading runs along the `y` axis.
    #[verifier::when_used_as_spec(spec_is_vertical)]
    pub fn is_vertical(self) -> (b: bool)
        ensures
            b == self.spec_is_vertical(),
    {
        match self {
            Heading::Up | Heading::Down => true,
            Heading::Left | Heading::Right => false,
        }
    }
}

impl Position {
    /// The address one cell away in the direction `h`.
    pub open spec fn spec_neighbor(self, h: Heading) -> Position {
        match h {
            Heading::Up => Position { x: self.x, y: (self.y + 1) as i32 },
            Heading::Down => Position { x: self.x, y: (self.y - 1) as i32 },
            Heading::Left => Position { x: (self.x - 1) as i32, y: self.y },
            Heading::Right => Position { x: (self.x + 1) as i32, y: self.y },
        }
    }

    /// The address one cell away in the direction `h`.
    #[verifier::when_used_as_spec(spec_neighbor)]
    pub fn neighbor(self, h: Heading) -> (p: Position)
        requires
            i32::MIN < self.x < i32::MAX,
            i32::MIN < self.y < i32::MAX,
        ensures
            p == self.spec_neighbor(h),
    {
        match h {
            Heading::Up => Position { x: self.x, y: self.y + 1 },
            Heading::Down => Position { x: self.x, y: self.y - 1 },
            Heading::Left => Position { x: self.x - 1, y: self.y },
            Heading::Right => Position { x: self.x + 1, y: self.y },
        }
    }
}

/// A board of `cols() * rows()` cells. The cell in column `x` and row `y`
/// exists for `0 <= x < cols()` and `0 <= y < rows()`; the board has no
/// wraparound.
#[derive(Clone, Copy, Debug, PartialEq, Eq, Structural)]
pub struct Grid {
    width: i32,
    height: i32,
}

impl Grid {
    /// Number of columns.
    pub closed spec fn cols(self) -> int {
        self.width as int
    }

    /// Number of rows.
    pub closed spec fn rows(self) -> int {
        self.height as int
    }

    /// A board has at least one column and one row.
    pub open spec fn wf(self) -> bool {
        &&& 0 < self.cols() <= i32::MAX
        &&& 0 < self.rows() <= i32::MAX
    }

    /// Number of cells on the board.
    pub open spec fn spec_cell_count(self) -> nat {
        (self.cols() * self.rows()) as nat
    }

    /// Whether `p` addresses a cell of the board.
    pub open spec fn spec_contains(&self, p: Position) -> bool {
        &&& 0 <= p.x < self.cols()
        &&& 0 <= p.y < self.rows()
    }

    /// The place of the cell `p` in the scan order of [`Grid::cells`].
    pub open spec fn index_of(self, p: Position) -> int {
        p.x * self.rows() + p.y
    }

    /// The cell at place `k` of the scan order.
    pub open spec fn cell_at(self, k: int) -> Position {
        Position { x: (k / self.rows()) as i32, y: (k % self.rows()) as i32 }
    }

    /// Every cell of the board exactly once, column by column, each column
    /// from row zero upwards.
    pub open spec fn cells(self) -> Seq<Position> {
        Seq::new(self.spec_cell_count(), |k: int| self.cell_at(k))
    }

    /// A board of `width` columns and `height` rows, if both are positive.
    pub fn new(width: i32, height: i32) -> (g: Option<Grid>)
        ensures
            g is Some <==> width > 0 && height > 0,
            g matches Some(grid) ==> grid.wf() && grid.cols() == width && grid.rows() == height,
    {
        if width > 0 && height > 0 {
            Some(Grid { width, height })
        } else {
            None
        }
    }

    /// Number of columns.
    pub fn width(&self) -> (w: i32)
        ensures
            w == self.cols(),
    {
        self.width
    }

    /// Number of rows.
    pub fn height(&self) -> (h: i32)
        ensures
            h == self.rows(),
    {
        self.height
    }

    /// Number of cells on the board.
    pub fn cell_count(&self) -> (n: u64)
        requires
            self.wf(),
        ensures
            n == self.spec_cell_count(),
    {
        let w: u64 = self.width as u64;
        let h: u64 = self.height as u64;
        assert(0 <= w * h <= 0x7fff_ffff * 0x7fff_ffff) by (nonlinear_arith)
            requires
                0 <= w <= 0x7fff_ffff,
                0 <= h <= 0x7fff_ffff,
        ;
        w * h
    }

    /// Whether `p` addresses a cell of the board.
    #[verifier::when_used_as_spec(spec_contains)]
    pub fn contains(&self, p: Position) -> (b: bool)
        ensures
            b == self.spec_contains(p),
    {
        0 <= p.x && p.x < self.width && 0 <= p.y && p.y < self.height
    }

    /// A cell of the board sits at its own index in the scan order.
    pub proof fn lemma_index_of(self, p: Position)
        requires
            self.wf(),
            self.contains(p),
        ensures
            0 <= self.index_of(p) < self.cells().len(),
            self.cells()[self.index_of(p)] == p,
    {
        let rows = self.rows();
        let cols = self.cols();
        let k = self.index_of(p);
        assert(0 <= p.x * rows && (p.x + 1) * rows <= cols * rows) by (nonlinear_arith)
            requires
                0 <= p.x < cols,
                0 < rows,
        ;
        assert((p.x + 1) * rows == p.x * rows + rows) by (nonlinear_arith);
        lemma_fundamental_div_mod_converse(k, rows, p.x as int, p.y as int);
    }

    /// Every place of the scan order holds a cell of the board, at its own
    /// index.
    pub proof fn lemma_cell_at(self, k: int)
        requires
            self.wf(),
            0 <= k < self.cells().len(),
        ensures
            self.contains(self.cells()[k]),
            self.index_of(self.cells()[k]) == k,
    {
        let rows = self.rows();
        let cols = self.cols();
        let q = k / rows;
        let r = k % rows;
        lemma_fundamental_div_mod(k, rows);
        assert(0 <= q < cols) by (nonlinear_arith)
            requires
                0 <= k < cols * rows,
                0 < rows,
                k == rows * q + r,
                0 <= r < rows,
        ;
        assert(rows * q == q * rows) by (nonlinear_arith);
    }

    /// The scan order names each cell once, and names exactly the cells of
    /// the board.
    pub proof fn lemma_cells(self)
        requires
            self.wf(),
        ensures
            self.cells().len() == self.spec_cell_count(),
            self.cells().no_duplicates(),
            forall|p: Position| self.contains(p) <==> #[trigger] self.cells().contains(p),
    {
        let cells = self.cells();
        assert forall|i: int, j: int|
            0 <= i < cells.len() && 0 <= j < cells.len() && i != j implies cells[i]
            != cells[j] by {
            self.lemma_cell_at(i);
            self.lemma_cell_at(j);
        }
        assert forall|p: Position| self.contains(p) <==> #[trigger] cells.contains(p) by {
            if self.contains(p) {
                self.lemma_index_of(p);
            }
            if cells.contains(p) {
                let k = choose|k: int| 0 <= k < cells.len() && cells[k] == p;
                self.lemma_cell_at(k);
            }
        }
    }

    /// Distinct cells of the board are at most as many as the board has
    /// cells, and exactly as many when, and only when, they cover it.
    pub proof fn lemma_occupancy(self, occupied: Seq<Position>)
        requires
            self.wf(),
            occupied.no_duplicates(),
            forall|i: int| 0 <= i < occupied.len() ==> self.contains(#[trigger] occupied[i]),
        ensures
            occupied.len() <= self.spec_cell_count(),
            occupied.len() == self.spec_cell_count() <==> forall|p: Position|
                self.contains(p) ==> occupied.contains(p),
    {
        let cells = self.cells();
        self.lemma_cells();
        cells.unique_seq_to_set();
        occupied.unique_seq_to_set();
        seq_to_set_is_finite(cells);
        seq_to_set_is_finite(occupied);
        assert(occupied.to_set().subset_of(cells.to_set())) by {
            assert forall|p: Position| occupied.contains(p) implies cells.contains(p) by {
                let i = choose|i: int| 0 <= i < occupied.len() && occupied[i] == p;
                assert(self.contains(occupied[i]));
            }
        }
        lemma_len_subset(occupied.to_set(), cells.to_set());
        if occupied.len() == self.spec_cell_count() {
            lemma_subset_equality(occupied.to_set(), cells.to_set());
            assert forall|p: Position| self.contains(p) implies occupied.contains(p) by {
                assert(occupied.to_set().contains(p));
            }
        }
        if forall|p: Position| self.contains(p) ==> occupied.contains(p) {
            assert(cells.to_set() =~= occupied.to_set());
        }
    }
}

} // verus!
