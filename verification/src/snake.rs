//! The snake: an ordered run of distinct cells, tail first, head last.

use crate::grid::Grid;
use crate::grid::Heading;
use crate::grid::Position;
use vstd::prelude::*;

verus! {

/// Why a proposed body is not a snake.
#[derive(Clone, Copy, Debug, PartialEq, Eq, Structural)]
pub enum SnakeError {
    /// Fewer than two cells.
    TooShort,
    /// Some cell lies outside the board.
    OutOfBounds,
    /// Some cell occurs twice.
    Overlap,
}

/// What a snake is, as a mathematical value.
pub struct SnakeView {
    /// The board the snake lives on.
    pub grid: Grid,
    /// The occupied cells from tail to head.
    pub body: Seq<Position>,
    /// The direction of the next move.
    pub heading: Heading,
}

impl SnakeView {
    /// Every cell of the body lies on the board.
    pub open spec fn in_bounds(self) -> bool {
        forall|i: int| 0 <= i < self.body.len() ==> self.grid.contains(#[trigger] self.body[i])
    }

    /// The first reason, if any, why this value is not a snake.
    pub open spec fn defect(self) -> Option<SnakeError> {
        if self.body.len() < 2 {
            Some(SnakeError::TooShort)
        } else if !self.in_bounds() {
            Some(SnakeError::OutOfBounds)
        } else if !self.body.no_duplicates() {
            Some(SnakeError::Overlap)
        } else {
            None
        }
    }

    /// A snake has at least two cells, all on its board, none twice.
    pub open spec fn wf(self) -> bool {
        &&& self.grid.wf()
        &&& self.body.len() >= 2
        &&& self.in_bounds()
        &&& self.body.no_duplicates()
    }

    /// The snake every game starts with on `grid`: two cells, the tail at
    /// the origin and the head one row above it, heading up.
    pub open spec fn initial(grid: Grid) -> SnakeView {
        SnakeView {
            grid,
            body: seq![Position { x: 0, y: 0 }, Position { x: 0, y: 1 }],
            heading: Heading::Up,
        }
    }

    /// The head is the last cell of the body.
    pub open spec fn head(self) -> Position {
        self.body.last()
    }

    /// The cell the head would enter by one move in the direction `heading`.
    pub open spec fn candidate_head(self, heading: Heading) -> Position {
        self.head().neighbor(heading)
    }

    /// Whether the head cannot enter `candidate`: it is off the board, or
    /// the body covers it now. The tail cell counts, although a move would
    /// vacate it.
    pub open spec fn blocks(self, candidate: Position) -> bool {
        !self.grid.contains(candidate) || self.body.contains(candidate)
    }

    /// The snake after its head has entered `new_head`: one cell longer if
    /// it `grew`, else of the same length with the old tail cell released.
    pub open spec fn advance(self, new_head: Position, grew: bool) -> SnakeView {
        SnakeView {
            grid: self.grid,
            body: if grew {
                self.body.push(new_head)
            } else {
                self.body.drop_first().push(new_head)
            },
            heading: self.heading,
        }
    }

    /// A snake is never longer than its board has cells, and is as long
    /// exactly when it covers the board.
    pub proof fn lemma_fits(self)
        requires
            self.wf(),
        ensures
            self.body.len() <= self.grid.spec_cell_count(),
            self.body.len() == self.grid.spec_cell_count() <==> forall|p: Position|
                self.grid.contains(p) ==> self.body.contains(p),
    {
        self.grid.lemma_occupancy(self.body);
    }

    /// The starting snake has exactly two cells, the head last at one row
    /// above the origin, and is a snake on every board of two rows or more,
    /// and on no other.
    pub proof fn lemma_initial(grid: Grid)
        requires
            grid.wf(),
        ensures
            Self::initial(grid).body.len() == 2,
            Self::initial(grid).head() == (Position { x: 0, y: 1 }),
            Self::initial(grid).body[0] == (Position { x: 0, y: 0 }),
            Self::initial(grid).wf() <==> grid.rows() >= 2,
    {
        let start = Self::initial(grid);
        if grid.rows() >= 2 {
            assert(start.in_bounds());
        } else {
            assert(!grid.contains(start.body[1]));
        }
    }

    /// Whatever cell the head enters, the head is then on that cell, and
    /// the body has kept its length, or is one cell longer if it grew. The
    /// cells that stay keep their order: after growth the old body is the
    /// start of the new one, and otherwise the old body without its tail
    /// is.
    pub proof fn lemma_advance_shape(self, new_head: Position, grew: bool)
        requires
            self.body.len() >= 1,
        ensures
            self.advance(new_head, grew).head() == new_head,
            self.advance(new_head, grew).body.len() == self.body.len() + if grew {
                1int
            } else {
                0int
            },
            grew ==> self.advance(new_head, grew).body.drop_last() == self.body,
            !grew ==> self.advance(new_head, grew).body.drop_last() == self.body.drop_first(),
    {
        let next = self.advance(new_head, grew);
        if grew {
            assert(next.body.drop_last() =~= self.body);
        } else {
            assert(next.body.drop_last() =~= self.body.drop_first());
        }
    }

    /// A body without repeats has none after the head has entered a cell
    /// that the body did not hold, on the board or off it.
    pub proof fn lemma_advance_distinct(self, new_head: Position, grew: bool)
        requires
            self.body.len() >= 1,
            self.body.no_duplicates(),
            !self.body.contains(new_head),
        ensures
            self.advance(new_head, grew).body.no_duplicates(),
    {
        let next = self.advance(new_head, grew);
        let offset: int = if grew {
            0
        } else {
            1
        };
        assert forall|i: int| 0 <= i < next.body.len() - 1 implies next.body[i] == self.body[i
            + offset] && self.body.contains(next.body[i]) by {}
    }

    /// Entering a free cell of the board keeps a snake a snake, puts the
    /// head on that cell, and changes the length by one exactly when the
    /// snake grew.
    pub proof fn lemma_advance(self, new_head: Position, grew: bool)
        requires
            self.wf(),
            !self.blocks(new_head),
        ensures
            self.advance(new_head, grew).wf(),
            self.advance(new_head, grew).head() == new_head,
            self.advance(new_head, grew).body.len() == self.body.len() + if grew {
                1int
            } else {
                0int
            },
            forall|p: Position|
                self.advance(new_head, grew).body.contains(p) ==> p == new_head
                    || self.body.contains(p),
            grew ==> forall|p: Position|
                self.body.contains(p) ==> self.advance(new_head, grew).body.contains(p),
    {
        let next = self.advance(new_head, grew);
        let offset: int = if grew {
            0
        } else {
            1
        };
        self.lemma_advance_shape(new_head, grew);
        self.lemma_advance_distinct(new_head, grew);
        assert forall|i: int| 0 <= i < next.body.len() - 1 implies next.body[i] == self.body[i
            + offset] by {}
        assert forall|p: Position| next.body.contains(p) implies p == new_head
            || self.body.contains(p) by {
            let i = choose|i: int| 0 <= i < next.body.len() && next.body[i] == p;
            assert(i == next.body.len() - 1 || self.body[i + offset] == p);
        }
        if grew {
            assert forall|p: Position| self.body.contains(p) implies next.body.contains(p) by {
                let i = choose|i: int| 0 <= i < self.body.len() && self.body[i] == p;
                assert(next.body[i] == p);
            }
        }
    }
}

/// Whether `cells` holds `p`.
pub fn occupies(cells: &Vec<Position>, p: Position) -> (found: bool)
    ensures
        found == cells@.contains(p),
{
    let mut i: usize = 0;
    while i < cells.len()
        invariant
            i <= cells.len(),
            forall|j: int| 0 <= j < i ==> cells@[j] != p,
        decreases cells.len() - i,
    {
        if cells[i] == p {
            return true;
        }
        i += 1;
    }
    false
}

/// Whether a head may not enter `candidate`: true if `candidate` lies
/// outside `bounds` or on a cell of `body`, false otherwise. Wall and body
/// are not told apart.
pub fn is_blocked(candidate: Position, body: &Vec<Position>, bounds: &Grid) -> (blocked: bool)
    ensures
        blocked == (!bounds.contains(candidate) || body@.contains(candidate)),
{
    !bounds.contains(candidate) || occupies(body, candidate)
}

/// A snake on its board.
#[derive(Debug)]
pub struct Snake {
    grid: Grid,
    body: Vec<Position>,
    heading: Heading,
}

impl View for Snake {
    type V = SnakeView;

    closed spec fn view(&self) -> SnakeView {
        SnakeView { grid: self.grid, body: self.body@, heading: self.heading }
    }
}

impl Snake {
    /// The invariant of the type.
    pub open spec fn wf(&self) -> bool {
        self@.wf()
    }

    /// The snake with the cells `body`, tail first, on `grid`, or the first
    /// reason why there is no such snake.
    pub fn new(grid: Grid, body: Vec<Position>, heading: Heading) -> (r: Result<Snake, SnakeError>)
        requires
            grid.wf(),
        ensures
            match r {
                Ok(snake) => {
                    &&& snake@ == (SnakeView { grid, body: body@, heading })
                    &&& snake.wf()
                },
                Err(e) => (SnakeView { grid, body: body@, heading }).defect() == Some(e),
            },
    {
        let ghost view = SnakeView { grid, body: body@, heading };
        let n: usize = body.len();
        if n < 2 {
            return Err(SnakeError::TooShort);
        }
        let mut i: usize = 0;
        while i < n
            invariant
                n == body.len(),
                n >= 2,
                i <= n,
                view == (SnakeView { grid, body: body@, heading }),
                forall|j: int| 0 <= j < i ==> grid.contains(#[trigger] body@[j]),
            decreases n - i,
        {
            if !grid.contains(body[i]) {
                return Err(SnakeError::OutOfBounds);
            }
            i += 1;
        }
        let mut k: usize = 1;
        while k < n
            invariant
                n == body.len(),
                n >= 2,
                1 <= k <= n,
                view == (SnakeView { grid, body: body@, heading }),
                view.in_bounds(),
                forall|a: int, b: int| 0 <= a < b < k ==> body@[a] != body@[b],
            decreases n - k,
        {
            let mut j: usize = 0;
            while j < k
                invariant
                    n == body.len(),
                    n >= 2,
                    j <= k < n,
                    view == (SnakeView { grid, body: body@, heading }),
                    view.in_bounds(),
                    forall|a: int| 0 <= a < j ==> body@[a] != body@[k as int],
                decreases k - j,
            {
                if body[j] == body[k] {
                    return Err(SnakeError::Overlap);
                }
                j += 1;
            }
            k += 1;
        }
        Ok(Snake { grid, body, heading })
    }

    /// The snake every game starts with: two cells, the tail at the origin
    /// and the head one row above it, heading up. A board of a single row
    /// has no room for it.
    pub fn start(grid: Grid) -> (r: Option<Snake>)
        requires
            grid.wf(),
        ensures
            r is Some <==> grid.rows() >= 2,
            r matches Some(snake) ==> {
                &&& snake.wf()
                &&& snake@ == SnakeView::initial(grid)
                &&& snake@.body.len() == 2
            },
    {
        if grid.height() < 2 {
            return None;
        }
        let mut body: Vec<Position> = Vec::new();
        body.push(Position { x: 0, y: 0 });
        body.push(Position { x: 0, y: 1 });
        proof {
            SnakeView::lemma_initial(grid);
            assert(body@ =~= SnakeView::initial(grid).body);
        }
        Some(Snake { grid, body, heading: Heading::Up })
    }

    /// The board the snake lives on.
    pub fn grid(&self) -> (g: Grid)
        ensures
            g == self@.grid,
    {
        self.grid
    }

    /// The occupied cells from tail to head.
    pub fn body(&self) -> (b: &Vec<Position>)
        ensures
            b@ == self@.body,
    {
        &self.body
    }

    /// Number of occupied cells.
    pub fn len(&self) -> (n: usize)
        ensures
            n == self@.body.len(),
    {
        self.body.len()
    }

    /// The direction of the next move.
    pub fn heading(&self) -> (h: Heading)
        ensures
            h == self@.heading,
    {
        self.heading
    }

    /// Points the snake in the direction `heading`. The body stays where it
    /// is: the new heading shows in the next candidate head only.
    pub fn set_heading(&mut self, heading: Heading)
        ensures
            final(self)@ == (SnakeView { heading, ..old(self)@ }),
    {
        self.heading = heading;
    }

    /// The head: the last cell of the body.
    pub fn head(&self) -> (p: Position)
        requires
            self.wf(),
        ensures
            p == self@.head(),
    {
        self.body[self.body.len() - 1]
    }

    /// The cell the head would enter by one move in the direction
    /// `heading`. Nothing is changed.
    pub fn candidate_head(&self, heading: Heading) -> (p: Position)
        requires
            self.wf(),
        ensures
            p == self@.candidate_head(heading),
    {
        let head = self.head();
        head.neighbor(heading)
    }

    /// Whether the head may not enter `candidate`.
    pub fn blocks(&self, candidate: Position) -> (blocked: bool)
        ensures
            blocked == self@.blocks(candidate),
    {
        is_blocked(candidate, &self.body, &self.grid)
    }

    /// Moves the head onto `new_head`. If the snake `grew`, the tail stays
    /// and the snake is one cell longer; otherwise every cell takes the
    /// place of its successor and the length is unchanged.
    pub fn advance(&mut self, new_head: Position, grew: bool)
        requires
            old(self).wf(),
            !old(self)@.blocks(new_head),
        ensures
            final(self)@ == old(self)@.advance(new_head, grew),
            final(self).wf(),
            final(self)@.head() == new_head,
            final(self)@.body.len() == old(self)@.body.len() + if grew {
                1int
            } else {
                0int
            },
    {
        proof {
            self@.lemma_advance(new_head, grew);
        }
        if !grew {
            self.body.remove(0);
        }
        self.body.push(new_head);
    }
}

} // verus!
