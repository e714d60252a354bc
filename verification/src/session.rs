//! The session: one snake, its food, the clock, and the rules of a tick.

use crate::clock::Clock;
use crate::food::lemma_place_food;
use crate::food::place_food_drawn;
use crate::food::spec_place_food_with;
use crate::grid::Grid;
use crate::grid::Heading;
use crate::grid::Position;
use crate::input::apply_edges;
use crate::input::Key;
use crate::input::KeyEdges;
use crate::render::Tile;
use crate::render::Visual;
use crate::snake::occupies;
use crate::snake::Snake;
use crate::snake::SnakeView;
use vstd::prelude::*;

verus! {

/// Whether the snake still moves.
#[derive(Clone, Copy, Debug, PartialEq, Eq, Structural)]
pub enum Status {
    /// The snake moves on every tick.
    Running,
    /// The snake ran into a wall or into itself. Nothing changes any more.
    Blocked,
}

/// What one tick did.
#[derive(Clone, Copy, Debug, PartialEq, Eq, Structural)]
pub enum Outcome {
    /// The snake moved one cell and kept its length.
    Moved,
    /// The snake moved onto the food, grew by one cell, and the food was
    /// placed anew.
    Ate,
    /// The way was blocked, now or earlier. Snake and food stay as they
    /// were.
    Blocked,
}

/// Why food cannot lie where it was put.
#[derive(Clone, Copy, Debug, PartialEq, Eq, Structural)]
pub enum SessionError {
    /// The food lies outside the board.
    FoodOutOfBounds,
    /// The food lies on the snake.
    FoodOnSnake,
    /// There is no food although a cell is free.
    FoodMissing,
}

/// Something that happens to a session.
pub enum Event {
    /// The keys of one look went down.
    Keys(KeyEdges),
    /// One tick, with the draw to use if food has to be placed.
    Tick(int),
    /// Time passed, with the draw to use if the clock fires and food has
    /// to be placed.
    Elapse(u64, int),
}

/// What a session is, as a mathematical value.
pub struct SessionView {
    pub snake: SnakeView,
    /// Where the food lies. There is none only when the snake fills the
    /// board.
    pub food: Option<Position>,
    pub clock: Clock,
    pub status: Status,
}

impl SessionView {
    /// The first reason, if any, why the food cannot lie where it is.
    pub open spec fn food_defect(self) -> Option<SessionError> {
        match self.food {
            Some(f) => if !self.snake.grid.contains(f) {
                Some(SessionError::FoodOutOfBounds)
            } else if self.snake.body.contains(f) {
                Some(SessionError::FoodOnSnake)
            } else {
                None
            },
            None => if self.snake.body.len() != self.snake.grid.spec_cell_count() {
                Some(SessionError::FoodMissing)
            } else {
                None
            },
        }
    }

    /// The snake is a snake, the food lies on a free cell of the board, and
    /// food is missing only when the snake fills the board.
    pub open spec fn wf(self) -> bool {
        &&& self.snake.wf()
        &&& self.food_defect() is None
    }

    /// The cell that the head enters on the next tick.
    pub open spec fn candidate(self) -> Position {
        self.snake.candidate_head(self.snake.heading)
    }

    /// What the next tick does.
    pub open spec fn outcome(self) -> Outcome {
        if self.status == Status::Blocked || self.snake.blocks(self.candidate()) {
            Outcome::Blocked
        } else if self.food == Some(self.candidate()) {
            Outcome::Ate
        } else {
            Outcome::Moved
        }
    }

    /// The session after one tick that draws `roll` if it has to place
    /// food. A blocked tick changes nothing but the status. Otherwise the
    /// head enters the candidate cell; if the food lay there the snake
    /// grows and food is placed on a cell free of the grown snake.
    pub open spec fn step(self, roll: int) -> SessionView {
        match self.outcome() {
            Outcome::Blocked => SessionView { status: Status::Blocked, ..self },
            Outcome::Moved => SessionView {
                snake: self.snake.advance(self.candidate(), false),
                ..self
            },
            Outcome::Ate => {
                let grown = self.snake.advance(self.candidate(), true);
                SessionView {
                    snake: grown,
                    food: spec_place_food_with(grown.grid, grown.body, roll),
                    ..self
                }
            },
        }
    }

    /// The session after the presses `edges`. The body stays where it is;
    /// a blocked session ignores the keys.
    pub open spec fn turn(self, edges: KeyEdges) -> SessionView {
        if self.status == Status::Running {
            SessionView {
                snake: SnakeView {
                    heading: apply_edges(self.snake.heading, edges),
                    ..self.snake
                },
                ..self
            }
        } else {
            self
        }
    }

    /// The session after `delta` time has passed: the clock moves on, and
    /// if it fires, one tick follows.
    pub open spec fn elapse(self, delta: u64, roll: int) -> SessionView {
        let waited = SessionView { clock: self.clock.after(delta), ..self };
        if self.clock.fires(delta) {
            waited.step(roll)
        } else {
            waited
        }
    }

    /// The session after `event`.
    pub open spec fn apply(self, event: Event) -> SessionView {
        match event {
            Event::Keys(edges) => self.turn(edges),
            Event::Tick(roll) => self.step(roll),
            Event::Elapse(delta, roll) => self.elapse(delta, roll),
        }
    }

    /// The session after the events `events`, first to last.
    pub open spec fn run(self, events: Seq<Event>) -> SessionView
        decreases events.len(),
    {
        if events.len() == 0 {
            self
        } else {
            self.run(events.drop_last()).apply(events.last())
        }
    }

    /// The session a game starts with when the first food is placed with
    /// the draw `roll`: the starting snake of two cells, a fresh clock, and
    /// food on a cell that the snake leaves free.
    pub open spec fn initial(grid: Grid, period: u64, roll: int) -> SessionView {
        let snake = SnakeView::initial(grid);
        SessionView {
            snake,
            food: spec_place_food_with(grid, snake.body, roll),
            clock: Clock::new(period),
            status: Status::Running,
        }
    }

    /// The cells that are taken: the snake's, tail first, and then the
    /// food's.
    pub open spec fn occupied(self) -> Seq<Position> {
        match self.food {
            Some(f) => self.snake.body.push(f),
            None => self.snake.body,
        }
    }

    /// What the cell `p` shows: the head, facing its heading; else a body
    /// segment; else the food; else nothing.
    pub open spec fn visual_at(self, p: Position) -> Visual {
        if p == self.snake.head() {
            Visual::head(self.snake.heading)
        } else if self.snake.body.contains(p) {
            Visual::Body
        } else if self.food == Some(p) {
            Visual::Food
        } else {
            Visual::Empty
        }
    }

    /// Every cell of the board with what it shows, in scan order.
    pub open spec fn tiles(self) -> Seq<Tile> {
        Seq::new(
            self.snake.grid.cells().len(),
            |k: int|
                Tile {
                    position: self.snake.grid.cells()[k],
                    visual: self.visual_at(self.snake.grid.cells()[k]),
                },
        )
    }

    /// On a board of two rows or more a game starts sound and running,
    /// with a snake of exactly two cells that heads up, and with food
    /// unless those two cells are the whole board.
    pub proof fn lemma_initial(grid: Grid, period: u64, roll: int)
        requires
            grid.wf(),
            grid.rows() >= 2,
        ensures
            Self::initial(grid, period, roll).wf(),
            Self::initial(grid, period, roll).snake.body.len() == 2,
            Self::initial(grid, period, roll).snake.heading == Heading::Up,
            Self::initial(grid, period, roll).status == Status::Running,
            Self::initial(grid, period, roll).clock == Clock::new(period),
            Self::initial(grid, period, roll).food is None <==> grid.spec_cell_count() == 2,
    {
        let snake = SnakeView::initial(grid);
        SnakeView::lemma_initial(grid);
        lemma_place_food(grid, snake.body, roll);
    }

    /// One tick keeps a session sound. Board, heading and clock stay. A
    /// blocked tick leaves snake and food alone. Any other tick puts the
    /// head on the candidate cell; the length stays unless the food was
    /// eaten, and then it grows by exactly one, the tail stays, and the
    /// new food lies elsewhere.
    pub proof fn lemma_step(self, roll: int)
        requires
            self.wf(),
        ensures
            self.step(roll).wf(),
            self.step(roll).snake.grid == self.snake.grid,
            self.step(roll).snake.heading == self.snake.heading,
            self.step(roll).clock == self.clock,
            self.outcome() == Outcome::Blocked ==> {
                &&& self.step(roll).snake == self.snake
                &&& self.step(roll).food == self.food
                &&& self.step(roll).status == Status::Blocked
            },
            self.outcome() == Outcome::Moved ==> {
                &&& self.step(roll).snake.body.len() == self.snake.body.len()
                &&& self.step(roll).snake.body == self.snake.body.drop_first().push(self.candidate())
                &&& self.step(roll).snake.head() == self.candidate()
                &&& self.step(roll).food == self.food
                &&& self.step(roll).status == Status::Running
            },
            self.outcome() == Outcome::Ate ==> {
                &&& self.step(roll).snake.body.len() == self.snake.body.len() + 1
                &&& self.step(roll).snake.body == self.snake.body.push(self.candidate())
                &&& self.step(roll).snake.head() == self.candidate()
                &&& self.step(roll).food != self.food
                &&& self.step(roll).status == Status::Running
            },
    {
        let candidate = self.candidate();
        match self.outcome() {
            Outcome::Blocked => {},
            Outcome::Moved => {
                self.snake.lemma_advance(candidate, false);
                if self.food is None {
                    self.snake.lemma_fits();
                }
            },
            Outcome::Ate => {
                self.snake.lemma_advance(candidate, true);
                let grown = self.snake.advance(candidate, true);
                lemma_place_food(grown.grid, grown.body, roll);
                assert(grown.body.contains(candidate));
            },
        }
    }

    /// The taken cells of a sound session are distinct cells of the board,
    /// and the head may enter the food's cell but no other of them.
    pub proof fn lemma_occupied(self)
        requires
            self.wf(),
        ensures
            self.occupied().no_duplicates(),
            forall|i: int|
                0 <= i < self.occupied().len() ==> self.snake.grid.contains(
                    #[trigger] self.occupied()[i],
                ),
            self.occupied().len() <= self.snake.grid.spec_cell_count(),
            forall|p: Position|
                self.snake.blocks(p) ==> !self.snake.grid.contains(p) || self.occupied().contains(
                    p,
                ),
            forall|p: Position|
                self.snake.grid.contains(p) && self.occupied().contains(p) && self.food != Some(p)
                    ==> self.snake.blocks(p),
    {
        let taken = self.occupied();
        let body = self.snake.body;
        assert forall|i: int| 0 <= i < body.len() implies taken[i] == body[i] by {}
        assert(taken.no_duplicates());
        self.snake.grid.lemma_occupancy(taken);
        assert forall|p: Position| body.contains(p) implies taken.contains(p) by {
            let i = choose|i: int| 0 <= i < body.len() && body[i] == p;
            assert(taken[i] == p);
        }
        assert forall|p: Position| taken.contains(p) && self.food != Some(p) implies body.contains(
            p,
        ) by {
            let i = choose|i: int| 0 <= i < taken.len() && taken[i] == p;
            assert(body[i] == p);
        }
    }

    /// Key presses keep a session sound and leave body, food and clock
    /// alone. The new heading is never the reverse of the old one.
    pub proof fn lemma_turn(self, edges: KeyEdges)
        requires
            self.wf(),
        ensures
            self.turn(edges).wf(),
            self.turn(edges).snake.grid == self.snake.grid,
            self.turn(edges).snake.body == self.snake.body,
            self.turn(edges).food == self.food,
            self.turn(edges).clock == self.clock,
            self.turn(edges).status == self.status,
            self.turn(edges).snake.heading != self.snake.heading.opposite(),
    {
    }

    /// Whatever happens to a sound session, it stays sound: in particular
    /// the body never holds a cell twice, never leaves the board and never
    /// shrinks.
    pub proof fn lemma_run(self, events: Seq<Event>)
        requires
            self.wf(),
        ensures
            self.run(events).wf(),
            self.run(events).snake.body.no_duplicates(),
            self.run(events).snake.grid == self.snake.grid,
            self.run(events).snake.body.len() >= self.snake.body.len(),
        decreases events.len(),
    {
        if events.len() > 0 {
            self.lemma_run(events.drop_last());
            let before = self.run(events.drop_last());
            match events.last() {
                Event::Keys(edges) => {
                    before.lemma_turn(edges);
                },
                Event::Tick(roll) => {
                    before.lemma_step(roll);
                },
                Event::Elapse(delta, roll) => {
                    let waited = SessionView { clock: before.clock.after(delta), ..before };
                    waited.lemma_step(roll);
                },
            }
        }
    }
}

/// A game in progress.
#[derive(Debug)]
pub struct Session {
    snake: Snake,
    food: Option<Position>,
    clock: Clock,
    status: Status,
}

impl View for Session {
    type V = SessionView;

    closed spec fn view(&self) -> SessionView {
        SessionView {
            snake: self.snake@,
            food: self.food,
            clock: self.clock,
            status: self.status,
        }
    }
}

impl Session {
    /// The invariant of the type.
    pub open spec fn wf(&self) -> bool {
        self@.wf()
    }

    /// A running session with the given snake, food and clock, or the
    /// reason why the food cannot lie there.
    pub fn new(snake: Snake, food: Option<Position>, clock: Clock) -> (r: Result<
        Session,
        SessionError,
    >)
        requires
            snake.wf(),
        ensures
            match r {
                Ok(session) => {
                    &&& session@ == (SessionView {
                        snake: snake@,
                        food,
                        clock,
                        status: Status::Running,
                    })
                    &&& session.wf()
                },
                Err(e) => (SessionView {
                    snake: snake@,
                    food,
                    clock,
                    status: Status::Running,
                }).food_defect() == Some(e),
            },
    {
        match food {
            Some(f) => {
                if !snake.grid().contains(f) {
                    return Err(SessionError::FoodOutOfBounds);
                }
                if occupies(snake.body(), f) {
                    return Err(SessionError::FoodOnSnake);
                }
            },
            None => {
                proof {
                    snake@.grid.lemma_occupancy(snake@.body);
                }
                let grid = snake.grid();
                if (snake.len() as u64) != grid.cell_count() {
                    return Err(SessionError::FoodMissing);
                }
            },
        }
        Ok(Session { snake, food, clock, status: Status::Running })
    }

    /// Starts a game with the draw `fixed` for the first food, or with a
    /// random draw where none is given.
    fn start_drawn(grid: Grid, period: u64, fixed: Option<usize>) -> (r: Option<Session>)
        requires
            grid.wf(),
        ensures
            r is Some <==> grid.rows() >= 2,
            r matches Some(session) ==> {
                &&& session.wf()
                &&& session@.snake.body.len() == 2
                &&& exists|roll: int|
                    {
                        &&& 0 <= roll
                        &&& fixed matches Some(f) ==> roll == f
                        &&& session@ == #[trigger] SessionView::initial(grid, period, roll)
                    }
            },
    {
        match Snake::start(grid) {
            None => None,
            Some(snake) => {
                let food = place_food_drawn(snake.body(), &grid, fixed);
                proof {
                    let roll = choose|roll: int|
                        {
                            &&& 0 <= roll
                            &&& fixed matches Some(f) ==> roll == f
                            &&& food == #[trigger] spec_place_food_with(grid, snake@.body, roll)
                        };
                    lemma_place_food(grid, snake@.body, roll);
                    assert(snake@ == SessionView::initial(grid, period, roll).snake);
                }
                let session = Session { snake, food, clock: Clock::new(period), status: Status::Running };
                Some(session)
            },
        }
    }

    /// Starts a game on `grid` with a clock of the given period: the
    /// starting snake of two cells, heading up, and food on a free cell
    /// chosen at random. There is no game on a board of a single row.
    pub fn start(grid: Grid, period: u64) -> (r: Option<Session>)
        requires
            grid.wf(),
        ensures
            r is Some <==> grid.rows() >= 2,
            r matches Some(session) ==> {
                &&& session.wf()
                &&& session@.snake.body.len() == 2
                &&& exists|roll: int|
                    0 <= roll && session@ == #[trigger] SessionView::initial(grid, period, roll)
            },
    {
        Self::start_drawn(grid, period, None)
    }

    /// Starts a game as [`Session::start`] does, with the first food on the
    /// free cell that `roll` selects.
    pub fn start_with(grid: Grid, period: u64, roll: usize) -> (r: Option<Session>)
        requires
            grid.wf(),
        ensures
            r is Some <==> grid.rows() >= 2,
            r matches Some(session) ==> {
                &&& session.wf()
                &&& session@.snake.body.len() == 2
                &&& session@ == SessionView::initial(grid, period, roll as int)
            },
    {
        Self::start_drawn(grid, period, Some(roll))
    }

    /// The snake.
    pub fn snake(&self) -> (s: &Snake)
        ensures
            s@ == self@.snake,
    {
        &self.snake
    }

    /// The board.
    pub fn grid(&self) -> (g: Grid)
        ensures
            g == self@.snake.grid,
    {
        self.snake.grid()
    }

    /// Where the food lies, if there is any.
    pub fn food(&self) -> (f: Option<Position>)
        ensures
            f == self@.food,
    {
        self.food
    }

    /// The clock.
    pub fn clock(&self) -> (c: Clock)
        ensures
            c == self@.clock,
    {
        self.clock
    }

    /// Whether the snake still moves.
    pub fn status(&self) -> (s: Status)
        ensures
            s == self@.status,
    {
        self.status
    }

    /// Takes in the presses `edges` of one look. Only the heading changes,
    /// and it shows in the next tick; a blocked session ignores the keys.
    pub fn turn(&mut self, edges: KeyEdges)
        requires
            old(self).wf(),
        ensures
            final(self)@ == old(self)@.turn(edges),
            final(self).wf(),
    {
        if self.status == Status::Running {
            let heading = apply_edges(self.snake.heading(), edges);
            self.snake.set_heading(heading);
        }
    }

    /// Takes in the press of one key.
    pub fn press(&mut self, key: Key)
        requires
            old(self).wf(),
        ensures
            final(self)@ == old(self)@.turn(KeyEdges::only(key)),
            final(self).wf(),
    {
        self.turn(KeyEdges::only(key));
    }

    /// One tick with the draw `fixed`, or with a random draw where none is
    /// given.
    fn step_drawn(&mut self, fixed: Option<usize>) -> (outcome: Outcome)
        requires
            old(self).wf(),
        ensures
            final(self).wf(),
            outcome == old(self)@.outcome(),
            exists|roll: int|
                {
                    &&& 0 <= roll
                    &&& fixed matches Some(f) ==> roll == f
                    &&& final(self)@ == #[trigger] old(self)@.step(roll)
                },
    {
        let ghost before = self@;
        let ghost given: int = match fixed {
            Some(f) => f as int,
            None => 0,
        };
        proof {
            before.lemma_step(given);
        }
        if self.status == Status::Blocked {
            return Outcome::Blocked;
        }
        let candidate = self.snake.candidate_head(self.snake.heading());
        if self.snake.blocks(candidate) {
            self.status = Status::Blocked;
            return Outcome::Blocked;
        }
        let eats = match self.food {
            Some(f) => f == candidate,
            None => false,
        };
        if eats {
            self.snake.advance(candidate, true);
            let grid = self.snake.grid();
            let food = place_food_drawn(self.snake.body(), &grid, fixed);
            self.food = food;
            proof {
                let roll = choose|roll: int|
                    {
                        &&& 0 <= roll
                        &&& fixed matches Some(f) ==> roll == f
                        &&& food == #[trigger] spec_place_food_with(grid, self@.snake.body, roll)
                    };
                before.lemma_step(roll);
            }
            Outcome::Ate
        } else {
            self.snake.advance(candidate, false);
            Outcome::Moved
        }
    }

    /// One tick, with the draw `roll` where food has to be placed: the head
    /// moves one cell in its heading unless the way is blocked. Nothing is
    /// left to chance.
    pub fn step(&mut self, roll: usize) -> (outcome: Outcome)
        requires
            old(self).wf(),
        ensures
            final(self).wf(),
            outcome == old(self)@.outcome(),
            final(self)@ == old(self)@.step(roll as int),
    {
        self.step_drawn(Some(roll))
    }

    /// One tick: the head moves one cell in its heading unless the way is
    /// blocked. Where the snake eats, it grows by one cell and new food is
    /// placed at random on a cell that the grown snake leaves free.
    pub fn tick(&mut self) -> (outcome: Outcome)
        requires
            old(self).wf(),
        ensures
            final(self).wf(),
            outcome == old(self)@.outcome(),
            exists|roll: int| 0 <= roll && final(self)@ == #[trigger] old(self)@.step(roll),
            outcome == Outcome::Blocked ==> final(self)@ == (SessionView {
                status: Status::Blocked,
                ..old(self)@
            }),
            outcome != Outcome::Blocked ==> final(self)@.snake.head() == old(self)@.candidate(),
            final(self)@.snake.body.len() == old(self)@.snake.body.len() + if outcome
                == Outcome::Ate {
                1int
            } else {
                0int
            },
    {
        let outcome = self.step_drawn(None);
        proof {
            let roll = choose|roll: int| 0 <= roll && self@ == #[trigger] old(self)@.step(roll);
            old(self)@.lemma_step(roll);
        }
        outcome
    }

    /// Lets `delta` time pass with the draw `fixed`, or with a random draw
    /// where none is given.
    fn update_drawn(&mut self, delta: u64, fixed: Option<usize>) -> (outcome: Option<Outcome>)
        requires
            old(self).wf(),
        ensures
            final(self).wf(),
            outcome == if old(self)@.clock.fires(delta) {
                Some(old(self)@.outcome())
            } else {
                None
            },
            exists|roll: int|
                {
                    &&& 0 <= roll
                    &&& fixed matches Some(f) ==> roll == f
                    &&& final(self)@ == #[trigger] old(self)@.elapse(delta, roll)
                },
    {
        let ghost before = self@;
        let ghost given: int = match fixed {
            Some(f) => f as int,
            None => 0,
        };
        let fired = self.clock.tick(delta);
        if fired {
            let ghost waited = self@;
            let outcome = self.step_drawn(fixed);
            proof {
                let roll = choose|roll: int|
                    {
                        &&& 0 <= roll
                        &&& fixed matches Some(f) ==> roll == f
                        &&& self@ == #[trigger] waited.step(roll)
                    };
                assert(self@ == before.elapse(delta, roll));
            }
            Some(outcome)
        } else {
            assert(self@ == before.elapse(delta, given));
            None
        }
    }

    /// Lets `delta` time pass. If the clock fires, one tick follows and its
    /// outcome is returned; a tick never follows more than once, however
    /// long `delta` is.
    pub fn update(&mut self, delta: u64) -> (outcome: Option<Outcome>)
        requires
            old(self).wf(),
        ensures
            final(self).wf(),
            outcome == if old(self)@.clock.fires(delta) {
                Some(old(self)@.outcome())
            } else {
                None
            },
            exists|roll: int| 0 <= roll && final(self)@ == #[trigger] old(self)@.elapse(delta, roll),
    {
        let outcome = self.update_drawn(delta, None);
        outcome
    }

    /// Lets `delta` time pass as [`Session::update`] does, with the draw
    /// `roll` where food has to be placed.
    pub fn update_with(&mut self, delta: u64, roll: usize) -> (outcome: Option<Outcome>)
        requires
            old(self).wf(),
        ensures
            final(self).wf(),
            outcome == if old(self)@.clock.fires(delta) {
                Some(old(self)@.outcome())
            } else {
                None
            },
            final(self)@ == old(self)@.elapse(delta, roll as int),
    {
        self.update_drawn(delta, Some(roll))
    }

    /// The cells that are taken: the snake's, tail first, and then the
    /// food's.
    pub fn occupied(&self) -> (cells: Vec<Position>)
        ensures
            cells@ == self@.occupied(),
    {
        let mut cells: Vec<Position> = Vec::new();
        let body = self.snake.body();
        let mut i: usize = 0;
        while i < body.len()
            invariant
                i <= body.len(),
                cells@ == body@.take(i as int),
            decreases body.len() - i,
        {
            cells.push(body[i]);
            i += 1;
        }
        match self.food {
            Some(f) => cells.push(f),
            None => {},
        }
        cells
    }

    /// What the cell `p` shows.
    pub fn visual_at(&self, p: Position) -> (v: Visual)
        requires
            self.wf(),
        ensures
            v == self@.visual_at(p),
    {
        if p == self.snake.head() {
            Visual::head(self.snake.heading())
        } else if occupies(self.snake.body(), p) {
            Visual::Body
        } else {
            match self.food {
                Some(f) => if f == p {
                    Visual::Food
                } else {
                    Visual::Empty
                },
                None => Visual::Empty,
            }
        }
    }

    /// Every cell of the board with what it shows, in scan order.
    pub fn tiles(&self) -> (tiles: Vec<Tile>)
        requires
            self.wf(),
        ensures
            tiles@ == self@.tiles(),
    {
        let grid = self.snake.grid();
        let ghost cells = grid.cells();
        let width: i32 = grid.width();
        let height: i32 = grid.height();
        let mut tiles: Vec<Tile> = Vec::new();
        let mut x: i32 = 0;
        proof {
            assert(0 * height == 0) by (nonlinear_arith);
        }
        while x < width
            invariant
                self.wf(),
                grid == self@.snake.grid,
                width == grid.cols(),
                height == grid.rows(),
                cells == grid.cells(),
                0 <= x <= width,
                tiles@.len() == x * height,
                forall|k: int|
                    0 <= k < tiles@.len() ==> #[trigger] tiles@[k] == (Tile {
                        position: cells[k],
                        visual: self@.visual_at(cells[k]),
                    }),
            decreases width - x,
        {
            let mut y: i32 = 0;
            while y < height
                invariant
                    self.wf(),
                    grid == self@.snake.grid,
                    width == grid.cols(),
                    height == grid.rows(),
                    cells == grid.cells(),
                    0 <= x < width,
                    0 <= y <= height,
                    tiles@.len() == x * height + y,
                    forall|k: int|
                        0 <= k < tiles@.len() ==> #[trigger] tiles@[k] == (Tile {
                            position: cells[k],
                            visual: self@.visual_at(cells[k]),
                        }),
                decreases height - y,
            {
                let position = Position { x, y };
                proof {
                    grid.lemma_index_of(position);
                }
                let visual = self.visual_at(position);
                tiles.push(Tile { position, visual });
                y += 1;
            }
            proof {
                assert(x * height + height == (x + 1) * height) by (nonlinear_arith);
            }
            x += 1;
        }
        proof {
            grid.lemma_cells();
        }
        tiles
    }
}

} // verus!
