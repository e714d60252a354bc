//! A snake game on a fixed grid: the board, the snake, food placement,
//! steering, the game clock and the session that ties them together.
//!
//! Every function here is verified against its contract. The only
//! unverified step is the draw of a random index in [`food`].

pub mod clock;
pub mod food;
pub mod grid;
pub mod input;
pub mod render;
pub mod session;
pub mod snake;

pub use crate::clock::Clock;
pub use crate::food::choose_cell;
pub use crate::food::free_cells;
pub use crate::food::place_food;
pub use crate::food::place_food_with;
pub use crate::grid::Grid;
pub use crate::grid::Heading;
pub use crate::grid::Position;
pub use crate::input::apply_edges;
pub use crate::input::apply_turn;
pub use crate::input::Key;
pub use crate::input::KeyEdges;
pub use crate::render::changed_tiles;
pub use crate::render::Sprite;
pub use crate::render::Tile;
pub use crate::render::Visual;
pub use crate::session::Outcome;
pub use crate::session::Session;
pub use crate::session::SessionError;
pub use crate::session::Status;
pub use crate::snake::is_blocked;
pub use crate::snake::occupies;
pub use crate::snake::Snake;
pub use crate::snake::SnakeError;
