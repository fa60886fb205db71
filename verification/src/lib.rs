//! A maze explorer that walks an unknown grid depth first.
//!
//! The maze is revealed one cell at a time: for the cell the explorer stands on,
//! the caller reports on which of its four sides there is a wall. From that and
//! from the markers it has left on the cells seen so far, [`Game`] picks the next
//! direction, and retraces its own steps when every way forward is closed.
//!
//! Every executable function is verified against the mathematical model in
//! [`model`]; the properties of whole runs are proved in [`laws`] and
//! [`exploration`].

pub mod direction;
pub mod error;
pub mod exploration;
pub mod game;
pub mod laws;
pub mod model;
pub mod position;

pub use direction::{Direction, State};
pub use error::GameError;
pub use game::Game;
pub use model::GameView;
pub use position::{Coord, FieldEnvironment, Position};
