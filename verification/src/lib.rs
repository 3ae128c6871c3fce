//! Single-elimination tournament brackets: building the tree of rounds from an
//! ordered list of participants, and drawing it as lines of text.
//!
//! [`Bracket::from`] pairs the participants round after round until one slot
//! is left, the root. [`Bracket::render`] draws the tree, one line for every
//! slot. [`draw`] does both for a list of names, in the order given or in a
//! random one.

pub mod builder;
pub mod diagram;
pub mod error;
pub mod laws;
pub mod random;
pub mod render;
pub mod rounds;
pub mod text;
pub mod tree;

pub use diagram::{cell_width, draw, draw_in_order};
pub use error::BracketError;
pub use random::shuffle;
pub use render::Step;
pub use tree::Bracket;
