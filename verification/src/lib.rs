//! Core of a trace explorer for recorded state-machine runs: a structural
//! diff over a tagged-union value model, a width-aware collapsible tree
//! renderer, an expansion state that distinguishes user choices from
//! automatic ones, and a viewport auto-fit that opens levels until the
//! rendering fills the screen without overflowing it.
//!
//! Every executable function here carries a contract tying its result to a
//! specification function; loading traces and driving a terminal happen
//! outside this crate.

pub mod diff;
pub mod expansion;
pub mod fit;
pub mod render;
pub mod text;
pub mod value;

pub use value::Value;
