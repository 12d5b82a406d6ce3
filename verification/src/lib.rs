//! A line-oriented text buffer with exact undo/redo and position-tracked
//! inline annotations ("links").
//!
//! The buffer is a non-empty sequence of lines, each a sequence of
//! characters. Every mutation is recorded as an invertible edit so that
//! undo and redo replay history exactly, and every link (a span bound to a
//! row and a column range) is repositioned by a dedicated shift pass after
//! each mutation so that it keeps tracking the text it annotates.

pub mod history;
pub mod hop;
pub mod links;
pub mod textarea;
pub mod util;
pub mod width;

pub use history::{Edit, EditKind, History};
pub use hop::MatchIndex;
pub use links::{Link, LinkStore};
pub use textarea::TextArea;
pub use util::Pos;
