//! Renames a sequence of items after a compact pattern with a zero-padded running index.
//!
//! - `pattern`: compiles a pattern `[<prefix>{padded_idx}]<suffix>` and renders destination
//!   names from it.
//! - `digits`: decimal digits, zero padding, and the padding width of a run.
//! - `traversal`: the sequential and the alternating-ends order over a slice.
//! - `sequencer`: assigns indices and destination names and hands them to a visitor.
//! - `segments`: the fixed-capacity list of a pattern's dynamic segments.
pub mod digits;
pub mod pattern;
pub mod segments;
pub mod sequencer;
pub mod traversal;

pub use digits::max_size_hint_digits;
pub use pattern::{
    DynamicRenameContent, RenameContext, RenameSpec, RenameSpecParseError,
    RenameSpecParseErrorKind,
};
pub use sequencer::{zip_single_side_scans, RenameTask, Sequencer, Visitor};
pub use traversal::{ForwardOrBackward, Order, SortBy, Traversal, ZigZag};
