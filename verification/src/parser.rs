//! The public items of the library under one path.

pub use crate::book::{Book, ParseStats};
pub use crate::extract::{variant_name_to_variant, ParsingState};
pub use crate::outcome::turn_white;
pub use crate::position::{BookMove, BookPosition};
pub use crate::record::{Header, PgnInfo, SanUciFenEpd, Variant};
pub use crate::segment::{Fed, PgnIterator, PgnReadingState, Segmenter};
