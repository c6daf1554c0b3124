//! The types a host works with, under one roof.

pub use crate::path::PLPath;
pub use crate::path_type::PathType;
pub use crate::point::Point;
pub use crate::puncture::PuncturePoint;
pub use crate::word::simplify_word;
