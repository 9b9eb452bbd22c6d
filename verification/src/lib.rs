//! Core logic of a map-annotation tool: a region document holding labeled
//! points on an image, coordinate transformations between screen and content
//! space, a selection/editing state machine with a read-only gate, and a
//! persistence layer with backup-before-overwrite.

pub mod coords;
pub mod document;
pub mod format;
pub mod persist;
pub mod selection;
