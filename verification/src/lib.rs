//! Homotopy classes of paths in a punctured plane.
//!
//! A point moves over an integer grid that holds a finite set of labelled
//! punctures. The crate keeps the polyline traced so far, prunes the nodes
//! that no puncture holds in place, and maintains the word of the loop that
//! the polyline closes: one letter for each passage above a puncture, reduced
//! in the free group on the labels.
//!
//! * [`point`]: grid points and the exact orientation test.
//! * [`puncture`]: punctures and what they ask of a path.
//! * [`path`]: polylines with at least one node.
//! * [`word`]: words and their reduction.
//! * [`path_type`]: a path together with its word.
//!
//! A host that measures in real units scales its coordinates to the grid.
//! Nothing here depends on the scale but the band of [`puncture::BAND`] grid
//! steps beside a node, so the host chooses the scale to fit that band.

pub mod path;
pub mod path_type;
pub mod piecewise_linear;
pub mod point;
pub mod puncture;
pub mod word;
