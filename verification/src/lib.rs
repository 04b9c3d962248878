//! A generalized Game-of-Life cellular automaton over an arbitrary cell
//! graph extracted from a raster canvas.
//!
//! The canvas is a grid of small color codes; the extractor turns its
//! foreground pixels into a graph of cells with symmetric adjacency, and the
//! engine evolves cell liveness one generation at a time under configurable
//! birth/survival thresholds, optionally weighting each live neighbor by its
//! own live-neighbor count.

pub mod canvas;
pub mod engine;
pub mod extract;
pub mod graph;
pub mod parse;
pub mod rules;
