//! Approximates a target raster image by evolving vector paintings: ordered
//! sets of semi-transparent polygons, rasterized by a scanline fill with
//! alpha compositing and scored against the target by exact rational
//! similarity metrics. Three metaheuristic strategies (elitist evolution,
//! simulated annealing, differential evolution) share one batched step and
//! termination contract.
//!
//! Coordinates are fixed-point integers (`COORD_SCALE` sub-pixel units per
//! pixel) and scores are exact rationals, so every part of the search, the
//! rasterizer and the scorer is ordinary integer computation.

pub mod algorithms;
pub mod engine;
pub mod generations;
pub mod mutations;
pub mod renderer;
pub mod rng;
pub mod scoring;
pub mod types;

pub use scoring::{mse_compare_raw, sad_compare_raw, Accuracy, Metric};
pub use types::{Image, Polygon};
