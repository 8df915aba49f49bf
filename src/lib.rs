//! Integer core of a progressive Monte Carlo path tracer: the sample
//! streams, the bounded traversal stack, the bounding-volume-hierarchy
//! layout, texture-atlas packing, the per-hit decisions of the tracer and
//! the bookkeeping of the progressive accumulation loop.

pub mod atlas;
pub mod bvh;
pub mod path;
pub mod progress;
pub mod scene;
pub mod stack;
mod rng;

pub use rng::{
    blue_noise_seeds, draw_uniform_seeds, lds_bits, pcg_hash, uniform_seeds, RngSeed, RngState,
    LDS_MAX_DIMENSIONS,
};
