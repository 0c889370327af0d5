//! A procedural voxel world: sparse chunks of blocks, layered terrain rules,
//! and chunk streaming around a moving observer.
//!
//! Every quantity is an integer. Positions and heights are fixed-point numbers
//! in thousandths of a block, noise samples are fixed-point numbers in
//! millionths, and colours are percentages. Sampling a noise field is left to
//! the caller, who hands the samples of a chunk to the terrain rules.

pub mod block;
pub mod chunk;
pub mod clock;
pub mod config;
pub mod coord;
pub mod fnv_map;
pub mod laws;
pub mod memory;
pub mod render;
pub mod samples;
pub mod spawn;
pub mod stats;
pub mod terrain;
pub mod world;
