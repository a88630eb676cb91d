//! Read-only decoder for Minecraft region files.
//!
//! A region file stores a 32 x 32 grid of chunks: a fixed sector table at the
//! start of the buffer locates each chunk's compressed payload, the payload
//! inflates to a binary tag tree, and the tree's vertical sections carry
//! bit-packed palette indices for block states and biomes, plus packed
//! heightmaps.  This crate decodes those layers into plain values: block
//! identities, biome names and surface heights.  It never writes region data.

pub mod block;
pub mod chunk;
pub mod error;
pub mod packing;
pub mod region;
pub mod tag;
