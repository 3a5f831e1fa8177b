//! Top-down map rendering of voxel-world region files.
//!
//! The crate decodes region files (sector index, compressed chunk payloads,
//! tag trees, bit-packed block states), resolves block appearances through a
//! memoising texture store, and rasterises each region column by column.

pub mod anvil;
pub mod bits;
pub mod blockstates;
pub mod bytes;
pub mod json;
pub mod loader;
pub mod map;
pub mod nbt;
pub mod palette;
pub mod raster;
pub mod renderer;
pub mod resources;
pub mod table;
pub mod text;
pub mod texture;
pub mod wire;
