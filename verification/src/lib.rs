//! Core logic for selecting Project Zomboid save-game chunk files by map
//! region: parsing textual region specifications and chunk filenames,
//! testing region membership, mapping tile coordinates onto the chunk-file
//! grid, and deriving the on-disk layout of a save.
//!
//! All functions here are pure coordinate and text computations; the
//! surrounding binary does the filesystem walking and deleting.

pub mod coord;
pub mod parse_int;
pub mod paths;
pub mod plan;
pub mod region;
pub mod text;

pub use coord::{MapCoord, MapCoordParseError};
pub use parse_int::IntParseError;
pub use paths::SavePaths;
pub use plan::{Action, ModifyMap};
pub use region::{
    coords_to_chunks, CoordRange, InvalidMapRegion, MapChunkRegion, MapRegion, MapRegionPart,
};
pub use text::find_first;
