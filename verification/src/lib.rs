//! A dense three-dimensional voxel grid over fixed-width binary cells,
//! with 90-degree rotation about the vertical axis and an encoder for the
//! MagicaVoxel `.vox` chunked binary format.

pub mod cells;
pub mod codec;
pub mod grid;
pub mod rotate;
pub mod vox;

pub use cells::EnumerateCells;
pub use cells::EnumerateCellsMut;
pub use codec::Codec;
pub use codec::Voxel;
pub use grid::Grid;
pub use rotate::Rotation;
