//! A voxel/grid indexing library: dense N-dimensional chunks addressed by
//! integer positions, organised into a sparse world keyed by chunk
//! coordinate.

pub mod buffer;
pub mod convert;
pub mod dynamic;
pub mod ordering;
pub mod position_map;
pub mod plane;
pub mod positions;
pub mod resolve;
pub mod shape;
pub mod storage;
pub mod uniform;
pub mod utils;
pub mod world;

pub use position_map::PositionMap;
pub use positions::OffsetPositions;
pub use positions::Positions;
pub use shape::Shape;
pub use shape::UniformShape;
pub use shape::WorldCoordinate;
pub use world::Multiform;
pub use world::Subform;
pub use world::Uniform;
