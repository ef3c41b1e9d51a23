//! A sparse voxel world: chunked block storage with floored coordinate
//! arithmetic, procedural chunk generation, instanced cube meshes with
//! texture-atlas lookups, and a DDA ray picker that finds the first solid
//! block along a ray.

pub mod assoc;
pub mod coords;
pub mod generate;
pub mod mesh;
pub mod picker;
pub mod world;
