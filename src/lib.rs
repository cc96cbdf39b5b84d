//! Procedural voxel terrain: seeded column generation with halo write-through,
//! face-culling meshing with per-corner ambient occlusion, and the decisions that
//! stream terrain columns around a moving camera.

pub mod blocks;
pub mod coordinates;
pub mod chunk;
pub mod mesh;
pub mod world;
pub mod world_loader;
