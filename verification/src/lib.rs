pub mod aabb;
pub mod bvh;
pub mod camera;
pub mod config;
pub mod filter;
pub mod loader;
pub mod material;
pub mod math;
pub mod mesh;
pub mod point;
pub mod rayintersectable;
pub mod renderer;
pub mod scene;
pub mod sorting;
pub mod texture;
pub mod tonemap;
