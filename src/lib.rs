pub mod aabb;
pub mod bvh;
pub mod mesh;
pub mod ppm;
pub mod integrator;
