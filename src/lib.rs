//! A fixed-point ray tracer: vector algebra, ray-sphere intersection, materials
//! and a recursive integrator, over integers that stand for real numbers.
pub mod camera;
pub mod color;
pub mod fixed;
pub mod vec3;
pub mod ray;
pub mod material;
pub mod hit;
pub mod sphere;
pub mod random;
pub mod render;
pub mod scene;
