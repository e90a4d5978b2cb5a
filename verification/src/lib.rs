//! A recursive path tracer over exact fixed-point arithmetic: spheres with
//! diffuse and reflective materials, a pinhole camera, Monte Carlo sampling,
//! and gamma-corrected plain-text pixel output.

pub mod fixed;
pub mod text;
pub mod vector3d;
pub mod ray;
pub mod hit;
pub mod material;
pub mod sphere;
pub mod world;
pub mod camera;
pub mod color;
pub mod renderer;
pub mod util;
