pub mod camera;
pub mod color;
pub mod fixed;
pub mod hittable;
pub mod materials;
pub mod ray;
pub mod shapes;
pub mod utils;
pub mod vec3;
