//! A recursive ray tracer over fixed-point numbers.
//!
//! Scalars count millionths (`fixed`), angles millionths of a radian
//! (`trig`), and vectors have three such components (`vectors`). A scene
//! is a list of spheres, triangles and planes with their materials, and a
//! list of lights (`scene`, `texture`). A ray is followed to the surface
//! that it meets first (`camera`), and the color that it brings back is
//! found from the lights, the mirrored ray and the refracted ray
//! (`shader`). `raster` holds the edges of triangles on a grid of pixels.
pub mod camera;
pub mod fixed;
pub mod raster;
pub mod scene;
pub mod shader;
pub mod texture;
pub mod trig;
pub mod vectors;
