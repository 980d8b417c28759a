//! The discrete core of a fractal raymarching viewer, verified.
//!
//! The viewer draws an escape-time fractal by sphere tracing: for each pixel
//! it aims a ray from the camera, marches along it through a distance field
//! until the field says the surface is near or the ray has gone too far, and
//! colours the pixel by how the march ended. The arithmetic of the field is
//! floating-point and belongs to the host. What is decided in integers is
//! here, with proofs:
//!
//! - [`tracer`]: the march. Which samples it takes, when it reports a hit or
//!   a miss, and that it ends.
//! - [`orbit`]: the escape-time loop. How many passes it makes and which
//!   state the distance estimate is read from.
//! - [`viewport`]: the pixel grid. Which pixels are shaded, in which order,
//!   and where their centres lie on the screen.
//! - [`params`]: iteration count and detail level, kept in their domain.
//! - [`movement`]: from held keys to camera steps.
//! - [`quad`]: the two triangles that cover the screen.
//!
//! Lengths cross into the library in fixed-point: an `i64` counts steps of
//! `1 / tracer::UNIT` scene units.

pub mod movement;
pub mod orbit;
pub mod params;
pub mod quad;
pub mod tracer;
pub mod viewport;
