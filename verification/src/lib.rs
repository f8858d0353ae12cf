//! The discrete core of a small ray caster: everything the renderer decides
//! and everything it computes in integers, stated and proved.
//!
//! The caller does the arithmetic on real numbers and hands the results in
//! as the bit patterns of their binary64 encoding.  The library decides on
//! them: which roots of a quadratic count, where a ray meets an object and
//! where it stops, whether a point lies in shadow, which cell of the noise
//! field holds a point, at which scales turbulence samples it, which gray
//! level a light level gives, and where each pixel goes in the frame.  What
//! a decision means for the numbers is stated over `binary64::decode`.

pub mod binary64;
pub mod light;
pub mod noise;
pub mod quadratics;
pub mod render;
mod rng;
pub mod scene;
