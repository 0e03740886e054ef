//! The discrete core of a Monte-Carlo ray tracer.
//!
//! Every scalar that the renderer works with (a coordinate, a ray parameter,
//! a colour channel) is held here as a [`vec3::Scalar`]: an integer key whose
//! order is the order of the real numbers it stands for. The core decides by
//! comparing such keys; it never does arithmetic on them. Whatever needs
//! arithmetic (where a ray crosses a plane, where it leaves a surface) is
//! handed in by the caller, as a value or as a function.
pub mod aabb;
pub mod aarect;
pub mod bvh;
pub mod color;
pub mod hittable;
pub mod hittablelist;
pub mod material;
pub mod ray;
pub mod render;
pub mod rtweekend;
pub mod texture;
pub mod vec3;
