//! The decision core of a path tracer: bounding boxes, a bounding-volume
//! hierarchy, the scene-graph protocol and the material rules that sit on top
//! of it.
//!
//! Numbers are single-precision values held by their bit patterns (see
//! [`scalar::Scalar`]). The library orders them, negates them and tests their
//! class exactly; it never adds or multiplies them. Whatever has to be
//! computed arithmetically is handed in by the caller: as values worked out
//! beforehand (the roots of a sphere's equation, the slabs of a box), or as
//! a function that the library calls when it needs the result (how a ray
//! meets a box of the hierarchy, how light is blended).
//!
//! - [`scalar`], [`vec2`], [`vec3`], [`ray`], [`attribute`]: numbers and
//!   what is made of them.
//! - [`aabb`]: boxes, their union and the slab test.
//! - [`hittable`]: the hit record, the protocol of everything that can be
//!   hit, and objects that are moved or turned.
//! - [`sphere`], [`triangle`], [`rect`], [`meshes`]: the shapes.
//! - [`hittable_list`], [`bvh`]: many objects queried as one, in a row or
//!   through a hierarchy of boxes.
//! - [`nearest`]: what lists and hierarchies find is the nearest hit.
//! - [`texture`], [`material`]: colour and the way surfaces answer a ray.
//! - [`cpu_renderer`]: the light that arrives along a ray.
//! - [`arena`]: shared objects under handles.
//! - [`helpers`]: odds and ends.

pub mod scalar;
pub mod vec2;
pub mod vec3;
pub mod ray;
pub mod attribute;
pub mod aabb;
pub mod hittable;
pub mod sphere;
pub mod triangle;
pub mod rect;
pub mod meshes;
pub mod hittable_list;
pub mod bvh;
pub mod nearest;
pub mod texture;
pub mod material;
pub mod cpu_renderer;
pub mod arena;
pub mod helpers;
