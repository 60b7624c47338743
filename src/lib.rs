// A 2D rigid-body collision detection and contact-resolution engine over an
// entity/component store, in integer fixed-point arithmetic.
//
// Geometry: shapes and their validation (`geometry`), convex hulls (`hull`),
// regions swept over one step (`swept`), broad and narrow phase (`collision`).
// Physics: contact response (`reaction`), the solver loop (`solver`) and the
// integrator helpers (`dynamics`), over the component stores (`storage`,
// `world`).

pub mod algebra;
pub mod collision;
pub mod components;
pub mod containment;
pub mod dynamics;
pub mod entities;
pub mod error;
pub mod geometry;
pub mod hull;
pub mod loader;
pub mod numeric;
pub mod reaction;
pub mod scene;
pub mod solver;
pub mod storage;
pub mod swept;
pub mod world;
