//! A 2D scene-graph engine core: transformable, renderable, time-driven
//! nodes held in an id-indexed arena, a scheduler for per-frame updates,
//! a scene stack with transition semantics, and a fixed-timestep loop.
//!
//! All geometry is carried in fixed-point integers (thousandths of a
//! unit, thousandths of a degree), so every transform computation is
//! exact and deterministic.

pub mod context;
pub mod cross_node;
pub mod engine;
pub mod image;
pub mod node;
pub mod node_nil;
pub mod orbit_anchor_node;
pub mod scene_boot;
pub mod scene_manager;
pub mod scheduler;
pub mod timing_target;
pub mod transform;
pub mod transform_filter;
pub mod vector_text_node;
pub mod visit;
pub mod world;
