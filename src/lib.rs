//! Decision core of an arena agent: integer geometry, perception memory,
//! influence fields and the per-tick decision selector.
//!
//! All lengths are fixed-point integers in milli-units (1000 per arena unit),
//! all durations are milliseconds, and all field utilities are integers scaled
//! by `VALUE_ONE`.

pub mod geometry;
pub mod model;
pub mod memory;
pub mod fields;
pub mod potential_fields;
pub mod strategy;
