//! Euclidean rhythm sequencing: pattern construction, the parameter bank and
//! the per-sample note scheduler.

pub mod editor;
pub mod inline_vec;
pub mod pattern;
pub mod scheduler;
pub mod note;
pub mod params;
pub mod text;
pub mod timeline;
