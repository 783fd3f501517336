//! Caller-facing response shapes.

pub mod httpish;
