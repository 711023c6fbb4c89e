//! A retained-mode attribute-buffer scope manager.
//!
//! The crate centres on [`scope::AttributeScope`]: a registry of named,
//! uniformly sized per-instance buffers, together with an instance allocator
//! that reuses freed slots smallest-first and a dirty tracker that decides,
//! once per frame, the minimal set of buffers that must be pushed to the
//! device. [`attribute::Attribute`] is a thin typed handle onto one
//! (instance, buffer) cell. [`name`] holds the qualified-name utilities and
//! [`viz`] the built-in visualization definitions that accompany the engine.

pub mod attribute;
pub mod name;
pub mod scope;
pub mod viz;
