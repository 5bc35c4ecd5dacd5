//! Compressed, interned representation of annotated Move type layouts.
//!
//! A [`layout::MoveTypeLayout`] stores every compound node of an annotated
//! layout tree once, in a shared pool, together with the field/variant names
//! and struct tags that the nodes refer to by index.  Primitive types are
//! encoded inline in a tagged 16-bit reference.

pub mod language_storage;
pub mod annotated_value;
pub mod variant_order;
pub mod layout;
pub mod keys;
pub mod builder;
pub mod contents;
pub mod display;
pub mod gcp_attestation;
pub mod signature_verify;
pub mod laws;
