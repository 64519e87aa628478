//! Finds `//TODO: ... :ODOT//` annotations in comment context, pulls out an
//! optional priority, orders the records and renders them as text.
pub mod text;
pub mod annotation;
pub mod record;
pub mod render;
pub mod laws;
