//! Conversion from a reflective, schema-described protobuf value model into a
//! generic dynamic value model, with three interchangeable strategies: a
//! schema-less walker, a schema-aware walker that resolves enum numbers to
//! their symbolic names, and an indirect converter that goes through a
//! canonical text-object form first.
pub mod convert;
pub mod kindful;
pub mod laws;
pub mod model;
pub mod numeric;
pub mod text;
pub mod wire;
