//! A field-mapping conversion engine: decodes structured value trees into
//! flat records and encodes records back into trees, driven by a per-field
//! schema that supports default values, renaming, aliasing and a closed set
//! of custom per-field converters.
pub mod engine;
pub mod laws;
pub mod numeric;
pub mod schema;
pub mod value;
