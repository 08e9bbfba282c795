//! Serializers: build, per output shape, a mapping from a typed value to
//! a JSON value tree, without tying the type to one canonical JSON
//! representation. A mapping selects fields, renames keys, and delegates
//! to other mappings for nested objects and lists; the engine gathers the
//! contributions into a tree and renders it as JSON text.

pub mod builder;
pub mod laws;
pub mod render;
pub mod sample;
pub mod ser;
pub mod value;

pub use builder::Builder;
pub use builder::EncodeError;
pub use ser::serialize;
pub use ser::serialize_iter;
pub use ser::to_value;
pub use ser::Serializer;
pub use value::Json;
pub use value::JsonValue;
