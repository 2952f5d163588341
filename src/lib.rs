//! Navigation primitives of a JSON query language: field lookup, indexing,
//! slicing, projections and flattening over an in-memory JSON value tree,
//! and the parser of slice literals such as `1:-1:2`.

pub mod path;
pub mod select;
pub mod slice;
pub mod value;

pub use path::JMESPath;
pub use slice::{JMESSlice, ParseJMESSliceError};
pub use value::Value;
