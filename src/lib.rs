//! A live JSON tree materializer and text transform engine.
//!
//! Text is parsed into [`JsonValue`], which keeps object members in order
//! with their duplicates and numbers as written; [`materialize`] turns a value
//! into a labelled display tree; the transforms rewrite a whole buffer; the
//! [`Coordinator`] keeps the last good tree and the error banner as the
//! buffer changes.
pub mod coordinator;
pub mod escape;
pub mod laws;
pub mod parser;
pub mod roundtrip;
pub mod serialize;
pub mod text;
pub mod transform;
pub mod tree;
pub mod value;

pub use coordinator::{Coordinator, ValidityState};
pub use parser::{parse, ParseError, MAX_DEPTH};
pub use serialize::{serialize_compact, serialize_pretty};
pub use transform::{
    apply_transform, escape, minify, prettify, strip_double_newlines, unescape, TransformError,
    TransformKind,
};
pub use tree::{materialize, Tree, TreeNode};
pub use value::{Json, JsonValue};
