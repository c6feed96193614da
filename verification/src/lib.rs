//! A JSON value engine: a strict parser from text to a tagged value tree,
//! two renderers (dense and indented-pretty) back to text, and a small
//! path language for addressing and replacing one sub-value of a tree.

pub mod fmt;
pub mod laws;
pub mod model;
pub mod parse;
pub mod path;
pub mod path_model;
pub mod spec_parse;
pub mod text;
pub mod value;

pub use model::JsonModel;
pub use parse::parse_json;
pub use value::{JsonValue, ParseError, PathError};
pub use path_model::JsonKind;
