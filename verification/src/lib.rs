//! Graph Style Sheets: a declarative configuration language with nested
//! objects and references between values.
use vstd::prelude::*;

pub mod api;
pub mod laws;
pub mod convert;
pub mod dump;
pub mod number;
pub mod parser;
pub mod resolve;
pub mod setting;
pub mod token;
pub mod value;

pub use api::{
    internal_parse, internal_parse_gss, internal_parse_object, internal_parse_object_from_str, internal_parse_value,
    parse_str, parse_str_with_options, parse_with_path, Gss, GssError,
};
pub use convert::{FromGssValue, GssType};
pub use parser::ErrorKind;
pub use value::{Expr, FloatLit, Object, Value};

verus! {
} // verus!
