//! Parse, reduce and transform CQL2 (OGC Common Query Language 2) filter expressions.
use vstd::prelude::*;

pub mod cli;
pub mod decode;
pub mod encode;
pub mod error;
pub mod expr;
pub mod geometry;
pub mod grammar;
pub mod json;
pub mod jsontext;
pub mod laws;
pub mod number;
pub mod operators;
pub mod ops;
pub mod parser;
pub mod reduce;
pub mod sql;
pub mod temporal;
pub mod text;

pub use cli::{Cli, InputFormat, OutputFormat};
pub use decode::from_json;
pub use error::Error;
pub use expr::Expr;
pub use geometry::{spatial_op, Geometry};
pub use json::Json;
pub use number::Number;
pub use operators::{Op, Ops};
pub use parser::parse_text;
pub use sql::{NameKind, ToSqlOptions};
pub use temporal::{temporal_op, DateRange};

verus! {

} // verus!
