//! Schema-less decoding of Protocol Buffer wire data into an inspectable tree
//! keyed by field number.
pub mod encoding;
pub mod error;
pub mod fixed;
pub mod laws;
pub mod light;
pub mod nom_helper;
pub mod parser;
pub mod strings;
pub mod tag;
pub mod var;
