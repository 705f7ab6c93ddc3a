//! Signature extraction for source trees: the declarations of each script and
//! style file, rendered as canonical one-line strings and gathered into a
//! report with a stable order.

pub mod error;
pub mod extractor;
pub mod globs;
pub mod laws;
pub mod model;
pub mod paths;
pub mod scanner;
pub mod sequences;
pub mod signature_set;
pub mod text;
pub mod types;
