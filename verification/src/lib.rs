//! Builds SQL text from typed fragments.
//!
//! Every value is escaped by the constructor that takes it; fragments are
//! composed by appending, joining and template substitution; a failure met
//! anywhere stays with the fragment and is reported when the text is built.

pub mod combinators;
pub mod constructors;
pub mod decimal;
pub mod error;
pub mod escape;
pub mod fragment;
pub mod grammar;
pub mod laws;
pub mod sql;
pub mod strings;
pub mod template;
pub mod timestamp;

pub use crate::error::BuildError;
pub use crate::sql::SQL;
