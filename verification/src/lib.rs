//! Parsing of free-form author strings (`Name <email>`, comma-separated
//! lists, bracketed and quoted variants) into structured values, with
//! span-accurate diagnostics on malformed input.

pub mod author;
pub mod error;
pub mod laws;
pub mod model;
pub mod parser;

pub use author::Author;
pub use author::Authors;
pub use error::Failure;
pub use error::ParseError;
pub use model::Reason;
pub use parser::author;
pub use parser::authors;
pub use parser::email;
pub use parser::name;
pub use parser::parse_author;
pub use parser::parse_authors;
pub use parser::separator;
