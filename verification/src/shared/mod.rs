//! What the execution strategies share: text helpers, name tables, tokens,
//! streams.
pub mod results;
pub mod scanner;
pub mod streams;
pub mod table;
pub mod text;
