//! Parsing, folding, interpreting and compiling programs of the eight-command tape
//! language.

pub mod bf;
pub mod parse;
pub mod machine;
pub mod c;
pub mod wasm;
