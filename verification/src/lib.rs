//! A two-pass assembler for a 16-bit computer architecture: it turns a
//! line-oriented symbolic assembly source into 16-digit binary words,
//! resolving labels (also forward references) and allocating variables.

pub mod code;
pub mod code_constants;
pub mod driver;
pub mod errors;
pub mod instruction_enum;
pub mod parser;
pub mod predefined_symbols;
pub mod symbol_table;
pub mod text;
