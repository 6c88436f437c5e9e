pub mod chunk;
pub mod codegen;
pub mod effect;
pub mod environment;
pub mod laws;
pub mod mini_macros;
pub mod parser;
pub mod shape;
pub mod text;
pub mod tokens;
pub mod value;
pub mod vm;
