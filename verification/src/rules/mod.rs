pub mod lexer;
pub mod model;
pub mod parser;
pub mod normalize;
pub mod validate;
pub mod matcher;
