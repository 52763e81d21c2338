pub mod normalize;
pub mod classify;
pub mod model;
pub mod parser;
pub mod matcher;
