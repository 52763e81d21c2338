pub mod model;
pub mod firewall;
pub mod parser;
pub mod analyze;
pub mod summary;
