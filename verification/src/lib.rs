pub mod common;
pub mod packet;
pub mod ioc;
pub mod rules;
pub mod policy;
