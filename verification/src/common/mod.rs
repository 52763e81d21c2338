pub mod text;
pub mod status;
pub mod diagnostics;
pub mod endian;
pub mod checksum;
pub mod ip;
pub mod reader;
pub mod time;
pub mod strings;
pub mod catalog;
pub mod counts;
