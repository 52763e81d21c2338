pub mod pcap;
pub mod ethernet;
pub mod ipv4;
pub mod transport;
pub mod dns;
pub mod metadata;
pub mod summary;
