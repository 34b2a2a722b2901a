pub mod data_types;
pub mod spatial;
pub mod storage;
pub mod registry;
pub mod net;
pub mod server;
pub mod wire;
