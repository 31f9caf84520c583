pub mod codec;
pub mod store;
pub mod server;
pub mod session;
pub mod replication;
pub mod laws;
