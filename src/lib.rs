pub mod codec;
pub mod conn;
pub mod list;
pub mod ring;
pub mod slot;
pub mod store;
pub mod worker;
