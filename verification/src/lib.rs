pub mod application;
pub mod bodies;
pub mod conn;
pub mod message;
pub mod router;
pub mod routing;
pub mod server;
pub mod wire;
