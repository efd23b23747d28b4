pub mod net;
pub mod server;
pub mod text;
pub mod types;
pub mod world;
