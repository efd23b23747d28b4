pub mod codec;
pub mod packets;
