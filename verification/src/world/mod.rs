pub mod chunks;
pub mod foliage;
pub mod loading;
pub mod packing;
pub mod terrain;
pub mod wire;
pub mod worldgen;
pub mod caves;
pub mod storage;
