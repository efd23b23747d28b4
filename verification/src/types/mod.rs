pub mod block_entities;
pub mod blocks;
pub mod entity;
pub mod items;
pub mod player;
pub mod recipes;
