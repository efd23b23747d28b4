pub mod auth;
pub mod commands;
pub mod interaction;
pub mod session;
pub mod handlers;
