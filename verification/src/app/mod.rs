pub mod commands;
pub mod config;
pub mod vars;
