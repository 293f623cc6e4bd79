pub mod app;
pub mod constants;
pub mod display;
pub mod text;
pub mod tool;
pub mod laws;
