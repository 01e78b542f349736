pub mod application;
pub mod render;
