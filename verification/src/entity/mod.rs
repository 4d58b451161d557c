pub mod common;
pub mod player;
pub mod spring;
