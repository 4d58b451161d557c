pub mod foliage;
pub mod level;
pub mod platform;
pub mod vines;
pub mod wall;
