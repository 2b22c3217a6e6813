pub mod bridge;
pub mod map;
pub mod space;
pub mod world;
