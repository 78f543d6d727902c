//! Simulation core of a sheep-herding game: wandering and merging sheep, war
//! machines that hunt them, and the battle phase that ends when either side is
//! gone.
pub mod geometry;
mod random;
pub mod sheep;
pub mod battle;
pub mod world;
