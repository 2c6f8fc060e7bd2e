//! Simulation core of a small arcade game: a steered character, bullets and
//! wandering enemies on a fixed play area.
//!
//! Every length, speed and factor is a fixed-point number held as an `i32`
//! count of thousandths; every time span is a count of milliseconds.

pub mod aim;
pub mod background;
pub mod bullet;
pub mod character;
pub mod collision;
pub mod consts;
pub mod enemies;
pub mod events;
pub mod explosion;
pub mod fixed;
pub mod rain;
pub mod state;
pub mod timer;
pub mod utils;
pub mod world;
