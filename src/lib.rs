//! Per-tick gameplay rules of a small top-down shooter: the turret fire
//! controller with its cooldown and round-robin muzzles, the projectile
//! lifetime, and the mapping from direction keys to a movement vector.

pub mod bullet;
pub mod controls;
pub mod game_state;
pub mod geometry;
pub mod turret;
