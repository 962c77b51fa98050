//! Core of a small arena game simulation: a player ship fires missiles at
//! asteroids that spawn on a timer. The library holds the per-frame pipeline
//! (motion integration, pairwise collision detection, spawn/despawn lifecycle,
//! pause gating and frame ordering) over fixed-point integer coordinates, so
//! that every step carries a proved contract. Rendering, asset loading and
//! input devices are the frontend's business; they exchange plain values with
//! this crate.
pub mod asteroid;
pub mod collision_detection;
pub mod despawner;
pub mod game_state;
pub mod math;
pub mod movement;
pub mod random;
pub mod schedules;
pub mod spaceship;
pub mod world;
