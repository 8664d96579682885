use vstd::prelude::*;

verus! {

/// Number of cells along each side of the square playing field.
pub const GRID_SIZE: i32 = 20;

/// Time that must accumulate before the snake advances by one cell, in
/// microseconds.
pub const TICK_INTERVAL_MICROS: u64 = 150_000;

/// Largest number of entries a leaderboard keeps.
pub const LEADERBOARD_CAPACITY: usize = 10;

/// Number of characters in a freshly drawn player identifier.
pub const USER_ID_LENGTH: usize = 12;

pub const DEFAULT_SNAKE_COLOR: [u8; 3] = [0, 200, 0];

pub const DEFAULT_BACKGROUND_COLOR: [u8; 3] = [20, 20, 20];

pub const DEFAULT_APPLE_COLOR: [u8; 3] = [255, 0, 0];

pub const ANDROID_DOWNLOAD_URL: &'static str = "https://github.com/mintykiera/snake-game/releases";

pub const IOS_DOWNLOAD_URL: &'static str = "https://github.com/mintykiera/snake-game/releases";

} // verus!
