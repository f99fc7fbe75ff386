//! The verified core of a tile-based platformer.
//!
//! Its main part turns the wall tiles of a level into a small set of
//! rectangular colliders. The tiles of each row are merged into plates, runs
//! of contiguous wall tiles ([`plate`]); plates that recur with the same
//! bounds in consecutive rows are merged into rectangles ([`merge`]);
//! [`mesh`] puts the two together and proves that the rectangles cover the
//! wall tiles, each exactly once. [`rect`] maps a rectangle of tiles to the
//! collider that stands for it.
//!
//! The wall tiles ([`grid`]) and the rectangles in progress are kept in the
//! hash set and the hash map of the engine. What these do is not proved here
//! but stated, in the contracts of a few small functions around them.
//!
//! [`player`] holds the rules of the player character.

pub mod grid;
pub mod merge;
pub mod mesh;
mod open_rects;
pub mod plate;
pub mod player;
pub mod rect;
