//! A tile-based world that is cut into square chunks.
//!
//! The crate holds the rules of the world: which tile kinds exist, how a
//! chunk stores its tiles, how chunks are named and streamed in and out as a
//! view moves, how noise samples become terrain, and how shorelines are
//! tidied up afterwards. Windowing, rendering and the noise field itself are
//! left to the program that uses the crate.

pub mod rng;
pub mod sprites;
pub mod tilemap;
pub mod tileset;
