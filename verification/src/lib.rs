//! Bakes a game's assets into flat lookup tables, and decides what the game
//! does with them each frame.
//!
//! Two bakers run before the game is built. Each is a function of what its
//! input files hold, and either gives a whole table or fails:
//!
//! - [`tile_map`] turns the first layer of a tile-map project into one `u16`
//!   per cell, row after row.
//! - [`animation`] turns the frame tags of sprite sheets into a list of
//!   (name, frame count) pairs, in the order the tags were given;
//!   [`metadata`] reads those tags out of the sheets' JSON metadata, and
//!   [`json`] holds what is taken on trust from the JSON parser.
//!
//! [`scene`] is the part of the running game that can be stated without the
//! console: the tile behind a background position, and the step from one
//! frame to the next. [`error`] lists the ways a bake can fail.
//!
//! Reading files and driving the console are left to the caller.

pub mod animation;
pub mod error;
pub mod json;
pub mod metadata;
pub mod scene;
pub mod tile_map;
