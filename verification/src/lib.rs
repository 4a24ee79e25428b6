//! The rules, state machines and wire formats of an online Go platform.
//!
//! Every module is verified: the outside crates it leans on are reached
//! through a handful of small wrappers whose contracts are stated next to
//! them.

pub mod ids;
pub mod model;
pub mod events;
pub mod board;
pub mod groups;
pub mod game_state;
pub mod judge;
pub mod liberties;
pub mod changelog;
pub mod entry_id;
pub mod wire;
pub mod codec;
pub mod color_chooser;
pub mod lobby;
pub mod sessions;
pub mod botlink;
pub mod undo;
pub mod repo;
pub mod xread;
pub mod config;
pub mod gateway;
