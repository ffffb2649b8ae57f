//! Navigation over workspace rings for a tiling window manager.
//!
//! Workspaces on one output are grouped into rings, one ring per band of a
//! hundred workspace numbers. Directional commands step left and right inside
//! a ring and up and down between the rings of an output; at the edge of the
//! topology they wrap around or name a workspace that does not exist yet.
//!
//! The crate is pure: it turns a snapshot of the window manager (the flat
//! workspace list and the window tree) into a [`state::ProgramState`], and a
//! state plus a [`command::Command`] into the command texts to send.

pub mod builder;
pub mod command;
pub mod model;
pub mod navigation;
pub mod plan;
pub mod snapshot;
pub mod state;
pub mod table;
pub mod text;
