//! The state of the viewer, and what happens to it.

pub mod capture;
pub mod history;
pub mod job;
pub mod list;
pub mod state;
pub mod textures;
pub mod window;
