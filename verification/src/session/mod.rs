//! The control session: its replies, its setup burst and the upkeep of a live link.

pub mod drain;
pub mod replies;
pub mod program;
pub mod contents;
pub mod setup_state;
pub mod setup;
pub mod setup_laws;
pub mod program_laws;
pub mod setup_step_laws;
pub mod flap;
pub mod socket;
pub mod keepalive;
pub mod keepalive_laws;
pub mod bringup;
pub mod opening;
pub mod opening_laws;
pub mod probe;
