//! A drone of a packet network: it passes packets on along the routes that they carry, takes part
//! in floods, obeys the simulation controller, and crashes gently.
//!
//! The drone does no input or output. It is handed packets and commands, and hands out what is
//! to be sent.

pub mod controller;
pub mod draw_log;
pub mod drone;
pub mod drone_laws;
pub mod drone_model;
pub mod drop_rate;
pub mod flood_history;
pub mod network;
pub mod networking;
pub mod packet;
pub mod ring_buffer;
pub mod run_laws;
pub mod step_laws;
