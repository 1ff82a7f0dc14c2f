//! Teleoperation protocol logic: wire framing, session negotiation, safety
//! supervision, motion-command layouts, flight recording and video transport.
//!
//! Everything here is a deterministic function of its arguments. Sockets,
//! clocks, files, cameras and screens belong to the programs around it.

pub mod action;
pub mod action_trigger;
pub mod action_trigger_handler;
pub mod bridge;
pub mod camera_control;
pub mod camera_control_handler;
pub mod capture;
pub mod channel_a;
pub mod channel_b;
pub mod client;
pub mod client_state;
pub mod command;
pub mod datagram;
pub mod estop;
pub mod fb;
pub mod fb_table;
pub mod fixed;
pub mod gamepad;
pub mod gateway;
pub mod hello;
pub mod hello_handler;
pub mod input;
pub mod interpolation;
pub mod options;
pub mod picture;
pub mod playback;
pub mod profile;
pub mod reassembly;
pub mod recorder;
pub mod recording;
pub mod replay_decode;
pub mod restart;
pub mod safety;
pub mod session;
pub mod session_cache;
pub mod session_handler;
pub mod single;
pub mod sizing;
pub mod text;
pub mod time;
pub mod timestamp;
pub mod ui;
pub mod video;
pub mod wire;
pub mod xgo_profile;
pub mod zenoh_bridge;
pub mod zenoh_monitor;
