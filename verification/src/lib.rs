//! Core of a peer-to-peer file transfer agent.
//!
//! The library holds the verified logic of the transfer orchestrator: the
//! rolling-window speed tracker, path sanitization for received files,
//! configuration handling, the scheduling state machine that bounds
//! concurrent transfers with FIFO queues, and the per-task state machines
//! for sending and receiving. All network and filesystem work is driven by
//! a thin unverified runtime that feeds events into these state machines.

pub mod config;
pub mod events;
pub mod format;
pub mod input;
pub mod orchestrator;
pub mod paths;
pub mod receive;
pub mod send;
pub mod speed;
pub mod text;
pub mod theme;
pub mod tree;
pub mod ui_model;

pub use speed::SpeedTracker;
