//! Core library of a PipeWire soundpad daemon.
//!
//! The daemon plays media files on independently controlled tracks, mixes
//! them into a virtual capture source, and is driven over a local socket by
//! a length-prefixed JSON protocol.  This crate holds the verified logic:
//! the wire types and their codec, the command dispatcher, the playback
//! engine's state machine, and the audio-graph bookkeeping.  The thin
//! unverified shell around it performs the actual socket, file and audio
//! I/O and feeds the outcomes back in as plain values.

pub mod config;
pub mod dispatch;
pub mod engine;
pub mod frame;
pub mod graph;
pub mod json;
pub mod render;
pub mod text;
pub mod wire;
