//! A Modbus-TCP server core that maps coil writes to audio-clip playback.
//!
//! The crate holds the verified logic of the bridge: byte-stream reassembly
//! and framing of Modbus-TCP requests, function dispatch and exception
//! encoding, the edge-triggered coil store that decides when a clip is
//! played, the clip-player state shared with an audio callback, and the
//! tokenizer for the configuration file.  Network and audio I/O live in the
//! surrounding application, which drives these types with plain values.

pub mod clip_player;
pub mod config;
pub mod modbus_server;
pub mod ops;
pub mod split_quoted;
