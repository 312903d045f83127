//! Verified core of a serial terminal bridge.
//!
//! A serial device emits a mixed stream of free-form text and framed binary
//! packets. This crate holds the verified logic of that bridge: the wire
//! constants and packet types, the incremental stream decoder with its
//! skip-and-resync policy, the fixed six-byte data record codec, the frame
//! encoder, the serial worker's message construction, the line editor, and
//! the port-selection heuristic. The surrounding process (terminal handling,
//! the serial port itself, threads and channels) lives outside this crate and
//! hands it plain values.

pub mod controller;
pub mod data;
pub mod editor;
pub mod mxs_decoder;
pub mod mxs_encoder;
pub mod mxs_shared;
pub mod ports;
pub mod worker;
