//! An interactive installer menu library: a cursor-based menu state machine
//! with wraparound navigation, a record of completed installation steps
//! persisted as a JSON document, and the pure decision logic of the
//! render/input loop. Terminal rendering and subprocess execution live
//! outside the library; everything here is verified.

pub mod menu;
pub mod state;
pub mod package;
pub mod dispatch;
pub mod codec;
