//! A layered terminal pixel canvas with drawing tools, and the mirroring of
//! its edits between peers.
//!
//! - `cell`: colors, cells and the paint commands that put cells on screen.
//! - `screen`: items, pannable layers and the two-layer screen: compositing,
//!   hit-testing and buffered redraw.
//! - `codec`: the wire records of edits, their encoding and decoding.
//! - `session`: the outbound queue of a peer session, with bounded retention.
//! - `tools`: the editor state machine that turns key and pointer events into
//!   canvas edits, terminal commands and published updates.

use vstd::prelude::*;

pub mod cell;
pub mod screen;
pub mod codec;
pub mod session;
pub mod tools;

verus! {

} // verus!
