//! A zero-copy decoder for the event stream of a Standard MIDI File track.
//!
//! `Event::read` takes a cursor (a byte slice that shrinks from the front)
//! and a running-status cell, and returns one typed event together with the
//! exact bytes it took. Payloads (system-exclusive data, text, sequencer
//! blobs) borrow the input. Only channel status bytes set the running status;
//! system-exclusive, escape and meta events leave it as it was. (The MIDI 1.0
//! wire protocol has system-exclusive messages clear it; files are found
//! written both ways, and keeping it is the more tolerant reading.)

pub mod event;
pub mod primitive;

pub use event::{Event, EventKind, MetaMessage, MidiMessage};
pub use primitive::{ErrorKind, Fps, SmpteTime, u14, u24, u28, u4, u7};
