//! Core of a terminal text editor: a line-structured text buffer with a
//! flat-sequence mathematical model, an undo/redo log of invertible edit
//! operations, a scrolling viewport, a frame-diffing renderer, and the
//! input dispatcher that ties them together as a state machine.
//!
//! Terminal I/O (raw mode, event decoding, painting) is left to an outer
//! collaborator; everything here is pure logic over plain values.

pub mod model;
pub mod buffer;
pub mod editlog;
pub mod editor;
pub mod renderer;
pub mod laws;
pub mod welcome;
pub mod viewport;
