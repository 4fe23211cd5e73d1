//! An interactive falling-sand cellular automaton: a square grid of cells
//! that the user paints with solid obstacles, into which particulate matter
//! is emitted from a configurable top-row column and falls under a simple
//! gravity rule, settling into piles.
//!
//! The crate holds the verified core: the grid store, the gravity/settling
//! engine, the play/pause/stop session state machine, the input controller,
//! and the pixel-buffer compositor. Presenting the buffer on a window and
//! polling raw input live outside the library.

pub mod grid;
pub mod material;
pub mod render;
pub mod session;
pub mod theme;
