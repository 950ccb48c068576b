//! Event graph of a small shooter: nodes wired by pins, edits that keep the
//! graph free of cycles, and tick-by-tick propagation of events through it.

pub mod background;
pub mod editor;
pub mod events;
pub mod gameplay;
pub mod graph;
pub mod node;
pub mod propagation;
pub mod snarl;
pub mod state;
pub mod store;
