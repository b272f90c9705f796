//! What the pointer does to the circuit.

pub mod mouse_click;
pub mod pointer;
