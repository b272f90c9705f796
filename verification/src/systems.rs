//! The passes over the store: placing, wiring, simulating, cleaning up.

pub mod cleanup_sys;
pub mod place_node_sys;
pub mod place_wire_sys;
pub mod simulation_systems;
