//! An editable digital-logic circuit.
//!
//! * [`components`] holds the records of a circuit: node kinds and what
//!   they compute, nodes, ports, wires and placements.
//! * [`store`] is the entity store that owns them, with deferred deletion
//!   and weak references; [`registry`] is where its entity identities come
//!   from.
//! * [`systems`] are the passes over the store: the two-phase simulation
//!   tick, the consistency sweep, and the placing of nodes and wires.
//! * [`ui`] turns the pointer's clicks and the host's signals into those
//!   passes, by the editor's mode, which [`resources`] defines beside the
//!   frame clock.
//! * [`frame`] runs one frame of all this in its fixed sequence, and
//!   [`wiring`] states what every such frame keeps true of the circuit.

pub mod components;
pub mod frame;
pub mod registry;
pub mod resources;
pub mod store;
pub mod systems;
pub mod ui;
pub mod wiring;
