//! Per-vehicle kinematics and body-geometry reconstruction for a
//! discrete-event traffic simulation.
pub mod align;
pub mod car;
pub mod interval;
pub mod network;
