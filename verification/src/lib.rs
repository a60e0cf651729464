//! A 2D incompressible-flow solver on a staggered (MAC) grid.
//!
//! The engine advances a velocity field one timestep at a time: an
//! iterative pressure projection drives the divergence of every fluid
//! cell towards zero, and a semi-Lagrangian advection step transports
//! the velocity field along itself.  All arithmetic is carried out in a
//! saturating Q31.32 fixed-point scalar type, so every update is an
//! exact, fully specified integer computation.

pub mod fixed;
pub mod fluid_engine;
pub mod laws;
