//! A fixed-timestep 2D arena simulation in integer fixed-point arithmetic.
//!
//! Lengths are measured in sub-pixel units (`PX` of them to a pixel), angles in
//! `1/6000` radian, velocities per tick and lifetimes in ticks, so that every
//! step of the simulation is exact integer arithmetic.

pub mod geom;
pub mod body;
pub mod world;
pub mod laws;
mod chance;
