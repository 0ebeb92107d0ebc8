//! A lattice Boltzmann (D3Q19) fluid-simulation core over a periodic 3D grid.
//!
//! The engine stores one packet distribution per lattice direction, advances
//! them by collision and streaming, recovers the macroscopic density and
//! velocity fields, and advects massless tracer particles through the flow.
//! All grid addressing goes through a validated index type, and streaming is
//! proved to be a pure, mass-preserving relocation of packet values.
//!
//! The scalar and vector cell types are type parameters: the engine owns the
//! addressing, iteration order, and data movement, while the caller supplies
//! the arithmetic on cell values through closures whose input/output relation
//! appears verbatim in the contracts.

pub mod lbm;
pub mod math;
