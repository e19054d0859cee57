//! Single-spin-flip Metropolis Monte Carlo for the two-dimensional Ising
//! model on a periodic square lattice: the lattice state, the energy engine,
//! the Metropolis stepper and the simulation driver, together with the
//! snapshot text format.

pub mod params;
pub mod model;
pub mod grid;
pub mod random;
pub mod ensemble;
pub mod snapshot;
