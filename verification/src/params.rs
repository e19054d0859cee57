use vstd::prelude::*;

verus! {

/// Largest accepted lattice side length.  With the coupling bound below it
/// keeps the total state energy of a fully initialized lattice inside `i64`.
pub const MAX_DIM: usize = 23170;

/// Largest accepted magnitude of the coupling constant.
pub const MAX_COUPLING: i64 = 2147483648;

/// Immutable per-run parameter record: coupling constant `J`, inverse
/// temperature `beta`, and the external-field placeholder `mag_field`.
/// `mag_field` is carried but enters no computed quantity.
#[derive(Clone, Copy, Debug, PartialEq, Eq, Structural)]
pub struct Params {
    pub coupling_const: i64,
    pub beta: i64,
    pub mag_field: i64,
}

impl Params {
    /// The coupling constant is small enough that every local energy and the
    /// total state energy stay representable.
    pub open spec fn valid(self) -> bool {
        -MAX_COUPLING <= self.coupling_const <= MAX_COUPLING
    }
}

/// The two domain error kinds of the simulation.
#[derive(Clone, Copy, Debug, PartialEq, Eq, Structural)]
pub enum IsingError {
    /// A Metropolis exponent that can be classified neither as zero-or-below
    /// nor as above zero.  Exponents here are exact integers, which always
    /// classify, so no operation of this crate ever returns this kind; it is
    /// kept as part of the error surface of the acceptance rule.
    InvalidEnergy,
    /// A cell that was expected to hold a spin held some other value.
    InvalidState,
}

} // verus!
