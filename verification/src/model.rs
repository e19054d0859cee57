//! Mathematical model of the lattice: spins as a row-major sequence of
//! `i8` cells, and the Ising energy quantities over that sequence.

use vstd::prelude::*;
use vstd::arithmetic::div_mod::{lemma_small_mod, lemma_mod_self_0, lemma_mod_add_multiples_vanish};

verus! {

/// A valid spin is exactly -1 or +1.
pub open spec fn spin_ok(c: i8) -> bool {
    c == -1i8 || c == 1i8
}

/// Every cell of the sequence holds a valid spin.
pub open spec fn all_spins_valid(s: Seq<i8>) -> bool {
    forall|k: int| 0 <= k < s.len() ==> spin_ok(#[trigger] s[k])
}

/// The spin at row `i`, column `j` of a `dim` x `dim` row-major sequence.
pub open spec fn spin_at(s: Seq<i8>, dim: int, i: int, j: int) -> int {
    s[i * dim + j] as int
}

/// Sum of the four orthogonal neighbors of cell (i, j) under periodic
/// boundaries; row and column offsets wrap by Euclidean modulo, so on a
/// one-cell lattice every neighbor is the cell itself.
pub open spec fn neighbor_sum(s: Seq<i8>, dim: int, i: int, j: int) -> int {
    spin_at(s, dim, (i - 1) % dim, j) + spin_at(s, dim, (i + 1) % dim, j)
        + spin_at(s, dim, i, (j - 1) % dim) + spin_at(s, dim, i, (j + 1) % dim)
}

/// Local energy of cell (i, j) under the nearest-neighbor Ising Hamiltonian:
/// `E(i, j) = -J * s(i, j) * (sum of the four wrapped neighbors)`.
pub open spec fn site_energy_of(s: Seq<i8>, dim: int, coupling: int, i: int, j: int) -> int {
    -coupling * spin_at(s, dim, i, j) * neighbor_sum(s, dim, i, j)
}

/// The Metropolis exponent for flipping cell (i, j): exactly
/// `-2 * site_energy_of(i, j)`.
pub open spec fn site_energy_diff_of(s: Seq<i8>, dim: int, coupling: int, i: int, j: int) -> int {
    -2 * site_energy_of(s, dim, coupling, i, j)
}

/// Sum of the site energies of row `i` from column `j` rightwards.
pub open spec fn row_energy_from(s: Seq<i8>, dim: int, coupling: int, i: int, j: int) -> int
    decreases dim - j,
{
    if j < 0 || j >= dim {
        0
    } else {
        site_energy_of(s, dim, coupling, i, j) + row_energy_from(s, dim, coupling, i, j + 1)
    }
}

/// Sum of the site energies of the rows from `i` downwards.
pub open spec fn lattice_energy_from(s: Seq<i8>, dim: int, coupling: int, i: int) -> int
    decreases dim - i,
{
    if i < 0 || i >= dim {
        0
    } else {
        row_energy_from(s, dim, coupling, i, 0) + lattice_energy_from(s, dim, coupling, i + 1)
    }
}

/// Total state energy: every site contributes its own local energy, so each
/// bond is counted from both endpoints.
pub open spec fn state_energy_of(s: Seq<i8>, dim: int, coupling: int) -> int {
    lattice_energy_from(s, dim, coupling, 0)
}

/// The sequence with the spin at flat index `k` toggled between -1 and +1.
pub open spec fn flipped_at(s: Seq<i8>, k: int) -> Seq<i8> {
    s.update(k, if s[k] == 1i8 { -1i8 } else { 1i8 })
}

/// Law: on the one-cell lattice every neighbor lookup wraps to the cell
/// itself, so the neighbor sum is four times the cell's own spin, and the
/// site energy is `-4 * coupling` for either spin value (the spin squared
/// is one).
pub proof fn lemma_degenerate_site_energy(s: Seq<i8>, coupling: int)
    requires
        s.len() == 1,
        spin_ok(s[0]),
    ensures
        neighbor_sum(s, 1, 0, 0) == 4 * spin_at(s, 1, 0, 0),
        site_energy_of(s, 1, coupling, 0, 0) == -4 * coupling,
{
    lemma_mod_add_multiples_vanish(-1, 1);
    lemma_small_mod(0nat, 1nat);
    lemma_mod_self_0(1);
    assert((-1int) % 1 == 0);
    assert((1int) % 1 == 0);
    let sp = spin_at(s, 1, 0, 0);
    let ns = neighbor_sum(s, 1, 0, 0);
    assert(ns == 4 * sp);
    assert(sp == 1 || sp == -1);
    assert(-coupling * sp * ns == -4 * coupling) by (nonlinear_arith)
        requires
            sp == 1 || sp == -1,
            ns == 4 * sp,
    ;
}

} // verus!
