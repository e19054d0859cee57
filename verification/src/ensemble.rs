//! The lattice state and everything that runs on it: creation and random
//! initialization, the energy engine, the single flip, the Metropolis
//! stepper and the fixed-length simulation driver.

use vstd::prelude::*;
use vstd::arithmetic::div_mod::{lemma_small_mod, lemma_mod_self_0, lemma_mod_add_multiples_vanish};
use crate::grid::{SpinGrid, grid_seq, grid_side};
use crate::model::{
    spin_ok, all_spins_valid, spin_at, neighbor_sum, site_energy_of, site_energy_diff_of,
    row_energy_from, lattice_energy_from, state_energy_of, flipped_at,
};
use crate::params::{Params, IsingError, MAX_DIM, MAX_COUPLING};
use crate::random::RandomSource;

verus! {

/// Wrapping one step down or up stays inside `[0, n)` and agrees with the
/// Euclidean modulo the energy model is written with.
proof fn lemma_wrap_indices(x: int, n: int)
    requires
        0 <= x < n,
    ensures
        (x - 1) % n == if x == 0 { n - 1 } else { x - 1 },
        (x + 1) % n == if x + 1 == n { 0 } else { x + 1 },
{
    if x == 0 {
        lemma_mod_add_multiples_vanish(-1, n);
        lemma_small_mod((n - 1) as nat, n as nat);
    } else {
        lemma_small_mod((x - 1) as nat, n as nat);
    }
    if x + 1 == n {
        lemma_mod_self_0(n);
    } else {
        lemma_small_mod((x + 1) as nat, n as nat);
    }
}

/// A cell of an all-spins lattice holds -1 or +1, and its flat index is in
/// range.
proof fn lemma_spin_in_range(s: Seq<i8>, dim: int, r: int, c: int)
    requires
        all_spins_valid(s),
        s.len() == dim * dim,
        0 <= r < dim,
        0 <= c < dim,
    ensures
        0 <= r * dim + c < s.len(),
        -1 <= spin_at(s, dim, r, c) <= 1,
{
    assert(0 <= r * dim + c <= dim * dim - 1) by (nonlinear_arith)
        requires
            0 <= r < dim,
            0 <= c < dim,
    ;
    assert(spin_ok(s[r * dim + c]));
}

/// A local energy is at most `65536 * MAX_COUPLING` in magnitude whatever
/// the cells hold, and at most `4 * MAX_COUPLING` once every cell is a spin.
proof fn lemma_site_energy_bound(s: Seq<i8>, dim: int, coupling: int, i: int, j: int)
    requires
        -MAX_COUPLING <= coupling <= MAX_COUPLING,
    ensures
        -140737488355328 <= site_energy_of(s, dim, coupling, i, j) <= 140737488355328,
        all_spins_valid(s) && s.len() == dim * dim && 0 <= i < dim && 0 <= j < dim ==>
            -8589934592 <= site_energy_of(s, dim, coupling, i, j) <= 8589934592,
{
    let sp = spin_at(s, dim, i, j);
    let ns = neighbor_sum(s, dim, i, j);
    assert(-128 <= sp <= 128);
    assert(-512 <= ns <= 512);
    assert(-140737488355328 <= -coupling * sp * ns <= 140737488355328) by (nonlinear_arith)
        requires
            -2147483648 <= coupling <= 2147483648,
            -128 <= sp <= 128,
            -512 <= ns <= 512,
    ;
    if all_spins_valid(s) && s.len() == dim * dim && 0 <= i < dim && 0 <= j < dim {
        assert(0 <= (i - 1) % dim < dim && 0 <= (i + 1) % dim < dim);
        assert(0 <= (j - 1) % dim < dim && 0 <= (j + 1) % dim < dim);
        lemma_spin_in_range(s, dim, i, j);
        lemma_spin_in_range(s, dim, (i - 1) % dim, j);
        lemma_spin_in_range(s, dim, (i + 1) % dim, j);
        lemma_spin_in_range(s, dim, i, (j - 1) % dim);
        lemma_spin_in_range(s, dim, i, (j + 1) % dim);
        assert(-1 <= sp <= 1);
        assert(-4 <= ns <= 4);
        assert(-8589934592 <= -coupling * sp * ns <= 8589934592) by (nonlinear_arith)
            requires
                -2147483648 <= coupling <= 2147483648,
                -1 <= sp <= 1,
                -4 <= ns <= 4,
        ;
    }
}

/// The simulation state: the `dim` x `dim` grid of spin cells and the
/// immutable run parameters.
pub struct Ensemble {
    pub grid: SpinGrid,
    pub dim: usize,
    pub params: Params,
}

impl Ensemble {
    /// The cells, row by row.
    pub open spec fn cells(self) -> Seq<i8> {
        grid_seq(self.grid)
    }

    /// The side length as a mathematical integer.
    pub open spec fn side(self) -> int {
        self.dim as int
    }

    /// The run's coupling constant as a mathematical integer.
    pub open spec fn coupling(self) -> int {
        self.params.coupling_const as int
    }

    /// Well-formed: positive bounded side length, a grid of that shape, and
    /// valid parameters.
    pub open spec fn wf(self) -> bool {
        &&& 1 <= self.dim <= MAX_DIM
        &&& grid_side(self.grid) == self.dim as int
        &&& self.cells().len() == self.side() * self.side()
        &&& self.params.valid()
    }

    /// Initialized: every cell holds a spin, -1 or +1.
    pub open spec fn initialized(self) -> bool {
        all_spins_valid(self.cells())
    }

    /// A fresh lattice: every cell holds the neutral value zero, which is not
    /// a valid spin until an initialization pass assigns spins.
    pub fn new(dim: usize, params: Params) -> (e: Ensemble)
        requires
            1 <= dim <= MAX_DIM,
            params.valid(),
        ensures
            e.wf(),
            e.dim == dim,
            e.params == params,
            forall|k: int| 0 <= k < e.cells().len() ==> e.cells()[k] == 0i8,
    {
        Ensemble { grid: SpinGrid::zeros(dim), dim, params }
    }

    /// The spin at row `i`, column `j`.
    pub fn get_spin(&self, i: usize, j: usize) -> (r: i8)
        requires
            self.wf(),
            i < self.dim,
            j < self.dim,
        ensures
            r as int == spin_at(self.cells(), self.side(), i as int, j as int),
    {
        self.grid.get(i, j)
    }

    /// Overwrite the cell at row `i`, column `j` with the given spin.
    pub fn set_spin(&mut self, i: usize, j: usize, v: i8)
        requires
            old(self).wf(),
            i < old(self).dim,
            j < old(self).dim,
            spin_ok(v),
        ensures
            final(self).wf(),
            final(self).dim == old(self).dim,
            final(self).params == old(self).params,
            final(self).cells() == old(self).cells().update(
                i as int * old(self).side() + j as int,
                v,
            ),
    {
        proof {
            let k = i as int * old(self).side() + j as int;
            let n = old(self).side();
            assert(0 <= k && k < n * n) by (nonlinear_arith)
                requires
                    k == i as int * n + j as int,
                    0 <= i as int && (i as int) < n,
                    0 <= j as int && (j as int) < n,
            ;
        }
        self.grid.set(i, j, v);
        proof {
            assert(self.cells().len() == old(self).cells().len());
            assert(self.wf());
        }
    }

    /// Local energy of cell (i, j) under the nearest-neighbor Ising
    /// Hamiltonian with periodic boundaries: exactly the four orthogonal
    /// neighbors contribute, wrapped by Euclidean modulo.  Pure and total
    /// for any in-range pair of indices.
    pub fn calc_site_energy(&self, i: usize, j: usize) -> (r: i64)
        requires
            self.wf(),
            i < self.dim,
            j < self.dim,
        ensures
            r as int == site_energy_of(self.cells(), self.side(), self.coupling(), i as int, j as int),
    {
        let dim = self.dim;
        let up = if i == 0 { dim - 1 } else { i - 1 };
        let down = if i + 1 == dim { 0 } else { i + 1 };
        let left = if j == 0 { dim - 1 } else { j - 1 };
        let right = if j + 1 == dim { 0 } else { j + 1 };
        proof {
            lemma_wrap_indices(i as int, dim as int);
            lemma_wrap_indices(j as int, dim as int);
        }
        let s_k = self.grid.get(i, j);
        let n_up = self.grid.get(up, j);
        let n_down = self.grid.get(down, j);
        let n_left = self.grid.get(i, left);
        let n_right = self.grid.get(i, right);
        let nsum: i64 = n_up as i64 + n_down as i64 + n_left as i64 + n_right as i64;
        let neg_c = -self.params.coupling_const;
        proof {
            assert(-274877906944 <= neg_c as int * (s_k as int)
                && neg_c as int * (s_k as int) <= 274877906944) by (nonlinear_arith)
                requires
                    -2147483648 <= neg_c as int && neg_c as int <= 2147483648,
                    -128 <= s_k as int && (s_k as int) <= 128,
            ;
            assert(-140737488355328 <= neg_c as int * (s_k as int) * (nsum as int)
                && neg_c as int * (s_k as int) * (nsum as int) <= 140737488355328) by (nonlinear_arith)
                requires
                    -2147483648 <= neg_c as int && neg_c as int <= 2147483648,
                    -128 <= s_k as int && (s_k as int) <= 128,
                    -512 <= nsum as int && (nsum as int) <= 512,
            ;
        }
        let prod = neg_c * (s_k as i64);
        prod * nsum
    }

    /// The Metropolis exponent for flipping cell (i, j): exactly
    /// `-2 * calc_site_energy(i, j)`.
    pub fn calc_site_energy_diff(&self, i: usize, j: usize) -> (r: i64)
        requires
            self.wf(),
            i < self.dim,
            j < self.dim,
        ensures
            r as int == site_energy_diff_of(self.cells(), self.side(), self.coupling(), i as int, j as int),
    {
        let e = self.calc_site_energy(i, j);
        proof {
            lemma_site_energy_bound(self.cells(), self.side(), self.coupling(), i as int, j as int);
        }
        -2i64 * e
    }

    /// Toggle the spin at (i, j) between -1 and +1.  Succeeds exactly when
    /// the cell holds a valid spin; on any other value it reports
    /// `InvalidState` and leaves the lattice untouched.
    pub fn update_site(&mut self, i: usize, j: usize) -> (r: Result<(), IsingError>)
        requires
            old(self).wf(),
            i < old(self).dim,
            j < old(self).dim,
        ensures
            final(self).wf(),
            final(self).dim == old(self).dim,
            final(self).params == old(self).params,
            ({
                let k = i as int * old(self).side() + j as int;
                match r {
                    Ok(u) => spin_ok(old(self).cells()[k])
                        && final(self).cells() == flipped_at(old(self).cells(), k),
                    Err(e) => e == IsingError::InvalidState
                        && !spin_ok(old(self).cells()[k])
                        && final(self).cells() == old(self).cells(),
                }
            }),
    {
        let s = self.grid.get(i, j);
        if s == -1 {
            self.set_spin(i, j, 1);
            Ok(())
        } else if s == 1 {
            self.set_spin(i, j, -1);
            Ok(())
        } else {
            Err(IsingError::InvalidState)
        }
    }

    /// Total state energy: the sum of `calc_site_energy` over every cell,
    /// so each bond is counted from both endpoints.  Diagnostic only; the
    /// stepper never calls it.
    pub fn calc_state_energy(&self) -> (r: i64)
        requires
            self.wf(),
            self.initialized(),
        ensures
            r as int == state_energy_of(self.cells(), self.side(), self.coupling()),
    {
        let dim = self.dim;
        let mut acc: i64 = 0;
        let mut i: usize = 0;
        while i < dim
            invariant
                self.wf(),
                self.initialized(),
                dim == self.dim,
                i <= dim,
                acc as int + lattice_energy_from(self.cells(), self.side(), self.coupling(), i as int)
                    == state_energy_of(self.cells(), self.side(), self.coupling()),
                -8589934592 * (i as int * dim as int) <= acc as int
                    && acc as int <= 8589934592 * (i as int * dim as int),
            decreases dim - i,
        {
            let mut j: usize = 0;
            while j < dim
                invariant
                    self.wf(),
                    self.initialized(),
                    dim == self.dim,
                    i < dim,
                    j <= dim,
                    acc as int
                        + row_energy_from(self.cells(), self.side(), self.coupling(), i as int, j as int)
                        + lattice_energy_from(self.cells(), self.side(), self.coupling(), i as int + 1)
                        == state_energy_of(self.cells(), self.side(), self.coupling()),
                    -8589934592 * (i as int * dim as int + j as int) <= acc as int
                        && acc as int <= 8589934592 * (i as int * dim as int + j as int),
                decreases dim - j,
            {
                proof {
                    lemma_site_energy_bound(self.cells(), self.side(), self.coupling(), i as int, j as int);
                    let kk = i as int * dim as int + j as int;
                    assert(0 <= kk && kk <= 536848899) by (nonlinear_arith)
                        requires
                            kk == i as int * dim as int + j as int,
                            0 <= i as int && (i as int) < dim as int,
                            0 <= j as int && (j as int) < dim as int,
                            dim as int <= 23170,
                    ;
                    assert(8589934592 * kk <= 4611686018427387904
                        && -4611686018427387904 <= 8589934592 * (-kk)) by (nonlinear_arith)
                        requires
                            0 <= kk && kk <= 536848899,
                    ;
                }
                let e = self.calc_site_energy(i, j);
                acc = acc + e;
                j = j + 1;
            }
            i = i + 1;
            proof {
                assert(i as int * dim as int == (i as int - 1) * dim as int + dim as int)
                    by (nonlinear_arith);
            }
        }
        acc
    }

    /// Assign every cell an independently drawn spin, -1 or +1, from the
    /// given random source.  Establishes the lattice invariant: afterwards
    /// every cell holds a valid spin.
    pub fn init_ensemble<R: RandomSource>(&mut self, rs: &mut R)
        requires
            old(self).wf(),
        ensures
            final(self).wf(),
            final(self).initialized(),
            final(self).dim == old(self).dim,
            final(self).params == old(self).params,
    {
        let dim = self.dim;
        let mut i: usize = 0;
        while i < dim
            invariant
                self.wf(),
                self.dim == old(self).dim,
                self.params == old(self).params,
                dim == self.dim,
                i <= dim,
                forall|k: int| 0 <= k < i as int * dim as int ==> spin_ok(#[trigger] self.cells()[k]),
            decreases dim - i,
        {
            let mut j: usize = 0;
            while j < dim
                invariant
                    self.wf(),
                    self.dim == old(self).dim,
                    self.params == old(self).params,
                    dim == self.dim,
                    i < dim,
                    j <= dim,
                    forall|k: int| 0 <= k < i as int * dim as int + j as int
                        ==> spin_ok(#[trigger] self.cells()[k]),
                decreases dim - j,
            {
                let b = rs.pick_index(2);
                let v: i8 = if b == 0 { -1 } else { 1 };
                let ghost prev = self.cells();
                let ghost k0 = i as int * dim as int + j as int;
                proof {
                    assert(0 <= k0 && k0 < dim as int * dim as int) by (nonlinear_arith)
                        requires
                            k0 == i as int * dim as int + j as int,
                            0 <= i as int && (i as int) < dim as int,
                            0 <= j as int && (j as int) < dim as int,
                    ;
                }
                self.set_spin(i, j, v);
                proof {
                    assert forall|k: int| 0 <= k < k0 + 1 implies spin_ok(#[trigger] self.cells()[k]) by {
                        if k == k0 {
                            assert(self.cells()[k] == v);
                        } else {
                            assert(self.cells()[k] == prev[k]);
                        }
                    }
                }
                j = j + 1;
            }
            i = i + 1;
            proof {
                assert(i as int * dim as int == (i as int - 1) * dim as int + dim as int)
                    by (nonlinear_arith);
            }
        }
        proof {
            assert(dim as int * dim as int == self.cells().len());
        }
    }
}

/// What one Metropolis step may do, seen from outside: some in-range cell
/// (i, j) was evaluated, and the lattice either has exactly that cell
/// flipped, or is unchanged — the latter only when the step's exponent at
/// (i, j) was positive.  So a step changes at most one cell, and a cell
/// whose exponent is zero or below is always flipped once chosen.
pub open spec fn step_outcome(pre: Ensemble, post: Ensemble, i: int, j: int) -> bool {
    &&& 0 <= i < pre.side()
    &&& 0 <= j < pre.side()
    &&& (post.cells() == flipped_at(pre.cells(), i * pre.side() + j)
        || (site_energy_diff_of(pre.cells(), pre.side(), pre.coupling(), i, j) > 0
            && post.cells() == pre.cells()))
}

impl Ensemble {
    /// One elementary Metropolis update: draw a site uniformly, compute the
    /// flip exponent, accept outright when it is zero or below, otherwise
    /// accept by the source's Boltzmann draw; an accepted step flips the
    /// chosen cell.  On an initialized lattice a step cannot fail.
    pub fn step<R: RandomSource>(&mut self, rs: &mut R) -> (r: Result<(), IsingError>)
        requires
            old(self).wf(),
            old(self).initialized(),
        ensures
            final(self).wf(),
            final(self).initialized(),
            final(self).dim == old(self).dim,
            final(self).params == old(self).params,
            r == Ok::<(), IsingError>(()),
            exists|i: int, j: int| step_outcome(*old(self), *final(self), i, j),
    {
        let i = rs.pick_index(self.dim);
        let j = rs.pick_index(self.dim);
        let exponent = self.calc_site_energy_diff(i, j);
        proof {
            lemma_spin_in_range(self.cells(), self.side(), i as int, j as int);
        }
        let accept = if exponent <= 0 {
            true
        } else {
            rs.boltzmann_accept(self.params.beta, exponent)
        };
        if accept {
            match self.update_site(i, j) {
                Ok(u) => {
                    proof {
                        assert(step_outcome(*old(self), *self, i as int, j as int));
                    }
                    Ok(())
                },
                Err(e) => Err(e),
            }
        } else {
            proof {
                assert(step_outcome(*old(self), *self, i as int, j as int));
            }
            Ok(())
        }
    }

    /// The simulation driver: run exactly `dim * dim` Metropolis steps —
    /// that many independent uniformly random site trials, not an exhaustive
    /// sweep — and report the number of steps taken.  The dimension and the
    /// parameters are unchanged, the lattice invariant is preserved, and on
    /// an initialized lattice a run cannot fail.
    pub fn run<R: RandomSource>(&mut self, rs: &mut R) -> (r: Result<usize, IsingError>)
        requires
            old(self).wf(),
            old(self).initialized(),
        ensures
            final(self).wf(),
            final(self).initialized(),
            final(self).dim == old(self).dim,
            final(self).params == old(self).params,
            r == Ok::<usize, IsingError>(((old(self).side() * old(self).side()) as usize)),
    {
        proof {
            assert(self.side() * self.side() <= 23170 * 23170) by (nonlinear_arith)
                requires
                    1 <= self.side() && self.side() <= 23170,
            ;
        }
        let total = self.dim * self.dim;
        let mut k: usize = 0;
        while k < total
            invariant
                self.wf(),
                self.initialized(),
                self.dim == old(self).dim,
                self.params == old(self).params,
                k <= total,
                total == old(self).side() * old(self).side(),
            decreases total - k,
        {
            match self.step(rs) {
                Ok(u) => {},
                Err(e) => {
                    return Err(e);
                },
            }
            k = k + 1;
        }
        Ok(total)
    }
}

} // verus!
