//! The snapshot text format: one line per lattice row, cells as
//! space-separated decimal integers, each either `-1` or `1`, every row
//! ended by a newline and nothing after the grid.  `render_state` produces
//! exactly that byte sequence; `parse_state` accepts exactly such byte
//! sequences and recovers the grid, and the round trip is proved exact.

use vstd::prelude::*;
use crate::ensemble::Ensemble;
use crate::model::{spin_ok, all_spins_valid};
use crate::params::{Params, MAX_DIM};

verus! {

/// The bytes of one rendered cell: `1` or `-1` in decimal.
pub open spec fn cell_bytes(c: i8) -> Seq<u8> {
    if c == 1i8 {
        seq![49u8]
    } else {
        seq![45u8, 49u8]
    }
}

/// The bytes of row `i` from column `j` on: a space before each remaining
/// cell, then the newline that ends the row.
pub open spec fn row_tail_bytes(s: Seq<i8>, dim: int, i: int, j: int) -> Seq<u8>
    decreases dim - j,
{
    if j >= dim {
        seq![10u8]
    } else {
        seq![32u8] + cell_bytes(s[i * dim + j]) + row_tail_bytes(s, dim, i, j + 1)
    }
}

/// The bytes of the whole row `i`: its first cell, then the tail.
pub open spec fn row_bytes(s: Seq<i8>, dim: int, i: int) -> Seq<u8> {
    cell_bytes(s[i * dim]) + row_tail_bytes(s, dim, i, 1)
}

/// The bytes of the rows from `i` downwards.
pub open spec fn rows_bytes_from(s: Seq<i8>, dim: int, i: int) -> Seq<u8>
    decreases dim - i,
{
    if i >= dim {
        Seq::empty()
    } else {
        row_bytes(s, dim, i) + rows_bytes_from(s, dim, i + 1)
    }
}

/// The rendered snapshot of a `dim` x `dim` grid.
pub open spec fn render_of(s: Seq<i8>, dim: int) -> Seq<u8> {
    rows_bytes_from(s, dim, 0)
}

/// Parse one cell at position `p`: the byte `1`, or the bytes `-1`.
pub open spec fn parse_cell(b: Seq<u8>, p: int) -> Option<(i8, int)> {
    if 0 <= p && p < b.len() && b[p] == 49u8 {
        Some((1i8, p + 1))
    } else if 0 <= p && p + 1 < b.len() && b[p] == 45u8 && b[p + 1] == 49u8 {
        Some((-1i8, p + 2))
    } else {
        None
    }
}

/// Parse the remainder of the first row: either its ending newline, or a
/// space followed by one more cell and the rest.
pub open spec fn parse_row_cont(b: Seq<u8>, p: int) -> Option<(Seq<i8>, int)>
    decreases b.len() - p,
{
    if 0 <= p && p < b.len() && b[p] == 10u8 {
        Some((Seq::empty(), p + 1))
    } else if 0 <= p && p < b.len() && b[p] == 32u8 {
        match parse_cell(b, p + 1) {
            Some((c, p2)) => match parse_row_cont(b, p2) {
                Some((cs, p3)) => Some((seq![c] + cs, p3)),
                None => None,
            },
            None => None,
        }
    } else {
        None
    }
}

/// Parse the first row, discovering the grid's width.
pub open spec fn parse_first_row(b: Seq<u8>, p: int) -> Option<(Seq<i8>, int)> {
    match parse_cell(b, p) {
        Some((c, p1)) => match parse_row_cont(b, p1) {
            Some((cs, p2)) => Some((seq![c] + cs, p2)),
            None => None,
        },
        None => None,
    }
}

/// Parse exactly `count` more cells, each preceded by a space, then the
/// newline that ends the row.
pub open spec fn parse_fixed_tail(b: Seq<u8>, p: int, count: int) -> Option<(Seq<i8>, int)>
    decreases count,
{
    if count <= 0 {
        if 0 <= p && p < b.len() && b[p] == 10u8 {
            Some((Seq::empty(), p + 1))
        } else {
            None
        }
    } else if 0 <= p && p < b.len() && b[p] == 32u8 {
        match parse_cell(b, p + 1) {
            Some((c, p2)) => match parse_fixed_tail(b, p2, count - 1) {
                Some((cs, p3)) => Some((seq![c] + cs, p3)),
                None => None,
            },
            None => None,
        }
    } else {
        None
    }
}

/// Parse one row of exactly `d` cells.
pub open spec fn parse_fixed_row(b: Seq<u8>, p: int, d: int) -> Option<(Seq<i8>, int)> {
    match parse_cell(b, p) {
        Some((c, p1)) => match parse_fixed_tail(b, p1, d - 1) {
            Some((cs, p2)) => Some((seq![c] + cs, p2)),
            None => None,
        },
        None => None,
    }
}

/// Parse `count` rows of `d` cells each.
pub open spec fn parse_rows(b: Seq<u8>, p: int, d: int, count: int) -> Option<(Seq<i8>, int)>
    decreases count,
{
    if count <= 0 {
        Some((Seq::empty(), p))
    } else {
        match parse_fixed_row(b, p, d) {
            Some((cs, p1)) => match parse_rows(b, p1, d, count - 1) {
                Some((cs2, p2)) => Some((cs + cs2, p2)),
                None => None,
            },
            None => None,
        }
    }
}

/// Parse a whole snapshot: the first row fixes the width `d`; there must be
/// exactly `d - 1` further rows of `d` cells, the width must be an accepted
/// lattice side, and nothing may follow the grid.
pub open spec fn parse_snapshot(b: Seq<u8>) -> Option<(Seq<i8>, int)> {
    match parse_first_row(b, 0) {
        Some((row0, p1)) => {
            let d = row0.len() as int;
            if d <= MAX_DIM as int {
                match parse_rows(b, p1, d, d - 1) {
                    Some((rest, p2)) => if p2 == b.len() {
                        Some((row0 + rest, d))
                    } else {
                        None
                    },
                    None => None,
                }
            } else {
                None
            }
        },
        None => None,
    }
}

impl Ensemble {
    /// Serialize the lattice: `dim` lines of `dim` space-separated spins.
    pub fn render_state(&self) -> (out: Vec<u8>)
        requires
            self.wf(),
            self.initialized(),
        ensures
            out@ == render_of(self.cells(), self.side()),
    {
        let dim = self.dim;
        let mut out: Vec<u8> = Vec::new();
        let mut i: usize = 0;
        while i < dim
            invariant
                self.wf(),
                self.initialized(),
                dim == self.dim,
                i <= dim,
                out@ + rows_bytes_from(self.cells(), self.side(), i as int)
                    == render_of(self.cells(), self.side()),
            decreases dim - i,
        {
            let ghost pre_row = out@;
            self.push_cell(&mut out, i, 0);
            proof {
                assert(out@ + (row_tail_bytes(self.cells(), self.side(), i as int, 1)
                    + rows_bytes_from(self.cells(), self.side(), i as int + 1))
                    =~= pre_row + rows_bytes_from(self.cells(), self.side(), i as int));
            }
            let mut j: usize = 1;
            while j < dim
                invariant
                    self.wf(),
                    self.initialized(),
                    dim == self.dim,
                    i < dim,
                    1 <= j <= dim,
                    out@ + (row_tail_bytes(self.cells(), self.side(), i as int, j as int)
                        + rows_bytes_from(self.cells(), self.side(), i as int + 1))
                        == render_of(self.cells(), self.side()),
                decreases dim - j,
            {
                let ghost pre = out@;
                out.push(32);
                self.push_cell(&mut out, i, j);
                proof {
                    assert(out@ + (row_tail_bytes(self.cells(), self.side(), i as int, j as int + 1)
                        + rows_bytes_from(self.cells(), self.side(), i as int + 1))
                        =~= pre + (row_tail_bytes(self.cells(), self.side(), i as int, j as int)
                        + rows_bytes_from(self.cells(), self.side(), i as int + 1)));
                }
                j = j + 1;
            }
            let ghost pre_nl = out@;
            out.push(10);
            proof {
                assert(out@ + rows_bytes_from(self.cells(), self.side(), i as int + 1)
                    =~= pre_nl + (row_tail_bytes(self.cells(), self.side(), i as int, dim as int)
                    + rows_bytes_from(self.cells(), self.side(), i as int + 1)));
            }
            i = i + 1;
        }
        proof {
            assert(out@ =~= out@ + rows_bytes_from(self.cells(), self.side(), dim as int));
        }
        out
    }

    /// Append the rendered bytes of the cell at (i, j).
    fn push_cell(&self, out: &mut Vec<u8>, i: usize, j: usize)
        requires
            self.wf(),
            self.initialized(),
            i < self.dim,
            j < self.dim,
        ensures
            final(out)@ == old(out)@ + cell_bytes(self.cells()[i as int * self.side() + j as int]),
    {
        proof {
            let k = i as int * self.side() + j as int;
            let n = self.side();
            assert(0 <= k && k < n * n) by (nonlinear_arith)
                requires
                    k == i as int * n + j as int,
                    0 <= i as int && (i as int) < n,
                    0 <= j as int && (j as int) < n,
            ;
        }
        let v = self.get_spin(i, j);
        if v == 1 {
            out.push(49);
        } else {
            out.push(45);
            out.push(49);
        }
    }
}

fn parse_cell_x(b: &[u8], p: usize) -> (r: Option<(i8, usize)>)
    requires
        p <= b.len(),
    ensures
        ({
            let sp = parse_cell(b@, p as int);
            match (r, sp) {
                (Some((c, q)), Some((c2, q2))) => c == c2 && q as int == q2 && p < q <= b.len(),
                (None, None) => true,
                _ => false,
            }
        }),
{
    if p < b.len() {
        let c0 = b[p];
        if c0 == 49 {
            return Some((1, p + 1));
        }
        if c0 == 45 && p + 1 < b.len() {
            if b[p + 1] == 49 {
                return Some((-1, p + 2));
            }
        }
    }
    None
}

fn parse_row_cont_x(b: &[u8], p: usize) -> (r: Option<(Vec<i8>, usize)>)
    requires
        p <= b.len(),
    ensures
        ({
            let sp = parse_row_cont(b@, p as int);
            match (r, sp) {
                (Some((cs, q)), Some((cs2, q2))) => cs@ == cs2 && q as int == q2 && q <= b.len(),
                (None, None) => true,
                _ => false,
            }
        }),
    decreases b.len() - p,
{
    if p < b.len() {
        let c0 = b[p];
        if c0 == 10 {
            return Some((Vec::new(), p + 1));
        }
        if c0 == 32 {
            match parse_cell_x(b, p + 1) {
                Some((c, p2)) => {
                    match parse_row_cont_x(b, p2) {
                        Some((cs, p3)) => {
                            let mut out: Vec<i8> = Vec::new();
                            let mut tail = cs;
                            out.push(c);
                            out.append(&mut tail);
                            return Some((out, p3));
                        },
                        None => {
                            return None;
                        },
                    }
                },
                None => {
                    return None;
                },
            }
        }
    }
    None
}

fn parse_fixed_tail_x(b: &[u8], p: usize, count: usize) -> (r: Option<(Vec<i8>, usize)>)
    requires
        p <= b.len(),
    ensures
        ({
            let sp = parse_fixed_tail(b@, p as int, count as int);
            match (r, sp) {
                (Some((cs, q)), Some((cs2, q2))) => cs@ == cs2 && q as int == q2 && q <= b.len(),
                (None, None) => true,
                _ => false,
            }
        }),
    decreases count,
{
    if count == 0 {
        if p < b.len() {
            if b[p] == 10 {
                return Some((Vec::new(), p + 1));
            }
        }
        return None;
    }
    if p < b.len() {
        if b[p] == 32 {
            match parse_cell_x(b, p + 1) {
                Some((c, p2)) => {
                    match parse_fixed_tail_x(b, p2, count - 1) {
                        Some((cs, p3)) => {
                            let mut out: Vec<i8> = Vec::new();
                            let mut tail = cs;
                            out.push(c);
                            out.append(&mut tail);
                            return Some((out, p3));
                        },
                        None => {
                            return None;
                        },
                    }
                },
                None => {
                    return None;
                },
            }
        }
    }
    None
}

fn parse_fixed_row_x(b: &[u8], p: usize, d: usize) -> (r: Option<(Vec<i8>, usize)>)
    requires
        p <= b.len(),
        1 <= d,
    ensures
        ({
            let sp = parse_fixed_row(b@, p as int, d as int);
            match (r, sp) {
                (Some((cs, q)), Some((cs2, q2))) => cs@ == cs2 && q as int == q2 && q <= b.len(),
                (None, None) => true,
                _ => false,
            }
        }),
{
    match parse_cell_x(b, p) {
        Some((c, p1)) => {
            match parse_fixed_tail_x(b, p1, d - 1) {
                Some((cs, p2)) => {
                    let mut out: Vec<i8> = Vec::new();
                    let mut tail = cs;
                    out.push(c);
                    out.append(&mut tail);
                    Some((out, p2))
                },
                None => None,
            }
        },
        None => None,
    }
}

fn parse_rows_x(b: &[u8], p: usize, d: usize, count: usize) -> (r: Option<(Vec<i8>, usize)>)
    requires
        p <= b.len(),
        1 <= d,
    ensures
        ({
            let sp = parse_rows(b@, p as int, d as int, count as int);
            match (r, sp) {
                (Some((cs, q)), Some((cs2, q2))) => cs@ == cs2 && q as int == q2 && q <= b.len(),
                (None, None) => true,
                _ => false,
            }
        }),
    decreases count,
{
    if count == 0 {
        return Some((Vec::new(), p));
    }
    match parse_fixed_row_x(b, p, d) {
        Some((cs, p1)) => {
            match parse_rows_x(b, p1, d, count - 1) {
                Some((cs2, p2)) => {
                    let mut out = cs;
                    let mut tail = cs2;
                    out.append(&mut tail);
                    Some((out, p2))
                },
                None => None,
            }
        },
        None => None,
    }
}


/// A one-cell sequence holding a valid spin is all valid.
proof fn lemma_valid_singleton(c: i8)
    requires
        spin_ok(c),
    ensures
        all_spins_valid(seq![c]),
{
    assert forall|k: int| 0 <= k < seq![c].len() implies spin_ok(#[trigger] seq![c][k]) by {
        assert(seq![c][k] == c);
    }
}

/// Joining two all-valid sequences gives an all-valid sequence.
proof fn lemma_valid_concat(a: Seq<i8>, b: Seq<i8>)
    requires
        all_spins_valid(a),
        all_spins_valid(b),
    ensures
        all_spins_valid(a + b),
{
    assert forall|k: int| 0 <= k < (a + b).len() implies spin_ok(#[trigger] (a + b)[k]) by {
        if k < a.len() {
            assert((a + b)[k] == a[k]);
            assert(spin_ok(a[k]));
        } else {
            assert((a + b)[k] == b[k - a.len()]);
            assert(spin_ok(b[k - a.len()]));
        }
    }
}

/// Every cell a successful row-remainder parse yields is a valid spin.
proof fn lemma_row_cont_valid(b: Seq<u8>, p: int)
    ensures
        parse_row_cont(b, p) is Some ==> all_spins_valid(parse_row_cont(b, p)->Some_0.0),
    decreases b.len() - p,
{
    if 0 <= p && p < b.len() && b[p] == 32u8 {
        match parse_cell(b, p + 1) {
            Some((c, p2)) => {
                lemma_row_cont_valid(b, p2);
                match parse_row_cont(b, p2) {
                    Some((cs, p3)) => {
                        lemma_valid_singleton(c);
                        lemma_valid_concat(seq![c], cs);
                    },
                    None => {},
                }
            },
            None => {},
        }
    }
}

/// A successful fixed-tail parse yields exactly `count` cells, every one a
/// valid spin.
proof fn lemma_fixed_tail_props(b: Seq<u8>, p: int, count: int)
    requires
        count >= 0,
    ensures
        parse_fixed_tail(b, p, count) is Some ==> {
            let pr = parse_fixed_tail(b, p, count)->Some_0;
            all_spins_valid(pr.0) && pr.0.len() == count
        },
    decreases count,
{
    if count > 0 && 0 <= p && p < b.len() && b[p] == 32u8 {
        match parse_cell(b, p + 1) {
            Some((c, p2)) => {
                lemma_fixed_tail_props(b, p2, count - 1);
                match parse_fixed_tail(b, p2, count - 1) {
                    Some((cs, p3)) => {
                        lemma_valid_singleton(c);
                        lemma_valid_concat(seq![c], cs);
                    },
                    None => {},
                }
            },
            None => {},
        }
    }
}

/// A successful fixed-row parse yields exactly `d` cells, every one a valid
/// spin.
proof fn lemma_fixed_row_props(b: Seq<u8>, p: int, d: int)
    requires
        d >= 1,
    ensures
        parse_fixed_row(b, p, d) is Some ==> {
            let pr = parse_fixed_row(b, p, d)->Some_0;
            all_spins_valid(pr.0) && pr.0.len() == d
        },
{
    match parse_cell(b, p) {
        Some((c, p1)) => {
            lemma_fixed_tail_props(b, p1, d - 1);
            match parse_fixed_tail(b, p1, d - 1) {
                Some((cs, p2)) => {
                    lemma_valid_singleton(c);
                    lemma_valid_concat(seq![c], cs);
                },
                None => {},
            }
        },
        None => {},
    }
}

/// A successful run of `count` fixed rows yields exactly `count * d` cells,
/// every one a valid spin.
proof fn lemma_rows_props(b: Seq<u8>, p: int, d: int, count: int)
    requires
        count >= 0,
        d >= 1,
    ensures
        parse_rows(b, p, d, count) is Some ==> {
            let pr = parse_rows(b, p, d, count)->Some_0;
            all_spins_valid(pr.0) && pr.0.len() == count * d
        },
    decreases count,
{
    if count <= 0 {
        assert(count * d == 0) by (nonlinear_arith)
            requires
                count == 0,
        ;
    } else {
        match parse_fixed_row(b, p, d) {
            Some((cs, p1)) => {
                lemma_fixed_row_props(b, p, d);
                lemma_rows_props(b, p1, d, count - 1);
                match parse_rows(b, p1, d, count - 1) {
                    Some((cs2, p2)) => {
                        lemma_valid_concat(cs, cs2);
                        assert(d + (count - 1) * d == count * d) by (nonlinear_arith);
                    },
                    None => {},
                }
            },
            None => {},
        }
    }
}

/// The bytes `x` stand in `b` starting at position `p`.
pub open spec fn suffix_is(b: Seq<u8>, p: int, x: Seq<u8>) -> bool {
    &&& 0 <= p
    &&& p + x.len() <= b.len()
    &&& b.subrange(p, p + x.len()) == x
}

/// Where a concatenation stands in `b`, its parts stand there one after the
/// other.
proof fn lemma_suffix_split(b: Seq<u8>, p: int, x: Seq<u8>, y: Seq<u8>)
    requires
        suffix_is(b, p, x + y),
    ensures
        suffix_is(b, p, x),
        suffix_is(b, p + x.len(), y),
{
    let xy = x + y;
    assert forall|m: int| 0 <= m < x.len()
        implies #[trigger] b.subrange(p, p + x.len() as int)[m] == x[m] by {
        assert(b.subrange(p, p + x.len() as int)[m] == b[p + m]);
        assert(b.subrange(p, p + xy.len() as int)[m] == b[p + m]);
        assert(xy[m] == x[m]);
    }
    assert(b.subrange(p, p + x.len() as int) =~= x);
    let q = p + x.len() as int;
    assert forall|m: int| 0 <= m < y.len()
        implies #[trigger] b.subrange(q, q + y.len() as int)[m] == y[m] by {
        assert(b.subrange(q, q + y.len() as int)[m] == b[q + m]);
        assert(b.subrange(p, p + xy.len() as int)[x.len() + m] == b[p + x.len() + m]);
        assert(xy[x.len() + m] == y[m]);
    }
    assert(b.subrange(q, q + y.len() as int) =~= y);
}

/// A rendered cell parses back to the cell it came from.
proof fn lemma_parse_render_cell(b: Seq<u8>, p: int, c: i8)
    requires
        spin_ok(c),
        suffix_is(b, p, cell_bytes(c)),
    ensures
        parse_cell(b, p) == Some::<(i8, int)>((c, p + cell_bytes(c).len())),
{
    let cb = cell_bytes(c);
    assert(b.subrange(p, p + cb.len() as int)[0] == b[p]);
    if c == 1i8 {
        assert(b[p] == 49u8);
    } else {
        assert(b.subrange(p, p + cb.len() as int)[1] == b[p + 1]);
        assert(b[p] == 45u8);
        assert(b[p + 1] == 49u8);
    }
}

/// A rendered row tail parses back, both as a first-row remainder and as a
/// fixed tail of `dim - j` cells, to exactly the cells it came from.
proof fn lemma_parse_render_tail(s: Seq<i8>, dim: int, i: int, j: int, b: Seq<u8>, p: int)
    requires
        all_spins_valid(s),
        s.len() == dim * dim,
        0 <= i < dim,
        1 <= j <= dim,
        suffix_is(b, p, row_tail_bytes(s, dim, i, j)),
    ensures
        parse_row_cont(b, p) == Some::<(Seq<i8>, int)>((
            s.subrange(i * dim + j, i * dim + dim),
            p + row_tail_bytes(s, dim, i, j).len(),
        )),
        parse_fixed_tail(b, p, dim - j) == Some::<(Seq<i8>, int)>((
            s.subrange(i * dim + j, i * dim + dim),
            p + row_tail_bytes(s, dim, i, j).len(),
        )),
    decreases dim - j,
{
    assert(0 <= i * dim && i * dim + dim <= dim * dim) by (nonlinear_arith)
        requires
            0 <= i && i < dim,
    ;
    if j == dim {
        let tb = row_tail_bytes(s, dim, i, j);
        assert(tb == seq![10u8]);
        assert(b.subrange(p, p + 1)[0] == b[p]);
        assert(b[p] == 10u8);
        assert(s.subrange(i * dim + dim, i * dim + dim) =~= Seq::<i8>::empty());
    } else {
        let k0 = i * dim + j;
        assert(0 <= k0 && k0 < dim * dim) by (nonlinear_arith)
            requires
                k0 == i * dim + j,
                0 <= i && i < dim,
                0 <= j && j < dim,
        ;
        assert(spin_ok(s[k0]));
        let cb = cell_bytes(s[k0]);
        let rest = row_tail_bytes(s, dim, i, j + 1);
        assert(row_tail_bytes(s, dim, i, j) == seq![32u8] + cb + rest);
        assert((seq![32u8] + cb + rest) =~= seq![32u8] + (cb + rest));
        lemma_suffix_split(b, p, seq![32u8], cb + rest);
        lemma_suffix_split(b, p + 1, cb, rest);
        assert(b.subrange(p, p + 1)[0] == b[p]);
        assert(b[p] == 32u8);
        lemma_parse_render_cell(b, p + 1, s[k0]);
        let p1 = p + 1 + cb.len();
        lemma_parse_render_tail(s, dim, i, j + 1, b, p1);
        assert(seq![s[k0]] + s.subrange(i * dim + j + 1, i * dim + dim)
            =~= s.subrange(i * dim + j, i * dim + dim));
    }
}

/// A rendered row parses back, both as the width-discovering first row and
/// as a fixed row of `dim` cells, to exactly the cells it came from.
proof fn lemma_parse_render_row(s: Seq<i8>, dim: int, i: int, b: Seq<u8>, p: int)
    requires
        all_spins_valid(s),
        s.len() == dim * dim,
        0 <= i < dim,
        suffix_is(b, p, row_bytes(s, dim, i)),
    ensures
        parse_first_row(b, p) == Some::<(Seq<i8>, int)>((
            s.subrange(i * dim, i * dim + dim),
            p + row_bytes(s, dim, i).len(),
        )),
        parse_fixed_row(b, p, dim) == Some::<(Seq<i8>, int)>((
            s.subrange(i * dim, i * dim + dim),
            p + row_bytes(s, dim, i).len(),
        )),
{
    let k0 = i * dim;
    assert(0 <= k0 && k0 + dim <= dim * dim) by (nonlinear_arith)
        requires
            k0 == i * dim,
            0 <= i && i < dim,
    ;
    assert(spin_ok(s[k0]));
    let cb = cell_bytes(s[k0]);
    let rest = row_tail_bytes(s, dim, i, 1);
    lemma_suffix_split(b, p, cb, rest);
    lemma_parse_render_cell(b, p, s[k0]);
    let p1 = p + cb.len();
    lemma_parse_render_tail(s, dim, i, 1, b, p1);
    assert(seq![s[k0]] + s.subrange(i * dim + 1, i * dim + dim)
        =~= s.subrange(i * dim, i * dim + dim));
}

/// The rendered rows from `i` on parse back to exactly the cells they came
/// from.
proof fn lemma_parse_render_rows(s: Seq<i8>, dim: int, i: int, b: Seq<u8>, p: int)
    requires
        all_spins_valid(s),
        s.len() == dim * dim,
        1 <= dim,
        0 <= i <= dim,
        suffix_is(b, p, rows_bytes_from(s, dim, i)),
    ensures
        parse_rows(b, p, dim, dim - i) == Some::<(Seq<i8>, int)>((
            s.subrange(i * dim, dim * dim),
            p + rows_bytes_from(s, dim, i).len(),
        )),
    decreases dim - i,
{
    assert(0 <= i * dim && i * dim <= dim * dim) by (nonlinear_arith)
        requires
            0 <= i && i <= dim,
    ;
    if i == dim {
        assert(s.subrange(dim * dim, dim * dim) =~= Seq::<i8>::empty());
    } else {
        assert(0 <= i * dim && i * dim + dim <= dim * dim) by (nonlinear_arith)
            requires
                0 <= i && i < dim,
        ;
        let rb = row_bytes(s, dim, i);
        let rest = rows_bytes_from(s, dim, i + 1);
        lemma_suffix_split(b, p, rb, rest);
        lemma_parse_render_row(s, dim, i, b, p);
        let p1 = p + rb.len();
        lemma_parse_render_rows(s, dim, i + 1, b, p1);
        assert((i + 1) * dim == i * dim + dim) by (nonlinear_arith);
        assert(s.subrange(i * dim, i * dim + dim) + s.subrange(i * dim + dim, dim * dim)
            =~= s.subrange(i * dim, dim * dim));
    }
}

/// Law: the round trip is exact.  Rendering an initialized lattice of
/// accepted side length and parsing the bytes back yields exactly the
/// original cells and side length.
#[verifier::rlimit(60)]
pub proof fn lemma_snapshot_round_trip(s: Seq<i8>, dim: int)
    requires
        1 <= dim <= MAX_DIM,
        s.len() == dim * dim,
        all_spins_valid(s),
    ensures
        parse_snapshot(render_of(s, dim)) == Some::<(Seq<i8>, int)>((s, dim)),
{
    let b = render_of(s, dim);
    assert(b.subrange(0, b.len() as int) =~= b);
    assert(suffix_is(b, 0, rows_bytes_from(s, dim, 0)));
    let rb = row_bytes(s, dim, 0);
    let rest = rows_bytes_from(s, dim, 1);
    lemma_suffix_split(b, 0, rb, rest);
    lemma_parse_render_row(s, dim, 0, b, 0);
    assert(0 * dim == 0) by (nonlinear_arith);
    assert(dim <= dim * dim) by (nonlinear_arith)
        requires
            1 <= dim,
    ;
    let row0 = s.subrange(0, dim);
    assert(row0.len() == dim);
    let p1 = 0 + rb.len() as int;
    lemma_parse_render_rows(s, dim, 1, b, p1);
    assert(1 * dim == dim) by (nonlinear_arith);
    assert(p1 + rest.len() == b.len());
    assert(dim <= dim * dim) by (nonlinear_arith)
        requires
            1 <= dim,
    ;
    assert(row0 + s.subrange(dim, dim * dim) =~= s);
}

impl Ensemble {
    /// Parse a snapshot back into a lattice carrying the given parameters.
    /// Accepts exactly the byte sequences `render_state` produces for some
    /// initialized lattice of accepted side length, and recovers that
    /// lattice's cells; on anything else it returns nothing.
    pub fn parse_state(bytes: &[u8], params: Params) -> (r: Option<Ensemble>)
        requires
            params.valid(),
        ensures
            ({
                let sp = parse_snapshot(bytes@);
                match (r, sp) {
                    (Some(e), Some((cells, d))) => e.wf() && e.initialized()
                        && e.params == params && e.side() == d && e.cells() == cells,
                    (None, None) => true,
                    _ => false,
                }
            }),
    {
        let (c0, q0) = match parse_cell_x(bytes, 0) {
            Some(pair) => pair,
            None => {
                return None;
            },
        };
        let (cs0, p1) = match parse_row_cont_x(bytes, q0) {
            Some(pair) => pair,
            None => {
                return None;
            },
        };
        proof {
            lemma_row_cont_valid(bytes@, q0 as int);
            lemma_valid_singleton(c0);
            lemma_valid_concat(seq![c0], cs0@);
        }
        let mut row0: Vec<i8> = Vec::new();
        let mut tail0 = cs0;
        row0.push(c0);
        row0.append(&mut tail0);
        let d = row0.len();
        if d > MAX_DIM {
            return None;
        }
        let (rest, p2) = match parse_rows_x(bytes, p1, d, d - 1) {
            Some(pair) => pair,
            None => {
                return None;
            },
        };
        if p2 != bytes.len() {
            return None;
        }
        proof {
            lemma_rows_props(bytes@, p1 as int, d as int, d as int - 1);
        }
        let mut all = row0;
        let mut rest_m = rest;
        all.append(&mut rest_m);
        let ghost cells = all@;
        proof {
            lemma_valid_concat(row0@, rest@);
            assert(d as int + (d as int - 1) * d as int == d as int * d as int)
                by (nonlinear_arith);
            assert(d as int * d as int <= 536848900) by (nonlinear_arith)
                requires
                    1 <= d as int && d as int <= 23170,
            ;
        }
        let mut e = Ensemble::new(d, params);
        let mut i: usize = 0;
        while i < d
            invariant
                e.wf(),
                e.dim == d,
                e.params == params,
                1 <= d <= MAX_DIM,
                i <= d,
                all@ == cells,
                cells.len() == d as int * d as int,
                all_spins_valid(cells),
                forall|k: int| 0 <= k < i as int * d as int
                    ==> #[trigger] e.cells()[k] == cells[k],
            decreases d - i,
        {
            let mut j: usize = 0;
            while j < d
                invariant
                    e.wf(),
                    e.dim == d,
                    e.params == params,
                    1 <= d <= MAX_DIM,
                    i < d,
                    j <= d,
                    all@ == cells,
                    cells.len() == d as int * d as int,
                    all_spins_valid(cells),
                    forall|k: int| 0 <= k < i as int * d as int + j as int
                        ==> #[trigger] e.cells()[k] == cells[k],
                decreases d - j,
            {
                let ghost k0 = i as int * d as int + j as int;
                proof {
                    assert(0 <= k0 && k0 < d as int * d as int) by (nonlinear_arith)
                        requires
                            k0 == i as int * d as int + j as int,
                            0 <= i as int && (i as int) < d as int,
                            0 <= j as int && (j as int) < d as int,
                    ;
                    assert(i as int * d as int + j as int <= 536848900) by (nonlinear_arith)
                        requires
                            0 <= i as int && (i as int) < d as int,
                            0 <= j as int && (j as int) < d as int,
                            d as int <= 23170,
                    ;
                    assert(spin_ok(cells[k0]));
                }
                let ghost prev = e.cells();
                let v = all[i * d + j];
                e.set_spin(i, j, v);
                proof {
                    assert forall|k: int| 0 <= k < k0 + 1
                        implies #[trigger] e.cells()[k] == cells[k] by {
                        if k == k0 {
                            assert(e.cells()[k] == v);
                        } else {
                            assert(e.cells()[k] == prev[k]);
                        }
                    }
                }
                j = j + 1;
            }
            i = i + 1;
            proof {
                assert(i as int * d as int == (i as int - 1) * d as int + d as int)
                    by (nonlinear_arith);
            }
        }
        proof {
            assert(e.cells() =~= cells);
        }
        Some(e)
    }
}

} // verus!


