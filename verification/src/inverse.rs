//! Matrix inversion by Gauss-Jordan elimination with row pivoting.
//!
//! The algorithm is mirrored step by step by spec functions on the model:
//! `augmented_v` builds the N x 2N matrix pairing the input with an
//! identity, `gj_run` performs the elimination rounds, and `right_half_v`
//! extracts the result. The executable `inverse` is proved to return
//! exactly `inverse_v` of its input. Singular input is not detected:
//! elimination then proceeds with zero pivots and the degenerate result is
//! still returned, an accepted limitation of the algorithm.

use vstd::prelude::*;

use crate::matrix::Matrix;
use crate::matrix::MatrixV;
use crate::num::Arith;
use crate::num::Divisible;
use crate::num::One;
use crate::num::Zero;

verus! {

/// The pivot search of one elimination round: starting at row `i` of
/// column `lead`, walk down the rows looking for a cell that is not a
/// zero; at the bottom, restart from row `r` in the next column. The
/// result is the position of the pivot found, or `(r, cols)` when the
/// columns ran out.
pub open spec fn search_pivot<T: Divisible>(v: MatrixV<T>, r: int, i: int, lead: int) -> (int, int)
    decreases v.cols - lead, v.rows - i,
{
    if 0 <= r <= i && i < v.rows && 0 <= lead < v.cols {
        if !v.index(i, lead).eq_zero() {
            (i, lead)
        } else if i + 1 < v.rows {
            search_pivot(v, r, i + 1, lead)
        } else if lead + 1 < v.cols {
            search_pivot(v, r, r, lead + 1)
        } else {
            (r, v.cols as int)
        }
    } else {
        (i, lead)
    }
}

/// Row `r` divided cell-wise by the pivot value `p`.
pub open spec fn scale_row_v<T: Divisible>(v: MatrixV<T>, r: int, p: T) -> MatrixV<T> {
    MatrixV {
        grid: v.grid.update(r, Seq::new(v.grid[r].len(), |j: int| v.grid[r][j].div_v(p))),
        ..v
    }
}

/// Every row but `r` cleared of column `lead`: from row `k` subtract row
/// `r` multiplied by row `k`'s entry at `lead`, cell-wise.
pub open spec fn eliminate_v<T: Divisible>(v: MatrixV<T>, r: int, lead: int) -> MatrixV<T> {
    MatrixV {
        grid: Seq::new(
            v.grid.len(),
            |k: int|
                if k == r {
                    v.grid[k]
                } else {
                    Seq::new(
                        v.grid[k].len(),
                        |j: int| v.grid[k][j].sub_v(v.grid[r][j].mul_v(v.grid[k][lead])),
                    )
                },
        ),
        ..v
    }
}

/// One elimination round on state `v`, after the search found the pivot at
/// `(i, lead)`: swap the pivot row up, normalize it if the pivot is not a
/// zero, then clear the column from the other rows.
pub open spec fn gj_round<T: Divisible>(v: MatrixV<T>, r: int, i: int, lead: int) -> MatrixV<T> {
    let v1 = v.swap_rows_v(i, r);
    let p = v1.index(r, lead);
    let v2 = if !p.eq_zero() {
        scale_row_v(v1, r, p)
    } else {
        v1
    };
    eliminate_v(v2, r, lead)
}

/// Whether dividing row `r` of `v1` by its pivot at `lead` is within the
/// element type's machine limits (trivially so for a zero pivot, which is
/// not divided by).
pub open spec fn scale_ok<T: Divisible>(v1: MatrixV<T>, r: int, lead: int) -> bool {
    let p = v1.index(r, lead);
    p.eq_zero() || forall|j: int| 0 <= j < v1.cols ==> #[trigger] v1.index(r, j).div_ok(p)
}

/// Whether clearing column `lead` of every row of `v2` but `r` is within
/// the element type's machine limits.
pub open spec fn elim_ok<T: Divisible>(v2: MatrixV<T>, r: int, lead: int) -> bool {
    forall|k: int, j: int|
        0 <= k < v2.rows && k != r && 0 <= j < v2.cols ==> (#[trigger] v2.index(r, j).mul_ok(
            v2.index(k, lead),
        ) && v2.index(k, j).sub_ok(v2.index(r, j).mul_v(v2.index(k, lead))))
}

/// Whether every element operation of the round `gj_round(v, r, i, lead)`
/// is within the element type's machine limits.
pub open spec fn round_ok<T: Divisible>(v: MatrixV<T>, r: int, i: int, lead: int) -> bool {
    let v1 = v.swap_rows_v(i, r);
    let p = v1.index(r, lead);
    let v2 = if !p.eq_zero() {
        scale_row_v(v1, r, p)
    } else {
        v1
    };
    scale_ok(v1, r, lead) && elim_ok(v2, r, lead)
}

/// The elimination rounds from row `r` on, with the pivot-column cursor at
/// `lead`; stops early when the cursor runs off the columns.
pub open spec fn gj_run<T: Divisible>(v: MatrixV<T>, r: int, lead: int) -> MatrixV<T>
    decreases v.rows - r,
{
    if !(0 <= r < v.rows && 0 <= lead) {
        v
    } else if lead >= v.cols {
        v
    } else {
        let (i, lead2) = search_pivot(v, r, r, lead);
        if lead2 >= v.cols {
            v
        } else {
            let w = gj_round(v, r, i, lead2);
            gj_run(MatrixV { rows: v.rows, cols: v.cols, grid: w.grid }, r + 1, lead2 + 1)
        }
    }
}

/// Whether every element operation of `gj_run(v, r, lead)` is within the
/// element type's machine limits.
pub open spec fn gj_ok<T: Divisible>(v: MatrixV<T>, r: int, lead: int) -> bool
    decreases v.rows - r,
{
    if !(0 <= r < v.rows && 0 <= lead) {
        true
    } else if lead >= v.cols {
        true
    } else {
        let (i, lead2) = search_pivot(v, r, r, lead);
        if lead2 >= v.cols {
            true
        } else {
            let w = gj_round(v, r, i, lead2);
            round_ok(v, r, i, lead2) && gj_ok(
                MatrixV { rows: v.rows, cols: v.cols, grid: w.grid },
                r + 1,
                lead2 + 1,
            )
        }
    }
}

/// The N x 2N augmented matrix: the square input on the left, the identity
/// of the same size on the right.
pub open spec fn augmented_v<T: Zero + One>(m: MatrixV<T>) -> MatrixV<T> {
    MatrixV {
        rows: m.rows,
        cols: (2 * m.rows) as nat,
        grid: Seq::new(
            m.rows,
            |i: int|
                Seq::new(
                    (2 * m.rows) as nat,
                    |j: int|
                        if j < m.rows {
                            m.grid[i][j]
                        } else if j == m.rows + i {
                            T::one_v()
                        } else {
                            T::zero_v()
                        },
                ),
        ),
    }
}

/// The right N columns of an N x 2N matrix, as an N x N matrix.
pub open spec fn right_half_v<T>(v: MatrixV<T>, n: int) -> MatrixV<T> {
    MatrixV {
        rows: n as nat,
        cols: n as nat,
        grid: Seq::new(n as nat, |i: int| Seq::new(n as nat, |j: int| v.grid[i][j + n])),
    }
}

/// The inverse that Gauss-Jordan elimination computes for a square model:
/// eliminate on the augmented matrix, then keep the right half.
pub open spec fn inverse_v<T: Divisible>(m: MatrixV<T>) -> MatrixV<T> {
    right_half_v(gj_run(augmented_v(m), 0, 0), m.rows as int)
}

/// Whether every element operation of the whole elimination run on `m` is
/// within the element type's machine limits.
pub open spec fn inverse_ok<T: Divisible>(m: MatrixV<T>) -> bool {
    gj_ok(augmented_v(m), 0, 0)
}

impl<T: Divisible> Matrix<T> {
    /// The inverse of a square matrix, computed by Gauss-Jordan elimination
    /// with row pivoting on the augmented matrix, or `None` for a
    /// non-square matrix — never a fatal error. Singularity is not
    /// detected: a singular square input yields a degenerate result rather
    /// than an error.
    pub fn inverse(&self) -> (r: Option<Matrix<T>>)
        requires
            self.wf(),
            self@.rows == self@.cols ==> self@.rows * 2 <= usize::MAX && self@.rows * (self@.rows
                * 2) <= usize::MAX && inverse_ok(self@),
        ensures
            self@.rows != self@.cols ==> r is None,
            self@.rows == self@.cols ==> (r matches Some(inv) && inv.wf() && inv@ == inverse_v(
                self@,
            )),
    {
        if self.rows() != self.cols() {
            return None;
        }
        let n = self.rows();
        let width = n * 2;
        proof {
            self.lemma_wf();
            assert(n * n <= n * (n * 2)) by (nonlinear_arith)
                requires
                    n >= 1,
            ;
        }
        let mut m: Matrix<T> = Matrix::zero(n, width);

        // Fill the left half with a copy of the input.
        let mut i: usize = 0;
        while i < n
            invariant
                self.wf(),
                m.wf(),
                self@.rows == n,
                self@.cols == n,
                n >= 1,
                width == n * 2,
                m@.rows == n,
                m@.cols == width,
                i <= n,
                forall|a: int, b: int|
                    0 <= a < i && 0 <= b < n ==> m@.index(a, b) == self@.index(a, b),
                forall|a: int, b: int|
                    0 <= a < n && n <= b < width ==> m@.index(a, b) == T::zero_v(),
                forall|a: int, b: int|
                    i <= a < n && 0 <= b < n ==> m@.index(a, b) == T::zero_v(),
            decreases n - i,
        {
            let mut j: usize = 0;
            while j < n
                invariant
                    self.wf(),
                    m.wf(),
                    self@.rows == n,
                    self@.cols == n,
                    n >= 1,
                    width == n * 2,
                    m@.rows == n,
                    m@.cols == width,
                    i < n,
                    j <= n,
                    forall|a: int, b: int|
                        0 <= a < i && 0 <= b < n ==> m@.index(a, b) == self@.index(a, b),
                    forall|b: int| 0 <= b < j ==> m@.index(i as int, b) == self@.index(i as int, b),
                    forall|a: int, b: int|
                        0 <= a < n && n <= b < width ==> m@.index(a, b) == T::zero_v(),
                    forall|a: int, b: int|
                        i < a < n && 0 <= b < n ==> m@.index(a, b) == T::zero_v(),
                    forall|b: int| j <= b < n ==> m@.index(i as int, b) == T::zero_v(),
                decreases n - j,
            {
                proof {
                    m.lemma_wf();
                }
                let val = self.get(i, j).unwrap();
                let ghost pre = m@;
                m.set(i, j, val);
                proof {
                    assert forall|a: int, b: int|
                        0 <= a < i && 0 <= b < n implies m@.index(a, b) == self@.index(a, b) by {
                        assert(pre.index(a, b) == self@.index(a, b));
                    }
                    assert forall|b: int| 0 <= b < j + 1 implies m@.index(i as int, b)
                        == self@.index(i as int, b) by {
                        if b < j {
                            assert(pre.index(i as int, b) == self@.index(i as int, b));
                        }
                    }
                    assert forall|a: int, b: int|
                        0 <= a < n && n <= b < width implies m@.index(a, b) == T::zero_v() by {
                        assert(pre.index(a, b) == T::zero_v());
                    }
                    assert forall|a: int, b: int|
                        i < a < n && 0 <= b < n implies m@.index(a, b) == T::zero_v() by {
                        assert(pre.index(a, b) == T::zero_v());
                    }
                    assert forall|b: int| j + 1 <= b < n implies m@.index(i as int, b)
                        == T::zero_v() by {
                        assert(pre.index(i as int, b) == T::zero_v());
                    }
                }
                j += 1;
            }
            i += 1;
        }

        // Put ones on the diagonal of the right half.
        let mut i: usize = 0;
        while i < n
            invariant
                self.wf(),
                m.wf(),
                self@.rows == n,
                self@.cols == n,
                n >= 1,
                width == n * 2,
                m@.rows == n,
                m@.cols == width,
                i <= n,
                forall|a: int, b: int|
                    0 <= a < n && 0 <= b < n ==> m@.index(a, b) == self@.index(a, b),
                forall|a: int| #![trigger m@.grid[a]]
                    0 <= a < i ==> m@.index(a, n + a) == T::one_v(),
                forall|a: int, b: int|
                    0 <= a < n && n <= b < width && b != n + a ==> m@.index(a, b) == T::zero_v(),
                forall|a: int| #![trigger m@.grid[a]]
                    i <= a < n ==> m@.index(a, n + a) == T::zero_v(),
            decreases n - i,
        {
            proof {
                m.lemma_wf();
            }
            let ghost pre = m@;
            m.set(i, i + n, T::one());
            proof {
                assert forall|a: int, b: int|
                    0 <= a < n && 0 <= b < n implies m@.index(a, b) == self@.index(a, b) by {
                    assert(pre.index(a, b) == self@.index(a, b));
                }
                assert forall|a: int| #![trigger m@.grid[a]] 0 <= a < i + 1 implies m@.index(a, n + a)
                    == T::one_v() by {
                    if a < i {
                        assert(pre.index(a, n + a) == T::one_v());
                    }
                }
                assert forall|a: int, b: int|
                    0 <= a < n && n <= b < width && b != n + a implies m@.index(a, b)
                    == T::zero_v() by {
                    assert(pre.index(a, b) == T::zero_v());
                }
                assert forall|a: int| #![trigger m@.grid[a]] i + 1 <= a < n implies m@.index(a, n + a)
                    == T::zero_v() by {
                    assert(pre.index(a, n + a) == T::zero_v());
                }
            }
            i += 1;
        }
        let ghost aug0 = augmented_v(self@);
        proof {
            m.lemma_wf();
            self.lemma_wf();
            assert forall|a: int| 0 <= a < m@.grid.len() implies m@.grid[a] =~= aug0.grid[a] by {
                assert forall|b: int| 0 <= b < width implies m@.grid[a][b] == aug0.grid[a][b] by {
                    if b < n {
                        assert(m@.index(a, b) == self@.index(a, b));
                    } else if b == n + a {
                        assert(m@.index(a, n + a) == T::one_v());
                    } else {
                        assert(m@.index(a, b) == T::zero_v());
                    }
                }
            }
            assert(m@.grid =~= aug0.grid);
            assert(m@ =~= aug0);
        }

        // The elimination rounds.
        let mut lead: usize = 0;
        let mut rr: usize = 0;
        while rr < n
            invariant
                m.wf(),
                n >= 1,
                width == n * 2,
                m@.rows == n,
                m@.cols == width,
                rr <= n,
                lead <= width,
                gj_run(aug0, 0, 0) == gj_run(m@, rr as int, lead as int),
                gj_ok(m@, rr as int, lead as int),
            ensures
                m.wf(),
                m@.rows == n,
                m@.cols == width,
                gj_run(aug0, 0, 0) == m@,
            decreases n - rr,
        {
            if width <= lead {
                proof {
                    assert(gj_run(m@, rr as int, lead as int) == m@);
                }
                break;
            }
            let ghost lead0 = lead as int;
            let ghost v0 = m@;
            proof {
                m.lemma_wf();
            }

            // Search for a pivot: walk down column `lead` from row `rr`,
            // advancing to the next column when the rows run out.
            let mut i: usize = rr;
            let mut ran_off = false;
            loop
                invariant_except_break
                    lead < width,
                    !ran_off,
                    search_pivot(v0, rr as int, rr as int, lead0) == search_pivot(
                        v0,
                        rr as int,
                        i as int,
                        lead as int,
                    ),
                invariant
                    m.wf(),
                    m@ == v0,
                    n >= 1,
                    width == n * 2,
                    m@.rows == n,
                    m@.cols == width,
                    rr < n,
                    rr <= i < n,
                    lead0 <= lead,
                    lead <= width,
                ensures
                    m.wf(),
                    m@ == v0,
                    ran_off ==> lead == width && search_pivot(v0, rr as int, rr as int, lead0)
                        == (rr as int, width as int),
                    !ran_off ==> rr <= i < n && lead0 <= lead < width && !v0.index(
                        i as int,
                        lead as int,
                    ).eq_zero() && search_pivot(v0, rr as int, rr as int, lead0) == (
                        i as int,
                        lead as int,
                    ),
                decreases width - lead, n - i,
            {
                let cell = m.get(i, lead).unwrap();
                if !cell.is_zero() {
                    break;
                }
                i += 1;
                if i == n {
                    i = rr;
                    lead += 1;
                    if lead == width {
                        ran_off = true;
                        break;
                    }
                }
            }
            if ran_off {
                proof {
                    assert(gj_run(v0, rr as int, lead0) == v0);
                    assert(gj_run(m@, rr as int, lead as int) == m@);
                }
                break;
            }

            // Unfold the mirror at this round.
            let ghost i0 = i as int;
            let ghost lead2 = lead as int;
            let ghost w = gj_round(v0, rr as int, i0, lead2);
            let ghost next = MatrixV { rows: v0.rows, cols: v0.cols, grid: w.grid };
            proof {
                assert(gj_run(v0, rr as int, lead0) == gj_run(next, rr as int + 1, lead2 + 1));
                assert(round_ok(v0, rr as int, i0, lead2));
                assert(gj_ok(next, rr as int + 1, lead2 + 1));
            }

            m.swap_rows(i, rr);
            let ghost v1 = v0.swap_rows_v(i0, rr as int);
            proof {
                m.lemma_wf();
                assert(m@ == v1);
                assert(scale_ok(v1, rr as int, lead2));
            }
            let p = m.get(rr, lead).unwrap();

            if !p.is_zero() {
                // Normalize the pivot row: divide every cell by the pivot.
                let mut j: usize = 0;
                while j < width
                    invariant
                        m.wf(),
                        n >= 1,
                        width == n * 2,
                        m@.rows == n,
                        m@.cols == width,
                        rr < n,
                        lead < width,
                        j <= width,
                        p == v1.index(rr as int, lead as int),
                        !p.eq_zero(),
                        v1.cols == width,
                        scale_ok(v1, rr as int, lead as int),
                        forall|b: int|
                            0 <= b < j ==> m@.index(rr as int, b) == v1.index(rr as int, b).div_v(
                                p,
                            ),
                        forall|b: int|
                            j <= b < width ==> m@.index(rr as int, b) == v1.index(rr as int, b),
                        forall|a: int, b: int|
                            0 <= a < n && a != rr && 0 <= b < width ==> m@.index(a, b) == v1.index(
                                a,
                                b,
                            ),
                    decreases width - j,
                {
                    proof {
                        m.lemma_wf();
                        assert(!v1.index(rr as int, lead as int).eq_zero());
                        assert(v1.index(rr as int, j as int).div_ok(p));
                    }
                    let cur = m.get(rr, j).unwrap();
                    let ghost pre = m@;
                    m.set(rr, j, cur.div(p));
                    proof {
                        assert forall|b: int| 0 <= b < j + 1 implies m@.index(rr as int, b)
                            == v1.index(rr as int, b).div_v(p) by {
                            if b < j {
                                assert(pre.index(rr as int, b) == v1.index(rr as int, b).div_v(p));
                            }
                        }
                        assert forall|b: int| j + 1 <= b < width implies m@.index(rr as int, b)
                            == v1.index(rr as int, b) by {
                            assert(pre.index(rr as int, b) == v1.index(rr as int, b));
                        }
                        assert forall|a: int, b: int|
                            0 <= a < n && a != rr && 0 <= b < width implies m@.index(a, b)
                            == v1.index(a, b) by {
                            assert(pre.index(a, b) == v1.index(a, b));
                        }
                    }
                    j += 1;
                }
                proof {
                    m.lemma_wf();
                    let target = scale_row_v(v1, rr as int, p);
                    assert(v1.grid[rr as int].len() == width);
                    assert forall|a: int| 0 <= a < m@.grid.len() implies m@.grid[a]
                        =~= target.grid[a] by {
                        assert forall|b: int| 0 <= b < width implies m@.grid[a][b]
                            == target.grid[a][b] by {
                            if a == rr as int {
                                assert(m@.index(a, b) == v1.index(a, b).div_v(p));
                            } else {
                                assert(m@.index(a, b) == v1.index(a, b));
                            }
                        }
                    }
                    assert(m@.grid =~= target.grid);
                    assert(m@ =~= target);
                }
            }
            let ghost v2 = m@;
            proof {
                m.lemma_wf();
                assert(v2 == (if !v1.index(rr as int, lead2).eq_zero() {
                    scale_row_v(v1, rr as int, v1.index(rr as int, lead2))
                } else {
                    v1
                }));
                assert(elim_ok(v2, rr as int, lead2));
            }

            // Clear column `lead` from every other row.
            let mut k: usize = 0;
            while k < n
                invariant
                    m.wf(),
                    n >= 1,
                    width == n * 2,
                    m@.rows == n,
                    m@.cols == width,
                    rr < n,
                    lead < width,
                    lead2 == lead as int,
                    k <= n,
                    v2.rows == n,
                    v2.cols == width,
                    elim_ok(v2, rr as int, lead2),
                    v2 == (if !v1.index(rr as int, lead2).eq_zero() {
                        scale_row_v(v1, rr as int, v1.index(rr as int, lead2))
                    } else {
                        v1
                    }),
                    v1 == v0.swap_rows_v(i0, rr as int),
                    forall|b: int|
                        0 <= b < width ==> m@.index(rr as int, b) == v2.index(rr as int, b),
                    forall|a: int, b: int|
                        0 <= a < k && a != rr && 0 <= b < width ==> m@.index(a, b) == v2.index(
                            a,
                            b,
                        ).sub_v(v2.index(rr as int, b).mul_v(v2.index(a, lead as int))),
                    forall|a: int, b: int|
                        k <= a < n && 0 <= b < width ==> m@.index(a, b) == v2.index(a, b),
                decreases n - k,
            {
                if k != rr {
                    let mulv = m.get(k, lead).unwrap();
                    proof {
                        assert(mulv == v2.index(k as int, lead as int));
                    }
                    let mut j: usize = 0;
                    while j < width
                        invariant
                            m.wf(),
                            n >= 1,
                            width == n * 2,
                            m@.rows == n,
                            m@.cols == width,
                            rr < n,
                            lead < width,
                            lead2 == lead as int,
                            k < n,
                            k != rr,
                            j <= width,
                            v2.rows == n,
                            v2.cols == width,
                            elim_ok(v2, rr as int, lead2),
                            v2 == (if !v1.index(rr as int, lead2).eq_zero() {
                                scale_row_v(v1, rr as int, v1.index(rr as int, lead2))
                            } else {
                                v1
                            }),
                            v1 == v0.swap_rows_v(i0, rr as int),
                            mulv == v2.index(k as int, lead as int),
                            forall|b: int|
                                0 <= b < width ==> m@.index(rr as int, b) == v2.index(rr as int, b),
                            forall|a: int, b: int|
                                0 <= a < k && a != rr && 0 <= b < width ==> m@.index(a, b)
                                    == v2.index(a, b).sub_v(
                                    v2.index(rr as int, b).mul_v(v2.index(a, lead as int)),
                                ),
                            forall|b: int|
                                0 <= b < j ==> m@.index(k as int, b) == v2.index(k as int, b).sub_v(
                                    v2.index(rr as int, b).mul_v(mulv),
                                ),
                            forall|b: int|
                                j <= b < width ==> m@.index(k as int, b) == v2.index(k as int, b),
                            forall|a: int, b: int|
                                k < a < n && 0 <= b < width ==> m@.index(a, b) == v2.index(a, b),
                        decreases width - j,
                    {
                        proof {
                            m.lemma_wf();
                            assert(v2.index(rr as int, j as int).mul_ok(
                                v2.index(k as int, lead as int),
                            ) && v2.index(k as int, j as int).sub_ok(
                                v2.index(rr as int, j as int).mul_v(
                                    v2.index(k as int, lead as int),
                                ),
                            ));
                        }
                        let t = m.get(rr, j).unwrap().mul(mulv);
                        let cur = m.get(k, j).unwrap();
                        let ghost pre = m@;
                        m.set(k, j, cur.sub(t));
                        proof {
                            assert forall|b: int| 0 <= b < width implies m@.index(rr as int, b)
                                == v2.index(rr as int, b) by {
                                assert(pre.index(rr as int, b) == v2.index(rr as int, b));
                            }
                            assert forall|a: int, b: int|
                                0 <= a < k && a != rr && 0 <= b < width implies m@.index(a, b)
                                == v2.index(a, b).sub_v(
                                v2.index(rr as int, b).mul_v(v2.index(a, lead as int)),
                            ) by {
                                assert(pre.index(a, b) == v2.index(a, b).sub_v(
                                    v2.index(rr as int, b).mul_v(v2.index(a, lead as int)),
                                ));
                            }
                            assert forall|b: int| 0 <= b < j + 1 implies m@.index(k as int, b)
                                == v2.index(k as int, b).sub_v(v2.index(rr as int, b).mul_v(mulv))
                                by {
                                if b < j {
                                    assert(pre.index(k as int, b) == v2.index(k as int, b).sub_v(
                                        v2.index(rr as int, b).mul_v(mulv),
                                    ));
                                }
                            }
                            assert forall|b: int| j + 1 <= b < width implies m@.index(k as int, b)
                                == v2.index(k as int, b) by {
                                assert(pre.index(k as int, b) == v2.index(k as int, b));
                            }
                            assert forall|a: int, b: int|
                                k < a < n && 0 <= b < width implies m@.index(a, b) == v2.index(
                                a,
                                b,
                            ) by {
                                assert(pre.index(a, b) == v2.index(a, b));
                            }
                        }
                        j += 1;
                    }
                }
                k += 1;
            }
            proof {
                m.lemma_wf();
                let elim = eliminate_v(v2, rr as int, lead2);
                assert forall|a: int| 0 <= a < m@.grid.len() implies m@.grid[a]
                    =~= elim.grid[a] by {
                    assert forall|b: int| 0 <= b < width implies m@.grid[a][b]
                        == elim.grid[a][b] by {
                        if a == rr as int {
                            assert(m@.index(a, b) == v2.index(rr as int, b));
                        } else {
                            assert(m@.index(a, b) == v2.index(a, b).sub_v(
                                v2.index(rr as int, b).mul_v(v2.index(a, lead as int)),
                            ));
                        }
                    }
                }
                assert(m@.grid =~= elim.grid);
                assert(m@ =~= elim);
                assert(m@ =~= next);
                assert(gj_run(aug0, 0, 0) == gj_run(m@, rr as int + 1, lead2 + 1));
            }
            lead += 1;
            rr += 1;
        }

        // Extract the right half.
        let mut out: Matrix<T> = Matrix::zero(n, n);
        let mut i: usize = 0;
        while i < n
            invariant
                m.wf(),
                out.wf(),
                n >= 1,
                width == n * 2,
                m@.rows == n,
                m@.cols == width,
                out@.rows == n,
                out@.cols == n,
                i <= n,
                forall|a: int, b: int|
                    0 <= a < i && 0 <= b < n ==> out@.index(a, b) == m@.index(a, b + n),
            decreases n - i,
        {
            let mut j: usize = 0;
            while j < n
                invariant
                    m.wf(),
                    out.wf(),
                    n >= 1,
                    width == n * 2,
                    m@.rows == n,
                    m@.cols == width,
                    out@.rows == n,
                    out@.cols == n,
                    i < n,
                    j <= n,
                    forall|a: int, b: int|
                        0 <= a < i && 0 <= b < n ==> out@.index(a, b) == m@.index(a, b + n),
                    forall|b: int|
                        0 <= b < j ==> out@.index(i as int, b) == m@.index(i as int, b + n),
                decreases n - j,
            {
                proof {
                    out.lemma_wf();
                }
                let val = m.get(i, j + n).unwrap();
                let ghost pre = out@;
                out.set(i, j, val);
                proof {
                    assert forall|a: int, b: int|
                        0 <= a < i && 0 <= b < n implies out@.index(a, b) == m@.index(a, b + n) by {
                        assert(pre.index(a, b) == m@.index(a, b + n));
                    }
                    assert forall|b: int| 0 <= b < j + 1 implies out@.index(i as int, b)
                        == m@.index(i as int, b + n) by {
                        if b < j {
                            assert(pre.index(i as int, b) == m@.index(i as int, b + n));
                        }
                    }
                }
                j += 1;
            }
            i += 1;
        }
        proof {
            out.lemma_wf();
            m.lemma_wf();
            let target = right_half_v(m@, n as int);
            assert forall|a: int| 0 <= a < out@.grid.len() implies out@.grid[a]
                =~= target.grid[a] by {
                assert forall|b: int| 0 <= b < n implies out@.grid[a][b] == target.grid[a][b] by {
                    assert(out@.index(a, b) == m@.index(a, b + n));
                }
            }
            assert(out@.grid =~= target.grid);
            assert(out@ =~= target);
            assert(out@ == inverse_v(self@));
        }
        Some(out)
    }
}

} // verus!
