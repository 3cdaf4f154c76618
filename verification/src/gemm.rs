//! General dense matrix multiply over strided operands: `C[b] = A[b] @ B[b]`
//! for `batch` independent pairs, where A is `m×k` and B is `k×n`, each
//! addressed through explicit row and column strides so transposed or
//! broadcast operands need no copy. Accumulation is left-to-right over `k`,
//! starting from the positive-zero bit pattern, one backend multiply and one
//! backend add per term.

use vstd::prelude::*;

use crate::scalar::{backend_ok, ScalarOp};
use crate::shape::Strides;

verus! {

/// The elements of `v` at `base`, `base + step`, ..., `len` of them: one row
/// or column of a strided operand.
pub open spec fn strided_line(v: Seq<u32>, base: int, step: int, len: nat) -> Seq<u32> {
    Seq::new(len, |l: int| v[base + l * step])
}

/// `r` is a left-to-right dot product of `a` and `b` through the backend:
/// starting from the positive-zero bit pattern, each term is one backend
/// multiply of the paired elements followed by one backend add into the
/// accumulator.
pub open spec fn dot_rel<F: Fn(ScalarOp, u32, u32) -> u32>(
    sc: F,
    a: Seq<u32>,
    b: Seq<u32>,
    r: u32,
) -> bool
    decreases a.len(),
{
    if a.len() == 0 {
        r == 0u32
    } else {
        exists|acc: u32, p: u32|
            {
                &&& call_ensures(sc, (ScalarOp::Mul, a.last(), b.last()), p)
                &&& dot_rel(sc, a.drop_last(), b.drop_last(), acc)
                &&& #[trigger] call_ensures(sc, (ScalarOp::Add, acc, p), r)
            }
    }
}

/// Entry `(bi, i, j)` of the result holds a backend dot product of row `i` of
/// `A[bi]` and column `j` of `B[bi]`.
pub open spec fn gemm_cell<F: Fn(ScalarOp, u32, u32) -> u32>(
    sc: F,
    a: Seq<u32>,
    ars: int,
    acs: int,
    b: Seq<u32>,
    brs: int,
    bcs: int,
    m: int,
    n: int,
    k: int,
    c: Seq<u32>,
    bi: int,
    i: int,
    j: int,
) -> bool {
    dot_rel(
        sc,
        strided_line(a, bi * (m * k) + i * ars, acs, k as nat),
        strided_line(b, bi * (k * n) + j * bcs, brs, k as nat),
        c[bi * (m * n) + i * n + j],
    )
}

/// `(b2, i2, j2)` enumerates strictly before `(bi, i, j)` in row-major
/// order.
pub open spec fn lex_before(b2: int, i2: int, j2: int, bi: int, i: int, j: int) -> bool {
    b2 < bi || (b2 == bi && (i2 < i || (i2 == i && j2 < j)))
}

/// Row-major enumeration order agrees with row-major rank order.
proof fn lemma_rank_lex(m: int, n: int, b2: int, i2: int, j2: int, bi: int, i: int, j: int)
    requires
        0 <= i2 < m,
        0 <= j2 < n,
        0 <= i,
        0 <= j,
        0 <= b2,
        lex_before(b2, i2, j2, bi, i, j),
    ensures
        b2 * (m * n) + i2 * n + j2 < bi * (m * n) + i * n + j,
{
    assert(b2 * (m * n) + i2 * n + j2 < bi * (m * n) + i * n + j) by (nonlinear_arith)
        requires
            0 <= i2 < m,
            0 <= j2 < n,
            0 <= i,
            0 <= j,
            0 <= b2,
            b2 < bi || (b2 == bi && (i2 < i || (i2 == i && j2 < j))),
    ;
}

/// Batched strided matrix multiply. Batch `bi` of A begins at storage offset
/// `bi * m * k` and is addressed by the given row and column strides; B
/// likewise at `bi * k * n`. The result is contiguous row-major
/// `[batch, m, n]`, and every entry is the backend dot product of its row
/// and column.
#[verifier::rlimit(30)]
pub fn gemm<F: Fn(ScalarOp, u32, u32) -> u32 + Copy>(
    a: &Vec<u32>,
    a_strides: &Strides,
    b: &Vec<u32>,
    b_strides: &Strides,
    batch: usize,
    m: usize,
    n: usize,
    k: usize,
    sc: F,
) -> (c: Vec<u32>)
    requires
        backend_ok(sc),
        a_strides@.len() == 2,
        b_strides@.len() == 2,
        (m as nat) * (k as nat) <= usize::MAX,
        (k as nat) * (n as nat) <= usize::MAX,
        batch > 0 && m > 0 && k > 0 ==> ((batch - 1) as nat) * ((m as nat) * (k as nat)) + ((m
            - 1) as nat) * (a_strides@[0] as nat) + ((k - 1) as nat) * (a_strides@[1] as nat)
            < a@.len(),
        batch > 0 && n > 0 && k > 0 ==> ((batch - 1) as nat) * ((k as nat) * (n as nat)) + ((k
            - 1) as nat) * (b_strides@[0] as nat) + ((n - 1) as nat) * (b_strides@[1] as nat)
            < b@.len(),
    ensures
        c@.len() == (batch as nat) * (m as nat) * (n as nat),
        forall|bi: int, i: int, j: int|
            0 <= bi < batch && 0 <= i < m && 0 <= j < n ==> #[trigger] gemm_cell(
                sc,
                a@,
                a_strides@[0] as int,
                a_strides@[1] as int,
                b@,
                b_strides@[0] as int,
                b_strides@[1] as int,
                m as int,
                n as int,
                k as int,
                c@,
                bi,
                i,
                j,
            ),
{
    let ars = a_strides.at(0);
    let acs = a_strides.at(1);
    let brs = b_strides.at(0);
    let bcs = b_strides.at(1);
    let mk = m * k;
    let kn = k * n;
    let a_len: usize = a.len();
    let b_len: usize = b.len();
    let mut c: Vec<u32> = Vec::new();
    proof {
        assert(0nat * (m as nat) * (n as nat) == 0) by (nonlinear_arith);
    }
    let mut bi: usize = 0;
    while bi < batch
        invariant
            backend_ok(sc),
            ars == a_strides@[0] && acs == a_strides@[1],
            brs == b_strides@[0] && bcs == b_strides@[1],
            mk == (m as nat) * (k as nat) && kn == (k as nat) * (n as nat),
            a_len == a@.len() && b_len == b@.len(),
            batch > 0 && m > 0 && k > 0 ==> ((batch - 1) as nat) * (mk as nat) + ((m - 1) as nat)
                * (ars as nat) + ((k - 1) as nat) * (acs as nat) < a@.len(),
            batch > 0 && n > 0 && k > 0 ==> ((batch - 1) as nat) * (kn as nat) + ((k - 1) as nat)
                * (brs as nat) + ((n - 1) as nat) * (bcs as nat) < b@.len(),
            bi <= batch,
            c@.len() == (bi as nat) * (m as nat) * (n as nat),
            forall|b2: int, i2: int, j2: int|
                0 <= b2 < batch && 0 <= i2 < m && 0 <= j2 < n && lex_before(
                    b2,
                    i2,
                    j2,
                    bi as int,
                    0,
                    0,
                ) ==> #[trigger] gemm_cell(
                    sc,
                    a@,
                    ars as int,
                    acs as int,
                    b@,
                    brs as int,
                    bcs as int,
                    m as int,
                    n as int,
                    k as int,
                    c@,
                    b2,
                    i2,
                    j2,
                ),
        decreases batch - bi,
    {
        let mut i: usize = 0;
        while i < m
            invariant
                backend_ok(sc),
                ars == a_strides@[0] && acs == a_strides@[1],
                brs == b_strides@[0] && bcs == b_strides@[1],
                mk == (m as nat) * (k as nat) && kn == (k as nat) * (n as nat),
                a_len == a@.len() && b_len == b@.len(),
                batch > 0 && m > 0 && k > 0 ==> ((batch - 1) as nat) * (mk as nat) + ((m
                    - 1) as nat) * (ars as nat) + ((k - 1) as nat) * (acs as nat) < a@.len(),
                batch > 0 && n > 0 && k > 0 ==> ((batch - 1) as nat) * (kn as nat) + ((k
                    - 1) as nat) * (brs as nat) + ((n - 1) as nat) * (bcs as nat) < b@.len(),
                bi < batch,
                i <= m,
                c@.len() == (bi as nat) * (m as nat) * (n as nat) + (i as nat) * (n as nat),
                forall|b2: int, i2: int, j2: int|
                    0 <= b2 < batch && 0 <= i2 < m && 0 <= j2 < n && lex_before(
                        b2,
                        i2,
                        j2,
                        bi as int,
                        i as int,
                        0,
                    ) ==> #[trigger] gemm_cell(
                        sc,
                        a@,
                        ars as int,
                        acs as int,
                        b@,
                        brs as int,
                        bcs as int,
                        m as int,
                        n as int,
                        k as int,
                        c@,
                        b2,
                        i2,
                        j2,
                    ),
            decreases m - i,
        {
            let mut j: usize = 0;
            while j < n
                invariant
                    backend_ok(sc),
                    ars == a_strides@[0] && acs == a_strides@[1],
                    brs == b_strides@[0] && bcs == b_strides@[1],
                    mk == (m as nat) * (k as nat) && kn == (k as nat) * (n as nat),
                    a_len == a@.len() && b_len == b@.len(),
                    batch > 0 && m > 0 && k > 0 ==> ((batch - 1) as nat) * (mk as nat) + ((m
                        - 1) as nat) * (ars as nat) + ((k - 1) as nat) * (acs as nat) < a@.len(),
                    batch > 0 && n > 0 && k > 0 ==> ((batch - 1) as nat) * (kn as nat) + ((k
                        - 1) as nat) * (brs as nat) + ((n - 1) as nat) * (bcs as nat) < b@.len(),
                    bi < batch,
                    i < m,
                    j <= n,
                    c@.len() == (bi as nat) * (m as nat) * (n as nat) + (i as nat) * (n as nat) + (
                    j as nat),
                    forall|b2: int, i2: int, j2: int|
                        0 <= b2 < batch && 0 <= i2 < m && 0 <= j2 < n && lex_before(
                            b2,
                            i2,
                            j2,
                            bi as int,
                            i as int,
                            j as int,
                        ) ==> #[trigger] gemm_cell(
                            sc,
                            a@,
                            ars as int,
                            acs as int,
                            b@,
                            brs as int,
                            bcs as int,
                            m as int,
                            n as int,
                            k as int,
                            c@,
                            b2,
                            i2,
                            j2,
                        ),
                decreases n - j,
            {
                let ghost la = strided_line(a@, (bi as int) * ((m as int) * (k as int)) + (
                i as int) * (ars as int), acs as int, k as nat);
                let ghost lb = strided_line(b@, (bi as int) * ((k as int) * (n as int)) + (
                j as int) * (bcs as int), brs as int, k as nat);
                let mut acc: u32 = 0;
                if k > 0 {
                proof {
                    lemma_gemm_bounds(
                        a@.len() as int,
                        batch as int,
                        m as int,
                        k as int,
                        mk as int,
                        ars as int,
                        acs as int,
                        bi as int,
                        i as int,
                    );
                    assert((n as int) * (k as int) == (k as int) * (n as int))
                        by (nonlinear_arith);
                    lemma_gemm_bounds(
                        b@.len() as int,
                        batch as int,
                        n as int,
                        k as int,
                        kn as int,
                        bcs as int,
                        brs as int,
                        bi as int,
                        j as int,
                    );
                }
                let a_base = bi * mk + i * ars;
                let b_base = bi * kn + j * bcs;
                let mut l: usize = 0;
                while l < k
                    invariant
                        backend_ok(sc),
                        a_len == a@.len() && b_len == b@.len(),
                        bi < batch,
                        i < m,
                        j < n,
                        l <= k,
                        a_base == (bi as nat) * ((m as nat) * (k as nat)) + (i as nat) * (
                        ars as nat),
                        b_base == (bi as nat) * ((k as nat) * (n as nat)) + (j as nat) * (
                        bcs as nat),
                        k > 0 ==> a_base + ((k - 1) as nat) * (acs as nat) < a@.len(),
                        k > 0 ==> b_base + ((k - 1) as nat) * (brs as nat) < b@.len(),
                        la == strided_line(a@, a_base as int, acs as int, k as nat),
                        lb == strided_line(b@, b_base as int, brs as int, k as nat),
                        dot_rel(sc, la.subrange(0, l as int), lb.subrange(0, l as int), acc),
                    decreases k - l,
                {
                    proof {
                        assert((l as nat) * (acs as nat) <= ((k - 1) as nat) * (acs as nat))
                            by (nonlinear_arith)
                            requires
                                l < k,
                        ;
                        assert((l as nat) * (brs as nat) <= ((k - 1) as nat) * (brs as nat))
                            by (nonlinear_arith)
                            requires
                                l < k,
                        ;
                    }
                    let av = a[a_base + l * acs];
                    let bv = b[b_base + l * brs];
                    let p = sc(ScalarOp::Mul, av, bv);
                    let new_acc = sc(ScalarOp::Add, acc, p);
                    proof {
                        let pre1 = la.subrange(0, l as int + 1);
                        assert(pre1.drop_last() =~= la.subrange(0, l as int));
                        assert(lb.subrange(0, l as int + 1).drop_last() =~= lb.subrange(
                            0,
                            l as int,
                        ));
                        assert(pre1.last() == av);
                        assert(lb.subrange(0, l as int + 1).last() == bv);
                    }
                    acc = new_acc;
                    l += 1;
                }
                proof {
                    assert(la.subrange(0, k as int) =~= la);
                    assert(lb.subrange(0, k as int) =~= lb);
                }
                } else {
                    proof {
                        assert(la.subrange(0, 0) =~= la);
                        assert(lb.subrange(0, 0) =~= lb);
                    }
                }
                let ghost c0 = c@;
                c.push(acc);
                proof {
                    lemma_gemm_push(
                        batch as int,
                        m as int,
                        n as int,
                        bi as int,
                        i as int,
                        j as int,
                    );
                    assert(dot_rel(sc, la, lb, acc));
                    assert(c@[(bi as int) * ((m as int) * (n as int)) + (i as int) * (n as int)
                        + (j as int)] == acc);
                    assert(gemm_cell(
                        sc,
                        a@,
                        ars as int,
                        acs as int,
                        b@,
                        brs as int,
                        bcs as int,
                        m as int,
                        n as int,
                        k as int,
                        c@,
                        bi as int,
                        i as int,
                        j as int,
                    ));
                    assert forall|b2: int, i2: int, j2: int|
                        0 <= b2 < batch && 0 <= i2 < m && 0 <= j2 < n && lex_before(
                            b2,
                            i2,
                            j2,
                            bi as int,
                            i as int,
                            j as int + 1,
                        ) implies #[trigger] gemm_cell(
                        sc,
                        a@,
                        ars as int,
                        acs as int,
                        b@,
                        brs as int,
                        bcs as int,
                        m as int,
                        n as int,
                        k as int,
                        c@,
                        b2,
                        i2,
                        j2,
                    ) by {
                        if b2 == bi && i2 == i && j2 == j {
                        } else {
                            lemma_rank_lex(
                                m as int,
                                n as int,
                                b2,
                                i2,
                                j2,
                                bi as int,
                                i as int,
                                j as int,
                            );
                            lemma_gemm_push(batch as int, m as int, n as int, b2, i2, j2);
                            assert(gemm_cell(
                                sc,
                                a@,
                                ars as int,
                                acs as int,
                                b@,
                                brs as int,
                                bcs as int,
                                m as int,
                                n as int,
                                k as int,
                                c0,
                                b2,
                                i2,
                                j2,
                            ));
                            assert(c@[b2 * ((m as int) * (n as int)) + i2 * (n as int) + j2]
                                == c0[b2 * ((m as int) * (n as int)) + i2 * (n as int) + j2]);
                        }
                    }
                }
                j += 1;
            }
            i += 1;
            proof {
                assert((bi as nat) * (m as nat) * (n as nat) + ((i - 1) as nat) * (n as nat) + (
                n as nat) == (bi as nat) * (m as nat) * (n as nat) + (i as nat) * (n as nat))
                    by (nonlinear_arith)
                    requires
                        i >= 1,
                ;
            }
        }
        bi += 1;
        proof {
            assert(((bi - 1) as nat) * (m as nat) * (n as nat) + (m as nat) * (n as nat) == (
            bi as nat) * (m as nat) * (n as nat)) by (nonlinear_arith)
                requires
                    bi >= 1,
            ;
        }
    }
    proof {
        assert forall|b2: int, i2: int, j2: int|
            0 <= b2 < batch && 0 <= i2 < m && 0 <= j2 < n implies #[trigger] gemm_cell(
            sc,
            a@,
            ars as int,
            acs as int,
            b@,
            brs as int,
            bcs as int,
            m as int,
            n as int,
            k as int,
            c@,
            b2,
            i2,
            j2,
        ) by {
            lemma_gemm_push(batch as int, m as int, n as int, b2, i2, j2);
        }
    }
    c
}

/// Bounds of one strided operand access: with the farthest reachable offset
/// inside the buffer, every in-range `(bi, i)` base is too. `rc` is the
/// per-batch block, the product of both extents.
proof fn lemma_gemm_bounds(
    len: int,
    batch: int,
    rows: int,
    cols: int,
    rc: int,
    rs: int,
    cs: int,
    bi: int,
    i: int,
)
    requires
        rs >= 0,
        cs >= 0,
        rc == rows * cols,
        batch > 0 && rows > 0 && cols > 0 ==> (batch - 1) * rc + (rows - 1) * rs + (cols - 1) * cs
            < len,
        0 <= bi < batch,
        0 <= i < rows,
    ensures
        cols > 0 ==> bi * rc + i * rs + (cols - 1) * cs < len,
{
    if cols > 0 {
        assert(bi * rc <= (batch - 1) * rc) by (nonlinear_arith)
            requires
                0 <= bi <= batch - 1,
                rc == rows * cols,
                rows > 0,
                cols > 0,
        ;
        assert(i * rs <= (rows - 1) * rs) by (nonlinear_arith)
            requires
                0 <= i <= rows - 1,
                rs >= 0,
        ;
    }
}

/// The running output length at `(bi, i, j)` is that cell's row-major rank.
proof fn lemma_gemm_push(batch: int, m: int, n: int, bi: int, i: int, j: int)
    requires
        0 <= bi < batch,
        0 <= i < m,
        0 <= j < n,
    ensures
        bi * (m * n) + i * n + j == bi * m * n + i * n + j,
        0 <= bi * (m * n) + i * n + j,
        bi * m * n + i * n + j < batch * m * n,
{
    assert(bi * (m * n) == bi * m * n) by (nonlinear_arith);
    assert(0 <= bi * m * n + i * n + j && bi * m * n + i * n + j < batch * m * n)
        by (nonlinear_arith)
        requires
            0 <= bi < batch,
            0 <= i < m,
            0 <= j < n,
    ;
}

} // verus!
