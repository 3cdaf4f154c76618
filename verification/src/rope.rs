//! Rotary positional encoding: the first `dim` channels of the last axis are
//! rotated pairwise by per-position angles computed through the batched
//! matmul primitive; the remaining channels pass through unchanged. The
//! slicing helpers here walk arbitrary strides, so views need no copy.

use vstd::prelude::*;

use crate::concat::{cat_row, col_off, concat, concat_expected, concat_ok, pairs_view};
use crate::gemm::{gemm, gemm_cell};
use crate::scalar::{backend_ok, scalar_map, unary_rel, ScalarOp};
use crate::shape::{is_canonical, prod, suffix_prod, Shape, Strides};
use crate::strided::{dot, lemma_dot_le, lemma_multi_of_rank, max_multi, multi_of, StridedIterator};
use crate::tensor::{DType, OperationError, OpKind, Tensor};

verus! {

/// A recorded rotary-encoding node: the input, the rotation width `dim`, the
/// frequency base as a binary32 bit pattern, and the position offset.
pub struct RoPE {
    pub input: Tensor,
    pub dim: usize,
    pub base: u32,
    pub offset: usize,
}

/// Sum of two multi-indices, axis by axis.
pub open spec fn multi_add(a: Seq<usize>, b: Seq<usize>) -> Seq<usize> {
    Seq::new(a.len(), |d: int| (a[d] + b[d]) as usize)
}

/// The offset contribution of a sum of multi-indices is the sum of their
/// contributions.
proof fn lemma_dot_add(a: Seq<usize>, b: Seq<usize>, st: Seq<usize>)
    requires
        a.len() == st.len(),
        b.len() == st.len(),
        forall|d: int| 0 <= d < a.len() ==> a[d] + b[d] <= usize::MAX,
    ensures
        dot(multi_add(a, b), st) == dot(a, st) + dot(b, st),
    decreases a.len(),
{
    if a.len() > 0 {
        lemma_dot_add(a.drop_last(), b.drop_last(), st.drop_last());
        assert(multi_add(a, b).drop_last() =~= multi_add(a.drop_last(), b.drop_last()));
        assert(multi_add(a, b).last() == (a.last() + b.last()) as usize);
        assert(((a.last() + b.last()) as nat) * (st.last() as nat) == (a.last() as nat) * (
        st.last() as nat) + (b.last() as nat) * (st.last() as nat)) by (nonlinear_arith)
            requires
                a.last() + b.last() <= usize::MAX,
        ;
    }
}

/// A prefix of a strided offset never exceeds the whole.
proof fn lemma_dot_prefix_le(a: Seq<usize>, st: Seq<usize>, i: int)
    requires
        a.len() == st.len(),
        0 <= i <= a.len(),
    ensures
        dot(a.subrange(0, i), st.subrange(0, i)) <= dot(a, st),
    decreases a.len() - i,
{
    if i == a.len() {
        assert(a.subrange(0, i) =~= a);
        assert(st.subrange(0, i) =~= st);
    } else {
        lemma_dot_prefix_le(a, st, i + 1);
        assert(a.subrange(0, i + 1).drop_last() =~= a.subrange(0, i));
        assert(st.subrange(0, i + 1).drop_last() =~= st.subrange(0, i));
    }
}

/// The strided offset of a multi-index, computed term by term.
pub fn exec_dot(a: &Vec<usize>, st: &Strides) -> (r: usize)
    requires
        a@.len() == st@.len(),
        dot(a@, st@) <= usize::MAX,
    ensures
        r == dot(a@, st@),
{
    let n = a.len();
    let mut acc: usize = 0;
    let mut i: usize = 0;
    while i < n
        invariant
            n == a@.len(),
            a@.len() == st@.len(),
            dot(a@, st@) <= usize::MAX,
            i <= n,
            acc == dot(a@.subrange(0, i as int), st@.subrange(0, i as int)),
        decreases n - i,
    {
        proof {
            lemma_dot_prefix_le(a@, st@, i + 1);
            assert(a@.subrange(0, i + 1).drop_last() =~= a@.subrange(0, i as int));
            assert(st@.subrange(0, i + 1).drop_last() =~= st@.subrange(0, i as int));
            assert(a@.subrange(0, i + 1).last() == a@[i as int]);
            assert(st@.subrange(0, i + 1).last() == st@[i as int]);
        }
        acc = acc + a[i] * st.at(i);
        i += 1;
    }
    proof {
        assert(a@.subrange(0, n as int) =~= a@);
        assert(st@.subrange(0, n as int) =~= st@);
    }
    acc
}

/// The extents of the region between `start` and `stop`.
pub open spec fn slice_dims(start: Seq<usize>, stop: Seq<usize>) -> Seq<usize> {
    Seq::new(start.len(), |d: int| (stop[d] - start[d]) as usize)
}

/// The expected contents of a strided slice: element `k` of the result is
/// the source element whose multi-index is the region's k-th multi-index
/// shifted by `start`, read through the source strides.
pub open spec fn slice_expected(
    src: Seq<u32>,
    st: Seq<usize>,
    start: Seq<usize>,
    stop: Seq<usize>,
) -> Seq<u32> {
    Seq::new(
        prod(slice_dims(start, stop)),
        |k: int|
            src[(dot(start, st) + dot(multi_of(slice_dims(start, stop), k as nat), st)) as int],
    )
}

/// Copies the region `start .. stop` of a strided source into a fresh
/// contiguous buffer, in row-major order over the region.
pub fn slice(src: &Vec<u32>, src_strides: &Strides, start: &Vec<usize>, stop: &Vec<usize>) -> (r:
    Vec<u32>)
    requires
        start@.len() == stop@.len(),
        start@.len() == src_strides@.len(),
        forall|d: int| 0 <= d < start@.len() ==> #[trigger] start@[d] < stop@[d],
        prod(slice_dims(start@, stop@)) <= usize::MAX,
        dot(start@, src_strides@) + dot(max_multi(slice_dims(start@, stop@)), src_strides@)
            < src@.len(),
    ensures
        r@ == slice_expected(src@, src_strides@, start@, stop@),
{
    let ghost dd = slice_dims(start@, stop@);
    let ghost expected = slice_expected(src@, src_strides@, start@, stop@);
    let rank = start.len();
    let mut dims: Vec<usize> = Vec::new();
    let mut d: usize = 0;
    while d < rank
        invariant
            dd == slice_dims(start@, stop@),
            rank == start@.len(),
            start@.len() == stop@.len(),
            forall|t: int| 0 <= t < start@.len() ==> #[trigger] start@[t] < stop@[t],
            d <= rank,
            dims@.len() == d,
            forall|t: int| 0 <= t < d ==> dims@[t] == dd[t],
        decreases rank - d,
    {
        dims.push(stop[d] - start[d]);
        d += 1;
    }
    proof {
        assert(dims@ =~= dd);
    }
    let shp = Shape::new(dims);
    let src_len: usize = src.len();
    let start_off = exec_dot(start, src_strides);
    let mut it = StridedIterator::new(&shp, src_strides, start_off);
    let n = shp.numel();
    let mut out: Vec<u32> = Vec::new();
    while out.len() < n
        invariant
            dd == slice_dims(start@, stop@),
            expected == slice_expected(src@, src_strides@, start@, stop@),
            expected.len() == prod(dd),
            n == prod(dd),
            dd.len() == src_strides@.len(),
            src@.len() <= usize::MAX,
            dot(start@, src_strides@) + dot(max_multi(dd), src_strides@) < src@.len(),
            it.wf(),
            it.dims() == dd,
            it.steps() == src_strides@,
            it.start_offset() == dot(start@, src_strides@),
            it.pos() == out@.len(),
            out@.len() <= n,
            forall|k: int| 0 <= k < out@.len() ==> out@[k] == expected[k],
        decreases n - out.len(),
    {
        proof {
            crate::strided::lemma_pos_dims(dd);
            lemma_multi_of_rank(dd, out@.len() as nat);
            assert(forall|t: int|
                0 <= t < dd.len() ==> #[trigger] multi_of(dd, out@.len() as nat)[t] <= max_multi(
                    dd,
                )[t]);
            lemma_dot_le(multi_of(dd, out@.len() as nat), max_multi(dd), src_strides@);
        }
        let o = match it.next() {
            Some(o) => o,
            None => {
                proof {
                    assert(false);
                }
                return Vec::new();
            },
        };
        out.push(src[o]);
    }
    proof {
        assert(out@ =~= expected);
    }
    out
}

/// Swapping the same two axes of a multi-index and of the strides leaves the
/// offset unchanged.
proof fn lemma_dot_swap(m: Seq<usize>, st: Seq<usize>, i: int, j: int)
    requires
        m.len() == st.len(),
        0 <= i < j < m.len(),
    ensures
        dot(m.update(i, m[j]).update(j, m[i]), st.update(i, st[j]).update(j, st[i])) == dot(m, st),
    decreases m.len(),
{
    let m2 = m.update(i, m[j]).update(j, m[i]);
    let st2 = st.update(i, st[j]).update(j, st[i]);
    if j == m.len() - 1 {
        assert(m2.drop_last() =~= m.drop_last().update(i, m.last()));
        assert(st2.drop_last() =~= st.drop_last().update(i, st.last()));
        lemma_dot_update2(m.drop_last(), st.drop_last(), i, m.last(), st.last());
        assert(m2.last() == m[i]);
        assert(st2.last() == st[i]);
    } else {
        lemma_dot_swap(m.drop_last(), st.drop_last(), i, j);
        assert(m2.drop_last() =~= m.drop_last().update(i, m[j]).update(j, m[i]));
        assert(st2.drop_last() =~= st.drop_last().update(i, st[j]).update(j, st[i]));
    }
}

/// Updating one coordinate and its stride together changes the offset by the
/// difference of the two terms.
proof fn lemma_dot_update2(m: Seq<usize>, st: Seq<usize>, ax: int, mv: usize, sv: usize)
    requires
        m.len() == st.len(),
        0 <= ax < m.len(),
    ensures
        dot(m.update(ax, mv), st.update(ax, sv)) + (m[ax] as nat) * (st[ax] as nat) == dot(m, st)
            + (mv as nat) * (sv as nat),
    decreases m.len(),
{
    if ax == m.len() - 1 {
        assert(m.update(ax, mv).drop_last() =~= m.drop_last());
        assert(st.update(ax, sv).drop_last() =~= st.drop_last());
    } else {
        lemma_dot_update2(m.drop_last(), st.drop_last(), ax, mv, sv);
        assert(m.update(ax, mv).drop_last() =~= m.drop_last().update(ax, mv));
        assert(st.update(ax, sv).drop_last() =~= st.drop_last().update(ax, sv));
    }
}

/// Rearranges a contiguous row-major tensor so that two axes are swapped:
/// the element at multi-index `q` of the swapped logical shape lands at the
/// storage offset the swapped strides give it. Swapping an axis with itself
/// returns the input unchanged; an axis out of range is reported.
pub fn transpose(src: Vec<u32>, shape: &Shape, dim1: usize, dim2: usize) -> (r: Result<
    Vec<u32>,
    OperationError,
>)
    requires
        src@.len() == prod(shape@),
        forall|d: int| 0 <= d <= shape@.len() ==> suffix_prod(shape@, d) <= usize::MAX,
    ensures
        ({
            let dims_t = shape@.update(dim1 as int, shape@[dim2 as int]).update(
                dim2 as int,
                shape@[dim1 as int],
            );
            match r {
                Ok(out) => {
                    &&& dim1 == dim2 || (dim1 < shape@.len() && dim2 < shape@.len())
                    &&& out@.len() == src@.len()
                    &&& if dim1 == dim2 {
                        out@ == src@
                    } else {
                        forall|k: nat|
                            k < prod(shape@) ==> out@[dot(
                                #[trigger] multi_of(dims_t, k),
                                canon_of(shape@).update(dim1 as int, canon_of(shape@)[dim2 as int]).update(
                                    dim2 as int,
                                    canon_of(shape@)[dim1 as int],
                                ),
                            ) as int] == src@[k as int]
                    }
                },
                Err(e) => {
                    &&& dim1 != dim2 && (dim1 >= shape@.len() || dim2 >= shape@.len())
                    &&& e == OperationError::InvalidDims
                },
            }
        }),
{
    let rank = shape.rank();
    if dim1 == dim2 {
        return Ok(src);
    }
    if rank <= dim1 || rank <= dim2 {
        return Err(OperationError::InvalidDims);
    }
    let ghost dims0 = shape@;
    let mut dims = shape.to_vec();
    let strides0 = Strides::from_shape(shape);
    proof {
        assert(shape@.subrange(0, shape@.len() as int) =~= shape@);
        lemma_canon_is(dims0, strides0@);
    }
    let mut strides = strides0.to_vec();
    let dv1 = dims[dim1];
    let dv2 = dims[dim2];
    dims.set(dim1, dv2);
    dims.set(dim2, dv1);
    let sv1 = strides[dim1];
    let sv2 = strides[dim2];
    strides.set(dim1, sv2);
    strides.set(dim2, sv1);
    let ghost dims_t = dims@;
    let ghost st_t = strides@;
    let ghost lo = if dim1 < dim2 {
        dim1 as int
    } else {
        dim2 as int
    };
    let ghost hi = if dim1 < dim2 {
        dim2 as int
    } else {
        dim1 as int
    };
    let shape_t = Shape::new(dims);
    let strides_t = Strides::new(strides);
    proof {
        assert(dims_t =~= dims0.update(lo, dims0[hi]).update(hi, dims0[lo]));
        assert(st_t =~= canon_of(dims0).update(lo, canon_of(dims0)[hi]).update(
            hi,
            canon_of(dims0)[lo],
        ));
        lemma_swap_prod(dims0, lo, hi);
        assert(prod(dims_t) == prod(dims0));
        assert(dims0.subrange(0, dims0.len() as int) =~= dims0);
        assert(suffix_prod(dims0, 0) <= usize::MAX);
        assert(prod(dims0) <= usize::MAX);
        assert(max_multi(dims_t) =~= max_multi(dims0).update(lo, max_multi(dims0)[hi]).update(
            hi,
            max_multi(dims0)[lo],
        ));
        if prod(dims0) > 0 {
            crate::strided::lemma_pos_dims(dims0);
            lemma_dot_swap(max_multi(dims0), canon_of(dims0), lo, hi);
            crate::tensor::lemma_max_offset_canonical(dims0, canon_of(dims0));
        }
    }
    let n = shape_t.numel();
    let mut result = crate::tensor::zero_vec(src.len());
    let mut it = StridedIterator::new(&shape_t, &strides_t, 0);
    let mut k: usize = 0;
    while k < n
        invariant
            n == prod(dims_t),
            prod(dims_t) == prod(dims0),
            src@.len() == prod(dims0),
            src@.len() <= usize::MAX,
            it.wf(),
            it.dims() == dims_t,
            it.steps() == st_t,
            it.start_offset() == 0,
            it.pos() == k,
            k <= n,
            result@.len() == src@.len(),
            forall|d: int| 0 <= d <= dims0.len() ==> suffix_prod(dims0, d) <= usize::MAX,
            0 <= lo < hi < dims0.len(),
            dims_t =~= dims0.update(lo, dims0[hi]).update(hi, dims0[lo]),
            st_t =~= canon_of(dims0).update(lo, canon_of(dims0)[hi]).update(
                hi,
                canon_of(dims0)[lo],
            ),
            prod(dims0) > 0 ==> dot(max_multi(dims_t), st_t) < src@.len(),
            forall|q: nat|
                q < k ==> result@[dot(#[trigger] multi_of(dims_t, q), st_t) as int] == src@[
                    q as int],
        decreases n - k,
    {
        proof {
            crate::strided::lemma_pos_dims(dims_t);
            lemma_multi_of_rank(dims_t, k as nat);
            assert(forall|t: int|
                0 <= t < dims_t.len() ==> #[trigger] multi_of(dims_t, k as nat)[t] <= max_multi(
                    dims_t,
                )[t]);
            lemma_dot_le(multi_of(dims_t, k as nat), max_multi(dims_t), st_t);
        }
        let o = match it.next() {
            Some(o) => o,
            None => {
                proof {
                    assert(false);
                }
                return Err(OperationError::InvalidDims);
            },
        };
        proof {
            assert(o == dot(multi_of(dims_t, k as nat), st_t));
        }
        let ghost result0 = result@;
        result.set(o, src[k]);
        proof {
            assert forall|q: nat| q < k + 1 implies result@[dot(
                #[trigger] multi_of(dims_t, q),
                st_t,
            ) as int] == src@[q as int] by {
                lemma_multi_of_rank(dims_t, q);
                assert(forall|t: int|
                    0 <= t < dims_t.len() ==> #[trigger] multi_of(dims_t, q)[t] <= max_multi(
                        dims_t,
                    )[t]);
                lemma_dot_le(multi_of(dims_t, q), max_multi(dims_t), st_t);
                if q < k {
                    lemma_transpose_offsets_injective(dims0, lo, hi, st_t, q, k as nat);
                    assert(result0[dot(multi_of(dims_t, q), st_t) as int] == src@[q as int]);
                }
            }
        }
        k += 1;
    }
    Ok(result)
}

/// The canonical row-major strides of a shape, as a value.
pub open spec fn canon_of(dims: Seq<usize>) -> Seq<usize> {
    Seq::new(dims.len(), |d: int| suffix_prod(dims, d + 1) as usize)
}

/// A strides value satisfying `is_canonical` is `canon_of`.
proof fn lemma_canon_is(dims: Seq<usize>, st: Seq<usize>)
    requires
        is_canonical(dims, st),
    ensures
        st =~= canon_of(dims),
{
}

/// Replacing one extent rescales the product: the product with extent `v` at
/// `ax`, times the old extent, equals the old product times `v`.
proof fn lemma_prod_update_factor(dims: Seq<usize>, ax: int, v: usize)
    requires
        0 <= ax < dims.len(),
    ensures
        prod(dims.update(ax, v)) * (dims[ax] as nat) == prod(dims) * (v as nat),
    decreases dims.len(),
{
    let d2 = dims.update(ax, v);
    if ax == dims.len() - 1 {
        assert(d2.drop_last() =~= dims.drop_last());
        let b = prod(dims.drop_last());
        assert((b * (v as nat)) * (dims[ax] as nat) == (b * (dims[ax] as nat)) * (v as nat))
            by (nonlinear_arith);
    } else {
        lemma_prod_update_factor(dims.drop_last(), ax, v);
        assert(d2.drop_last() =~= dims.drop_last().update(ax, v));
        let a = prod(dims.drop_last().update(ax, v));
        let b = prod(dims.drop_last());
        let c = dims.last() as nat;
        let w = dims[ax] as nat;
        assert((a * c) * w == (b * c) * (v as nat)) by (nonlinear_arith)
            requires
                a * w == b * (v as nat),
        ;
    }
}

/// Swapping two extents leaves the element count unchanged.
proof fn lemma_swap_prod(dims: Seq<usize>, lo: int, hi: int)
    requires
        0 <= lo < hi < dims.len(),
    ensures
        prod(dims.update(lo, dims[hi]).update(hi, dims[lo])) == prod(dims),
{
    let a = dims.update(lo, dims[hi]);
    let b = a.update(hi, dims[lo]);
    lemma_prod_update_factor(dims, lo, dims[hi]);
    lemma_prod_update_factor(a, hi, dims[lo]);
    if dims[hi] == 0 {
        crate::shape::lemma_prod_zero(dims, hi);
        crate::shape::lemma_prod_zero(b, lo);
    } else {
        assert(a[hi] == dims[hi]);
        assert(prod(b) * (dims[hi] as nat) == prod(a) * (dims[lo] as nat));
        assert(prod(a) * (dims[lo] as nat) == prod(dims) * (dims[hi] as nat));
        assert(prod(b) == prod(dims)) by (nonlinear_arith)
            requires
                prod(b) * (dims[hi] as nat) == prod(dims) * (dims[hi] as nat),
                dims[hi] as nat > 0,
        ;
    }
}

/// Distinct valid multi-indices have distinct row-major ranks.
proof fn lemma_rank_injective(dims: Seq<usize>, m1: Seq<usize>, m2: Seq<usize>)
    requires
        crate::strided::in_bounds(dims, m1),
        crate::strided::in_bounds(dims, m2),
        crate::strided::rank_of(dims, m1) == crate::strided::rank_of(dims, m2),
    ensures
        m1 =~= m2,
    decreases dims.len(),
{
    if dims.len() > 0 {
        let rf1 = crate::strided::rank_of(dims.drop_last(), m1.drop_last());
        let rf2 = crate::strided::rank_of(dims.drop_last(), m2.drop_last());
        let dl = dims.last() as nat;
        assert(rf1 == rf2 && (m1.last() as nat) == (m2.last() as nat)) by (nonlinear_arith)
            requires
                rf1 * dl + (m1.last() as nat) == rf2 * dl + (m2.last() as nat),
                (m1.last() as nat) < dl,
                (m2.last() as nat) < dl,
        ;
        lemma_rank_injective(dims.drop_last(), m1.drop_last(), m2.drop_last());
        assert(m1 =~= m1.drop_last().push(m1.last()));
        assert(m2 =~= m2.drop_last().push(m2.last()));
    } else {
        assert(m1 =~= m2);
    }
}

/// Two distinct traversal positions of a swapped view land on distinct
/// storage offsets: through the axis swap, an offset is the row-major rank
/// of a valid multi-index of the original shape, and ranks are unique.
proof fn lemma_transpose_offsets_injective(
    dims0: Seq<usize>,
    lo: int,
    hi: int,
    st_t: Seq<usize>,
    q: nat,
    k: nat,
)
    requires
        0 <= lo < hi < dims0.len(),
        forall|d: int| 0 <= d <= dims0.len() ==> suffix_prod(dims0, d) <= usize::MAX,
        st_t =~= canon_of(dims0).update(lo, canon_of(dims0)[hi]).update(hi, canon_of(dims0)[lo]),
        q < prod(dims0.update(lo, dims0[hi]).update(hi, dims0[lo])),
        k < prod(dims0.update(lo, dims0[hi]).update(hi, dims0[lo])),
        q != k,
    ensures
        dot(
            multi_of(dims0.update(lo, dims0[hi]).update(hi, dims0[lo]), q),
            st_t,
        ) != dot(multi_of(dims0.update(lo, dims0[hi]).update(hi, dims0[lo]), k), st_t),
{
    let dims_t = dims0.update(lo, dims0[hi]).update(hi, dims0[lo]);
    let mq = multi_of(dims_t, q);
    let mk = multi_of(dims_t, k);
    lemma_multi_of_rank(dims_t, q);
    lemma_multi_of_rank(dims_t, k);
    lemma_swap_back(dims0, lo, hi, st_t, mq);
    lemma_swap_back(dims0, lo, hi, st_t, mk);
    if dot(mq, st_t) == dot(mk, st_t) {
        let sq = mq.update(lo, mq[hi]).update(hi, mq[lo]);
        let sk = mk.update(lo, mk[hi]).update(hi, mk[lo]);
        lemma_rank_injective(dims0, sq, sk);
        assert(mq =~= sq.update(lo, sq[hi]).update(hi, sq[lo]));
        assert(mk =~= sk.update(lo, sk[hi]).update(hi, sk[lo]));
        assert(mq =~= mk);
        crate::strided::lemma_multi_of_rank(dims_t, q);
    }
}

/// The offset of a multi-index under swapped canonical strides is the rank
/// of the swapped multi-index under the original shape.
proof fn lemma_swap_back(dims0: Seq<usize>, lo: int, hi: int, st_t: Seq<usize>, m: Seq<usize>)
    requires
        0 <= lo < hi < dims0.len(),
        forall|d: int| 0 <= d <= dims0.len() ==> suffix_prod(dims0, d) <= usize::MAX,
        st_t =~= canon_of(dims0).update(lo, canon_of(dims0)[hi]).update(hi, canon_of(dims0)[lo]),
        crate::strided::in_bounds(dims0.update(lo, dims0[hi]).update(hi, dims0[lo]), m),
    ensures
        crate::strided::in_bounds(dims0, m.update(lo, m[hi]).update(hi, m[lo])),
        dot(m, st_t) == crate::strided::rank_of(dims0, m.update(lo, m[hi]).update(hi, m[lo])),
{
    let sm = m.update(lo, m[hi]).update(hi, m[lo]);
    lemma_dot_swap(m, st_t, lo, hi);
    assert(st_t.update(lo, st_t[hi]).update(hi, st_t[lo]) =~= canon_of(dims0));
    assert(dot(sm, canon_of(dims0)) == dot(m, st_t));
    assert(is_canonical(dims0, canon_of(dims0)));
    crate::strided::lemma_canonical_dot(dims0, sm, canon_of(dims0));
}


/// `pos` holds the binary32 positions `offset, offset + 1, ...`, each the
/// backend's conversion of its integer.
pub open spec fn positions_rel<F: Fn(ScalarOp, u32, u32) -> u32>(
    sc: F,
    offset: int,
    n: int,
    pos: Seq<u32>,
) -> bool {
    &&& pos.len() == n
    &&& forall|x: int|
        0 <= x < n ==> call_ensures(
            sc,
            (ScalarOp::IntToF32, ((offset + x) as u32), 0u32),
            #[trigger] pos[x],
        )
}

/// `out` is the i-th inverse frequency: the backend's
/// `exp(-(i) * ln(base) / half_dim)`, step by step.
pub open spec fn inv_freq_rel<F: Fn(ScalarOp, u32, u32) -> u32>(
    sc: F,
    base: u32,
    half_dim: u32,
    i: u32,
    out: u32,
) -> bool {
    exists|ti: u32, ng: u32, lb: u32, num: u32, hd: u32, q: u32|
        #![trigger call_ensures(sc, (ScalarOp::Neg, ti, 0u32), ng), call_ensures(sc, (ScalarOp::Mul, ng, lb), num), call_ensures(sc, (ScalarOp::Div, num, hd), q), call_ensures(sc, (ScalarOp::Exp, q, 0u32), out)]
        {
            &&& call_ensures(sc, (ScalarOp::IntToF32, i, 0u32), ti)
            &&& call_ensures(sc, (ScalarOp::Neg, ti, 0u32), ng)
            &&& call_ensures(sc, (ScalarOp::Ln, base, 0u32), lb)
            &&& call_ensures(sc, (ScalarOp::Mul, ng, lb), num)
            &&& call_ensures(sc, (ScalarOp::IntToF32, half_dim, 0u32), hd)
            &&& call_ensures(sc, (ScalarOp::Div, num, hd), q)
            &&& call_ensures(sc, (ScalarOp::Exp, q, 0u32), out)
        }
}

/// `fr` holds all `half_dim` inverse frequencies.
pub open spec fn inv_freqs_rel<F: Fn(ScalarOp, u32, u32) -> u32>(
    sc: F,
    base: u32,
    half_dim: int,
    fr: Seq<u32>,
) -> bool {
    &&& fr.len() == half_dim
    &&& forall|i: int|
        0 <= i < half_dim ==> inv_freq_rel(sc, base, half_dim as u32, i as u32, #[trigger] fr[i])
}

/// `out` is the `[seq_len, half_dim]` angle matrix: the outer product of the
/// positions and the inverse frequencies, computed by the batched matmul
/// primitive as a `[seq_len, 1] x [1, half_dim]` multiply.
pub open spec fn theta_rel<F: Fn(ScalarOp, u32, u32) -> u32>(
    sc: F,
    base: u32,
    offset: int,
    seq_len: int,
    half_dim: int,
    out: Seq<u32>,
) -> bool {
    &&& out.len() == seq_len * half_dim
    &&& exists|pos: Seq<u32>, fr: Seq<u32>|
        #![trigger positions_rel(sc, offset, seq_len, pos), inv_freqs_rel(sc, base, half_dim, fr)]
        {
            &&& positions_rel(sc, offset, seq_len, pos)
            &&& inv_freqs_rel(sc, base, half_dim, fr)
            &&& forall|i: int, j: int|
                0 <= i < seq_len && 0 <= j < half_dim ==> #[trigger] gemm_cell(
                    sc,
                    pos,
                    1,
                    1,
                    fr,
                    half_dim,
                    1,
                    seq_len,
                    half_dim,
                    1,
                    out,
                    0,
                    i,
                    j,
                )
        }
}

/// Computes the `[seq_len, half_dim]` angle matrix
/// `theta[p][i] = (p + offset) * inv_freq[i]` by an outer-product matmul,
/// reusing the batched strided kernel rather than a bespoke broadcast loop.
pub fn compute_theta<F: Fn(ScalarOp, u32, u32) -> u32 + Copy>(
    dim: usize,
    seq_len: usize,
    base: u32,
    offset: usize,
    sc: F,
) -> (r: Vec<u32>)
    requires
        backend_ok(sc),
        offset + seq_len <= u32::MAX,
        dim <= u32::MAX,
    ensures
        theta_rel(sc, base, offset as int, seq_len as int, (dim / 2) as int, r@),
{
    let half_dim = dim / 2;
    let mut positions: Vec<u32> = Vec::new();
    let mut x: usize = 0;
    while x < seq_len
        invariant
            backend_ok(sc),
            offset + seq_len <= u32::MAX,
            x <= seq_len,
            positions@.len() == x,
            forall|t: int|
                0 <= t < x ==> call_ensures(
                    sc,
                    (ScalarOp::IntToF32, ((offset + t) as u32), 0u32),
                    #[trigger] positions@[t],
                ),
        decreases seq_len - x,
    {
        let p = sc(ScalarOp::IntToF32, (offset + x) as u32, 0);
        positions.push(p);
        x += 1;
    }
    let lb = sc(ScalarOp::Ln, base, 0);
    let hd_f = sc(ScalarOp::IntToF32, half_dim as u32, 0);
    let mut inv_freqs: Vec<u32> = Vec::new();
    let mut i: usize = 0;
    while i < half_dim
        invariant
            backend_ok(sc),
            half_dim <= u32::MAX,
            call_ensures(sc, (ScalarOp::Ln, base, 0u32), lb),
            call_ensures(sc, (ScalarOp::IntToF32, half_dim as u32, 0u32), hd_f),
            i <= half_dim,
            inv_freqs@.len() == i,
            forall|t: int|
                0 <= t < i ==> inv_freq_rel(
                    sc,
                    base,
                    half_dim as u32,
                    t as u32,
                    #[trigger] inv_freqs@[t],
                ),
        decreases half_dim - i,
    {
        let ti = sc(ScalarOp::IntToF32, i as u32, 0);
        let ng = sc(ScalarOp::Neg, ti, 0);
        let num = sc(ScalarOp::Mul, ng, lb);
        let q = sc(ScalarOp::Div, num, hd_f);
        let f = sc(ScalarOp::Exp, q, 0);
        inv_freqs.push(f);
        i += 1;
    }
    let mut pdims: Vec<usize> = Vec::new();
    pdims.push(seq_len);
    pdims.push(1);
    let p_shape = Shape::new(pdims);
    let mut idims: Vec<usize> = Vec::new();
    idims.push(1);
    idims.push(half_dim);
    let i_shape = Shape::new(idims);
    proof {
        lemma_rank2_values(p_shape@);
        lemma_rank2_values(i_shape@);
    }
    let p_strides = Strides::from_shape(&p_shape);
    let i_strides = Strides::from_shape(&i_shape);
    proof {
        assert(p_strides@[0] == suffix_prod(p_shape@, 1) && p_strides@[1] == suffix_prod(
            p_shape@,
            2,
        ));
        assert(i_strides@[0] == suffix_prod(i_shape@, 1) && i_strides@[1] == suffix_prod(
            i_shape@,
            2,
        ));
        lemma_rank2_values(p_shape@);
        lemma_rank2_values(i_shape@);
        assert(p_strides@[0] == 1 && p_strides@[1] == 1);
        assert(i_strides@[0] == half_dim && i_strides@[1] == 1);
        assert((seq_len as nat) * 1nat == seq_len as nat) by (nonlinear_arith);
        assert(1nat * (half_dim as nat) == half_dim as nat) by (nonlinear_arith);
        if seq_len > 0 {
            assert(0nat * ((seq_len as nat) * 1nat) + ((seq_len - 1) as nat) * 1nat + 0nat * 1nat
                < seq_len as nat) by (nonlinear_arith)
                requires
                    seq_len > 0,
            ;
        }
        if half_dim > 0 {
            assert(0nat * (1nat * (half_dim as nat)) + 0nat * (half_dim as nat) + ((half_dim
                - 1) as nat) * 1nat < half_dim as nat) by (nonlinear_arith)
                requires
                    half_dim > 0,
            ;
        }
    }
    let theta = gemm(&positions, &p_strides, &inv_freqs, &i_strides, 1, seq_len, half_dim, 1, sc);
    proof {
        assert(1nat * (seq_len as nat) * (half_dim as nat) == (seq_len as nat) * (half_dim as nat))
            by (nonlinear_arith);
        assert(positions_rel(sc, offset as int, seq_len as int, positions@));
        assert(inv_freqs_rel(sc, base, half_dim as int, inv_freqs@));
    }
    theta
}

/// The suffix products of a two-axis shape, written out.
pub proof fn lemma_rank2_values(dims: Seq<usize>)
    requires
        dims.len() == 2,
    ensures
        prod(dims) == (dims[0] as nat) * (dims[1] as nat),
        suffix_prod(dims, 0) == (dims[0] as nat) * (dims[1] as nat),
        suffix_prod(dims, 1) == dims[1] as nat,
        suffix_prod(dims, 2) == 1,
{
    assert(dims.subrange(2, 2) =~= Seq::<usize>::empty());
    assert(prod(Seq::<usize>::empty()) == 1);
    let s1 = dims.subrange(1, 2);
    assert(s1.drop_last() =~= Seq::<usize>::empty());
    assert(s1.last() == dims[1]);
    assert(prod(s1) == 1nat * (dims[1] as nat));
    assert(1nat * (dims[1] as nat) == dims[1] as nat) by (nonlinear_arith);
    let s0 = dims.subrange(0, 2);
    assert(s0 =~= dims);
    assert(prod(dims) == prod(dims.drop_last()) * (dims[1] as nat));
    assert(dims.drop_last() =~= dims.subrange(0, 1));
    let sfront = dims.subrange(0, 1);
    assert(sfront.drop_last() =~= Seq::<usize>::empty());
    assert(prod(sfront) == 1nat * (dims[0] as nat));
    assert(1nat * (dims[0] as nat) == dims[0] as nat) by (nonlinear_arith);
}


/// `out` is one rotated element: `op` applied to the two backend products
/// `m1a * m1b` and `m2a * m2b`.
pub open spec fn rope_comb_rel<F: Fn(ScalarOp, u32, u32) -> u32>(
    sc: F,
    m1a: u32,
    m1b: u32,
    m2a: u32,
    m2b: u32,
    op: ScalarOp,
    out: u32,
) -> bool {
    exists|p1: u32, p2: u32|
        #![trigger call_ensures(sc, (ScalarOp::Mul, m1a, m1b), p1), call_ensures(sc, (ScalarOp::Mul, m2a, m2b), p2)]
        {
            &&& call_ensures(sc, (ScalarOp::Mul, m1a, m1b), p1)
            &&& call_ensures(sc, (ScalarOp::Mul, m2a, m2b), p2)
            &&& call_ensures(sc, (op, p1, p2), out)
        }
}

/// `out` combines the half-channel slices `a` and `b` with the angle tables
/// `c1` and `c2`, which broadcast cyclically across the batch and head axes:
/// `out[i] = op(a[i] * c1[i mod len], b[i] * c2[i mod len])`.
pub open spec fn rope_rows_rel<F: Fn(ScalarOp, u32, u32) -> u32>(
    sc: F,
    a: Seq<u32>,
    b: Seq<u32>,
    c1: Seq<u32>,
    c2: Seq<u32>,
    op: ScalarOp,
    out: Seq<u32>,
) -> bool {
    &&& out.len() == a.len()
    &&& b.len() == a.len()
    &&& c2.len() == c1.len()
    &&& forall|i: int|
        0 <= i < a.len() ==> rope_comb_rel(
            sc,
            a[i],
            c1[i % (c1.len() as int)],
            b[i],
            c2[i % (c1.len() as int)],
            op,
            #[trigger] out[i],
        )
}

/// Combines two equal-length element buffers with two cyclically broadcast
/// angle tables, one multiply per operand and one `op` per element.
fn rope_combine<F: Fn(ScalarOp, u32, u32) -> u32 + Copy>(
    sc: F,
    a: &Vec<u32>,
    b: &Vec<u32>,
    c1: &Vec<u32>,
    c2: &Vec<u32>,
    op: ScalarOp,
) -> (r: Vec<u32>)
    requires
        backend_ok(sc),
        a@.len() == b@.len(),
        c1@.len() == c2@.len(),
        c1@.len() > 0,
    ensures
        rope_rows_rel(sc, a@, b@, c1@, c2@, op, r@),
{
    let n = a.len();
    let cl = c1.len();
    let mut out: Vec<u32> = Vec::new();
    let mut i: usize = 0;
    while i < n
        invariant
            backend_ok(sc),
            n == a@.len(),
            b@.len() == n,
            cl == c1@.len(),
            c2@.len() == cl,
            cl > 0,
            i <= n,
            out@.len() == i,
            forall|t: int|
                0 <= t < i ==> rope_comb_rel(
                    sc,
                    a@[t],
                    c1@[t % (cl as int)],
                    b@[t],
                    c2@[t % (cl as int)],
                    op,
                    #[trigger] out@[t],
                ),
        decreases n - i,
    {
        let p1 = sc(ScalarOp::Mul, a[i], c1[i % cl]);
        let p2 = sc(ScalarOp::Mul, b[i], c2[i % cl]);
        let v = sc(op, p1, p2);
        out.push(v);
        i += 1;
    }
    out
}

/// The two rotated half-slices of a rotary encoding, and the pass-through
/// tail where the rotation width is below the head width: everything
/// `rope` feeds to the final concatenation.
pub open spec fn rope_rel<F: Fn(ScalarOp, u32, u32) -> u32>(
    sc: F,
    src: Seq<u32>,
    dims: Seq<usize>,
    dim: int,
    base: u32,
    offset: int,
    out: Seq<u32>,
) -> bool {
    let b = dims[0];
    let h = dims[1];
    let s = dims[2];
    let hd = dims[3];
    let half = (dim / 2) as usize;
    let st = canon_of(dims);
    let x1 = slice_expected(
        src,
        st,
        seq![0usize, 0usize, 0usize, 0usize],
        seq![b, h, s, half],
    );
    let x2 = slice_expected(
        src,
        st,
        seq![0usize, 0usize, 0usize, half],
        seq![b, h, s, dim as usize],
    );
    let sub_dims = seq![b, h, s, half];
    exists|theta: Seq<u32>, sinv: Seq<u32>, cosv: Seq<u32>, r1: Seq<u32>, r2: Seq<u32>|
        #![trigger theta_rel(sc, base, offset, s as int, dim / 2, theta), unary_rel(sc, ScalarOp::Sin, theta, sinv), unary_rel(sc, ScalarOp::Cos, theta, cosv), rope_rows_rel(sc, x1, x2, cosv, sinv, ScalarOp::Sub, r1), rope_rows_rel(sc, x1, x2, sinv, cosv, ScalarOp::Add, r2)]
        {
            &&& theta_rel(sc, base, offset, s as int, dim / 2, theta)
            &&& unary_rel(sc, ScalarOp::Sin, theta, sinv)
            &&& unary_rel(sc, ScalarOp::Cos, theta, cosv)
            &&& rope_rows_rel(sc, x1, x2, cosv, sinv, ScalarOp::Sub, r1)
            &&& rope_rows_rel(sc, x1, x2, sinv, cosv, ScalarOp::Add, r2)
            &&& out == concat_expected(
                if dim < hd {
                    seq![
                        (sub_dims, r1),
                        (sub_dims, r2),
                        (
                            seq![b, h, s, (hd - dim) as usize],
                            slice_expected(
                                src,
                                st,
                                seq![0usize, 0usize, 0usize, dim as usize],
                                seq![b, h, s, hd],
                            ),
                        ),
                    ]
                } else {
                    seq![(sub_dims, r1), (sub_dims, r2)]
                },
                3,
                dims,
            )
        }
}

/// Packaging of the rotary-encoding stages into `rope_rel`: the given angle
/// matrix, its sines and cosines, and the two rotated halves witness the
/// relation.
proof fn lemma_rope_rel_intro<F: Fn(ScalarOp, u32, u32) -> u32>(
    sc: F,
    src: Seq<u32>,
    dims: Seq<usize>,
    dim: int,
    base: u32,
    offset: int,
    theta: Seq<u32>,
    sinv: Seq<u32>,
    cosv: Seq<u32>,
    r1: Seq<u32>,
    r2: Seq<u32>,
    out: Seq<u32>,
)
    requires
        ({
            let b = dims[0];
            let h = dims[1];
            let s = dims[2];
            let hd = dims[3];
            let half = (dim / 2) as usize;
            let st = canon_of(dims);
            let x1 = slice_expected(
                src,
                st,
                seq![0usize, 0usize, 0usize, 0usize],
                seq![b, h, s, half],
            );
            let x2 = slice_expected(
                src,
                st,
                seq![0usize, 0usize, 0usize, half],
                seq![b, h, s, dim as usize],
            );
            let sub_dims = seq![b, h, s, half];
            &&& theta_rel(sc, base, offset, s as int, dim / 2, theta)
            &&& unary_rel(sc, ScalarOp::Sin, theta, sinv)
            &&& unary_rel(sc, ScalarOp::Cos, theta, cosv)
            &&& rope_rows_rel(sc, x1, x2, cosv, sinv, ScalarOp::Sub, r1)
            &&& rope_rows_rel(sc, x1, x2, sinv, cosv, ScalarOp::Add, r2)
            &&& out == concat_expected(
                if dim < hd {
                    seq![
                        (sub_dims, r1),
                        (sub_dims, r2),
                        (
                            seq![b, h, s, (hd - dim) as usize],
                            slice_expected(
                                src,
                                st,
                                seq![0usize, 0usize, 0usize, dim as usize],
                                seq![b, h, s, hd],
                            ),
                        ),
                    ]
                } else {
                    seq![(sub_dims, r1), (sub_dims, r2)]
                },
                3,
                dims,
            )
        }),
    ensures
        rope_rel(sc, src, dims, dim, base, offset, out),
{
}

/// A start-to-stop box inside a shape reaches only offsets below the element
/// count under the canonical strides.
proof fn lemma_slice_in_bounds(dims: Seq<usize>, start: Seq<usize>, stop: Seq<usize>)
    requires
        start.len() == dims.len(),
        stop.len() == dims.len(),
        forall|d: int| 0 <= d < dims.len() ==> #[trigger] start[d] < stop[d],
        forall|d: int| 0 <= d < dims.len() ==> #[trigger] stop[d] <= dims[d],
        forall|d: int| 0 <= d <= dims.len() ==> suffix_prod(dims, d) <= usize::MAX,
    ensures
        dot(start, canon_of(dims)) + dot(max_multi(slice_dims(start, stop)), canon_of(dims))
            < prod(dims),
{
    let st = canon_of(dims);
    let sd = slice_dims(start, stop);
    assert(is_canonical(dims, st));
    let summed = multi_add(start, max_multi(sd));
    lemma_dot_add(start, max_multi(sd), st);
    assert(forall|d: int| 0 <= d < dims.len() ==> #[trigger] summed[d] <= max_multi(dims)[d]);
    lemma_dot_le(summed, max_multi(dims), st);
    assert forall|d: int| 0 <= d < dims.len() implies #[trigger] dims[d] >= 1 by {
        assert(start[d] < stop[d]);
        assert(stop[d] <= dims[d]);
    }
    crate::shape::lemma_prod_pos(dims);
    crate::tensor::lemma_max_offset_canonical(dims, st);
}

/// Rotates the first `dim` channels of the last axis of a contiguous
/// `[batch, heads, seq_len, head_dim]` buffer, passing the remaining
/// channels through, and returns the concatenated result.
#[verifier::rlimit(60)]
pub fn rope<F: Fn(ScalarOp, u32, u32) -> u32 + Copy>(
    src: Vec<u32>,
    shape: &Shape,
    dim: usize,
    base: u32,
    offset: usize,
    sc: F,
) -> (r: Vec<u32>)
    requires
        backend_ok(sc),
        shape@.len() == 4,
        forall|d: int| 0 <= d < 4 ==> #[trigger] shape@[d] >= 1,
        dim % 2 == 0,
        2 <= dim <= shape@[3],
        src@.len() == prod(shape@),
        forall|d: int| 0 <= d <= 4 ==> suffix_prod(shape@, d) <= usize::MAX,
        offset + shape@[2] <= u32::MAX,
        dim <= u32::MAX,
    ensures
        rope_rel(sc, src@, shape@, dim as int, base, offset as int, r@),
{
    let ghost dims = shape@;
    proof {
        assert(dims.subrange(0, dims.len() as int) =~= dims);
        assert(suffix_prod(dims, 0) <= usize::MAX);
        assert(prod(dims) <= usize::MAX);
    }
    let b = shape.at(0);
    let h = shape.at(1);
    let s = shape.at(2);
    let hd = shape.at(3);
    let half = dim / 2;
    let theta = compute_theta(dim, s, base, offset, sc);
    let sinv = scalar_map(sc, ScalarOp::Sin, &theta);
    let cosv = scalar_map(sc, ScalarOp::Cos, &theta);
    let src_strides = Strides::from_shape(shape);
    proof {
        lemma_canon_is(dims, src_strides@);
    }
    let mut start0: Vec<usize> = Vec::new();
    start0.push(0);
    start0.push(0);
    start0.push(0);
    start0.push(0);
    let mut stop1: Vec<usize> = Vec::new();
    stop1.push(b);
    stop1.push(h);
    stop1.push(s);
    stop1.push(half);
    proof {
        assert(start0@ =~= seq![0usize, 0usize, 0usize, 0usize]);
        assert(stop1@ =~= seq![b, h, s, half]);
        lemma_slice_in_bounds(dims, start0@, stop1@);
        lemma_slice_prod_bound(dims, start0@, stop1@);
    }
    let x1 = slice(&src, &src_strides, &start0, &stop1);
    let mut start2: Vec<usize> = Vec::new();
    start2.push(0);
    start2.push(0);
    start2.push(0);
    start2.push(half);
    let mut stop2: Vec<usize> = Vec::new();
    stop2.push(b);
    stop2.push(h);
    stop2.push(s);
    stop2.push(dim);
    proof {
        assert(start2@ =~= seq![0usize, 0usize, 0usize, half]);
        assert(stop2@ =~= seq![b, h, s, dim]);
        lemma_slice_in_bounds(dims, start2@, stop2@);
        lemma_slice_prod_bound(dims, start2@, stop2@);
        assert(slice_dims(start2@, stop2@) =~= slice_dims(start0@, stop1@));
    }
    let x2 = slice(&src, &src_strides, &start2, &stop2);
    proof {
        assert(x1@.len() == x2@.len());
        assert((s as int) * ((dim / 2) as int) > 0) by (nonlinear_arith)
            requires
                s >= 1,
                dim >= 2,
        ;
    }
    let r1 = rope_combine(sc, &x1, &x2, &cosv, &sinv, ScalarOp::Sub);
    let r2 = rope_combine(sc, &x1, &x2, &sinv, &cosv, ScalarOp::Add);
    let ghost r1s = r1@;
    let ghost r2s = r2@;
    let ghost x3s: Seq<u32> = Seq::empty();
    let mut sub_dims: Vec<usize> = Vec::new();
    sub_dims.push(b);
    sub_dims.push(h);
    sub_dims.push(s);
    sub_dims.push(half);
    let sub_shape = Shape::new(sub_dims);
    let mut pairs: Vec<(Shape, Vec<u32>)> = Vec::new();
    let ghost sds = seq![b, h, s, half];
    proof {
        assert(sub_shape@ =~= sds);
        assert(slice_dims(start0@, stop1@) =~= sds);
    }
    pairs.push((sub_shape, r1));
    let mut sub_dims2: Vec<usize> = Vec::new();
    sub_dims2.push(b);
    sub_dims2.push(h);
    sub_dims2.push(s);
    sub_dims2.push(half);
    let sub_shape2 = Shape::new(sub_dims2);
    proof {
        assert(sub_shape2@ =~= sds);
    }
    pairs.push((sub_shape2, r2));
    if dim < hd {
        let mut start3: Vec<usize> = Vec::new();
        start3.push(0);
        start3.push(0);
        start3.push(0);
        start3.push(dim);
        let mut stop3: Vec<usize> = Vec::new();
        stop3.push(b);
        stop3.push(h);
        stop3.push(s);
        stop3.push(hd);
        proof {
            assert(start3@ =~= seq![0usize, 0usize, 0usize, dim]);
            assert(stop3@ =~= seq![b, h, s, hd]);
            lemma_slice_in_bounds(dims, start3@, stop3@);
            lemma_slice_prod_bound(dims, start3@, stop3@);
        }
        let r3 = slice(&src, &src_strides, &start3, &stop3);
        proof {
            x3s = r3@;
        }
        let mut tail_dims: Vec<usize> = Vec::new();
        tail_dims.push(b);
        tail_dims.push(h);
        tail_dims.push(s);
        tail_dims.push(hd - dim);
        let tail_shape = Shape::new(tail_dims);
        proof {
            assert(tail_shape@ =~= seq![b, h, s, (hd - dim) as usize]);
            assert(slice_dims(start3@, stop3@) =~= tail_shape@);
        }
        pairs.push((tail_shape, r3));
    }
    let numel = shape.numel();
    let mut dst = crate::tensor::zero_vec(numel);
    proof {
        lemma_rope_concat_ok(dims, dim as int, pairs_view(pairs@), sds);
        assert(prod(dims.subrange(0, 3)) <= usize::MAX) by {
            crate::shape::lemma_prod_split(dims, 3);
            crate::shape::lemma_prod_pos(dims.subrange(3, 4));
            assert(dims.subrange(3, 4)[0] == dims[3]);
            assert(prod(dims.subrange(0, 3)) * prod(dims.subrange(3, 4)) == prod(dims));
            assert(prod(dims.subrange(0, 3)) <= prod(dims)) by (nonlinear_arith)
                requires
                    prod(dims.subrange(0, 3)) * prod(dims.subrange(3, 4)) == prod(dims),
                    prod(dims.subrange(3, 4)) >= 1,
            ;
        };
    }
    let cres = concat(&pairs, 3, shape, &mut dst);
    proof {
        assert(cres is Ok);
        let st = canon_of(dims);
        let x1s = slice_expected(
            src@,
            st,
            seq![0usize, 0usize, 0usize, 0usize],
            seq![b, h, s, half],
        );
        let x2s = slice_expected(src@, st, seq![0usize, 0usize, 0usize, half], seq![b, h, s, dim]);
        assert(x1@ == x1s);
        assert(x2@ == x2s);
        assert(theta_rel(sc, base, offset as int, s as int, (dim / 2) as int, theta@));
        assert(unary_rel(sc, ScalarOp::Sin, theta@, sinv@));
        assert(unary_rel(sc, ScalarOp::Cos, theta@, cosv@));
        assert(rope_rows_rel(sc, x1s, x2s, cosv@, sinv@, ScalarOp::Sub, r1s));
        assert(rope_rows_rel(sc, x1s, x2s, sinv@, cosv@, ScalarOp::Add, r2s));
        if dim < hd {
            assert(pairs_view(pairs@) =~= seq![
                (sds, r1s),
                (sds, r2s),
                (
                    seq![b, h, s, (hd - dim) as usize],
                    slice_expected(
                        src@,
                        st,
                        seq![0usize, 0usize, 0usize, dim],
                        seq![b, h, s, hd],
                    ),
                ),
            ]);
        } else {
            assert(pairs_view(pairs@) =~= seq![(sds, r1s), (sds, r2s)]);
        }
        lemma_rope_rel_intro(
            sc,
            src@,
            dims,
            dim as int,
            base,
            offset as int,
            theta@,
            sinv@,
            cosv@,
            r1s,
            r2s,
            dst@,
        );
    }
    dst
}

/// The element count of a start-to-stop box never exceeds the shape's.
proof fn lemma_slice_prod_bound(dims: Seq<usize>, start: Seq<usize>, stop: Seq<usize>)
    requires
        start.len() == dims.len(),
        stop.len() == dims.len(),
        forall|d: int| 0 <= d < dims.len() ==> #[trigger] start[d] < stop[d],
        forall|d: int| 0 <= d < dims.len() ==> #[trigger] stop[d] <= dims[d],
    ensures
        prod(slice_dims(start, stop)) <= prod(dims),
    decreases dims.len(),
{
    if dims.len() > 0 {
        lemma_slice_prod_bound(dims.drop_last(), start.drop_last(), stop.drop_last());
        assert(slice_dims(start, stop).drop_last() =~= slice_dims(
            start.drop_last(),
            stop.drop_last(),
        ));
        let a = prod(slice_dims(start.drop_last(), stop.drop_last()));
        let bb = prod(dims.drop_last());
        assert(a * (slice_dims(start, stop).last() as nat) <= bb * (dims.last() as nat))
            by (nonlinear_arith)
            requires
                a <= bb,
                (slice_dims(start, stop).last() as nat) <= (dims.last() as nat),
        ;
    }
}

/// The three slices `rope` concatenates meet the concatenation shape
/// conditions against the full shape.
proof fn lemma_rope_concat_ok(
    dims: Seq<usize>,
    dim: int,
    ins: Seq<(Seq<usize>, Seq<u32>)>,
    sds: Seq<usize>,
)
    requires
        dims.len() == 4,
        forall|d: int| 0 <= d < 4 ==> #[trigger] dims[d] >= 1,
        2 <= dim <= dims[3],
        dim % 2 == 0,
        sds =~= seq![dims[0], dims[1], dims[2], ((dim / 2) as usize)],
        if dim < dims[3] {
            &&& ins.len() == 3
            &&& ins[2].0 =~= seq![dims[0], dims[1], dims[2], ((dims[3] - dim) as usize)]
            &&& ins[2].1.len() == prod(ins[2].0)
        } else {
            ins.len() == 2
        },
        ins[0].0 =~= sds,
        ins[1].0 =~= sds,
        ins[0].1.len() == prod(sds),
        ins[1].1.len() == prod(sds),
    ensures
        concat_ok(ins, 3, dims),
{
    assert(prod(Seq::<usize>::empty()) == 1);
    assert(suffix_prod(sds, 4) == 1) by {
        assert(sds.subrange(4, 4) =~= Seq::<usize>::empty());
    };
    assert(cat_row(sds, 3) == (sds[3] as nat) * 1nat) by {
        assert(sds.subrange(3, 4).drop_last() =~= Seq::<usize>::empty());
        assert(sds.subrange(3, 4).last() == sds[3]);
    };
    assert((sds[3] as nat) * 1nat == sds[3] as nat) by (nonlinear_arith);
    assert(cat_row(dims, 3) == (dims[3] as nat) * 1nat) by {
        assert(dims.subrange(3, 4).drop_last() =~= Seq::<usize>::empty());
        assert(dims.subrange(3, 4).last() == dims[3]);
    };
    assert((dims[3] as nat) * 1nat == dims[3] as nat) by (nonlinear_arith);
    if dim < dims[3] {
        let tl = ins[2].0;
        assert(cat_row(tl, 3) == (tl[3] as nat) * 1nat) by {
            assert(tl.subrange(3, 4).drop_last() =~= Seq::<usize>::empty());
            assert(tl.subrange(3, 4).last() == tl[3]);
        };
        assert((tl[3] as nat) * 1nat == tl[3] as nat) by (nonlinear_arith);
        assert(col_off(ins, 3, 3) == col_off(ins, 3, 2) + cat_row(ins[2].0, 3));
        assert(col_off(ins, 3, 2) == col_off(ins, 3, 1) + cat_row(ins[1].0, 3));
        assert(col_off(ins, 3, 1) == col_off(ins, 3, 0) + cat_row(ins[0].0, 3));
        assert(col_off(ins, 3, 3) == cat_row(dims, 3));
    } else {
        assert(col_off(ins, 3, 2) == col_off(ins, 3, 1) + cat_row(ins[1].0, 3));
        assert(col_off(ins, 3, 1) == col_off(ins, 3, 0) + cat_row(ins[0].0, 3));
        assert(col_off(ins, 3, 2) == cat_row(dims, 3));
    }
}

/// Applies rotary positional encoding to a binary32 input tensor; any other
/// input dtype is an explicit unimplemented condition.
pub fn cpu_rope<F: Fn(ScalarOp, u32, u32) -> u32 + Copy>(op: RoPE, dst: Tensor, sc: F) -> (r:
    Result<Tensor, OperationError>)
    requires
        backend_ok(sc),
        op.input.wf(),
        op.input.dt_spec() is F32 ==> {
            &&& op.input.dims().len() == 4
            &&& forall|d: int| 0 <= d < 4 ==> #[trigger] op.input.dims()[d] >= 1
            &&& op.dim % 2 == 0
            &&& 2 <= op.dim <= op.input.dims()[3]
            &&& forall|d: int|
                0 <= d <= 4 ==> suffix_prod(op.input.dims(), d) <= usize::MAX
            &&& op.offset + op.input.dims()[2] <= u32::MAX
            &&& op.dim <= u32::MAX
            &&& dst.dims() == op.input.dims()
        },
    ensures
        match r {
            Ok(out) => {
                &&& op.input.dt_spec() is F32
                &&& out.wf()
                &&& out.is_flat()
                &&& out.dt_spec() == DType::F32
                &&& out.dims() == op.input.dims()
                &&& rope_rel(
                    sc,
                    op.input.elems(),
                    op.input.dims(),
                    op.dim as int,
                    op.base,
                    op.offset as int,
                    out.store(),
                )
            },
            Err(e) => {
                &&& !(op.input.dt_spec() is F32)
                &&& e == OperationError::Unimplemented(OpKind::RoPE)
            },
        },
{
    match op.input.dt() {
        DType::F32 => {
            let src = op.input.to_elements();
            let shp = op.input.shape();
            let result = rope(src, shp, op.dim, op.base, op.offset, sc);
            let out_shape = op.input.shape().clone();
            proof {
                assert(result@.len() == prod(op.input.dims())) by {
                    assert(rope_rel(
                        sc,
                        op.input.elems(),
                        op.input.dims(),
                        op.dim as int,
                        op.base,
                        op.offset as int,
                        result@,
                    ));
                };
            }
            Ok(Tensor::new_contiguous(DType::F32, out_shape, result))
        },
        _ => Err(OperationError::Unimplemented(OpKind::RoPE)),
    }
}

} // verus!
