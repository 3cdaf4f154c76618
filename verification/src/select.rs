//! Index-select (gather) along an arbitrary axis: the destination's extent on
//! that axis is the index count, and each destination row is pulled from the
//! source row the corresponding index names. Block-quantized sources are
//! dequantized in full first, then gathered.

use vstd::prelude::*;

use crate::scalar::{backend_ok, ScalarOp};
use crate::shape::{is_canonical, lemma_prod_head, lemma_prod_split, prod, suffix_prod};
use crate::tensor::{dequant_all_rel, DType, OperationError, Tensor};

verus! {

/// A recorded gather node: source, 1-D index tensor, and the axis.
pub struct IndexSelect {
    pub src: Tensor,
    pub indices: Tensor,
    pub dim: usize,
}

/// The expected destination of a gather: position `(l, i, j)` — outer block
/// `l`, selected row `i`, in-row position `j` — holds the source element at
/// outer block `l`, row `idxs[i]`, position `j`. Index values are the raw
/// stored words, meaningful for the non-negative 32-bit indices the
/// operation demands.
pub open spec fn sel_expected(
    src: Seq<u32>,
    src_dims: Seq<usize>,
    dim: int,
    idxs: Seq<u32>,
) -> Seq<u32> {
    let right = suffix_prod(src_dims, dim + 1) as int;
    let n = idxs.len() as int;
    let sdim = src_dims[dim] as int;
    Seq::new(
        (prod(src_dims.subrange(0, dim)) * idxs.len() * suffix_prod(src_dims, dim + 1)) as nat,
        |p: int|
            {
                let l = p / (n * right);
                let rem = p % (n * right);
                let i = rem / right;
                let j = rem % right;
                src[l * (sdim * right) + (idxs[i] as int) * right + j]
            },
    )
}

/// The bounds a gather demands: a valid axis and every index inside the
/// source's extent on that axis.
pub open spec fn sel_ok(src_dims: Seq<usize>, dim: int, idxs: Seq<u32>) -> bool {
    &&& 0 <= dim < src_dims.len()
    &&& forall|i: int| 0 <= i < idxs.len() ==> (#[trigger] idxs[i] as nat) < src_dims[dim]
}

/// Destination position `(l, i, j)` of the expected gather holds the source
/// element at `(l, idxs[i], j)`.
pub proof fn lemma_sel_cell(
    src: Seq<u32>,
    src_dims: Seq<usize>,
    dim: int,
    idxs: Seq<u32>,
    l: int,
    i: int,
    j: int,
)
    requires
        sel_ok(src_dims, dim, idxs),
        src.len() == prod(src_dims),
        0 <= l < prod(src_dims.subrange(0, dim)),
        0 <= i < idxs.len(),
        0 <= j < suffix_prod(src_dims, dim + 1),
    ensures
        ({
            let right = suffix_prod(src_dims, dim + 1) as int;
            let n = idxs.len() as int;
            let sdim = src_dims[dim] as int;
            let pos = l * (n * right) + i * right + j;
            &&& 0 <= pos < sel_expected(src, src_dims, dim, idxs).len()
            &&& 0 <= l * (sdim * right) + (idxs[i] as int) * right + j < src.len()
            &&& sel_expected(src, src_dims, dim, idxs)[pos] == src[l * (sdim * right) + (
            idxs[i] as int) * right + j]
        }),
{
    let right = suffix_prod(src_dims, dim + 1) as int;
    let n = idxs.len() as int;
    let sdim = src_dims[dim] as int;
    let left = prod(src_dims.subrange(0, dim)) as int;
    let pos = l * (n * right) + i * right + j;
    let rem = i * right + j;
    assert(right > 0 && j < right);
    assert(0 <= rem && rem < n * right && n * right > 0) by (nonlinear_arith)
        requires
            rem == i * right + j,
            0 <= i < n,
            0 <= j < right,
            right > 0,
    ;
    assert(0 <= pos < left * (n * right)) by (nonlinear_arith)
        requires
            pos == l * (n * right) + rem,
            0 <= rem < n * right,
            0 <= l < left,
    ;
    assert(left * (n * right) == left * n * right) by (nonlinear_arith);
    vstd::arithmetic::div_mod::lemma_fundamental_div_mod_converse(pos, n * right, l, rem);
    vstd::arithmetic::div_mod::lemma_fundamental_div_mod_converse(rem, right, i, j);
    lemma_prod_split(src_dims, dim);
    lemma_prod_head(src_dims.subrange(dim, src_dims.len() as int));
    assert(src_dims.subrange(dim, src_dims.len() as int).subrange(
        1,
        src_dims.subrange(dim, src_dims.len() as int).len() as int,
    ) =~= src_dims.subrange(dim + 1, src_dims.len() as int));
    assert(src_dims.subrange(dim, src_dims.len() as int)[0] == src_dims[dim]);
    let sp = suffix_prod(src_dims, dim);
    assert(sp == (sdim as nat) * (right as nat));
    assert(prod(src_dims) == (left as nat) * sp);
    assert((left as nat) * sp == (left as nat) * ((sdim as nat) * (right as nat)));
    assert(prod(src_dims) == left * (sdim * right));
    let srow = idxs[i] as int;
    assert(0 <= l * (sdim * right) + srow * right + j < left * (sdim * right))
        by (nonlinear_arith)
        requires
            0 <= l < left,
            0 <= srow < sdim,
            0 <= j < right,
            right > 0,
    ;
}

/// Gathers rows of a plain source tensor. Succeeds exactly when the index
/// tensor holds 32-bit signed integers; the destination receives
/// `sel_expected` of the materialized source.
pub fn index_select(op: IndexSelect, dst: Tensor) -> (r: Result<Tensor, OperationError>)
    requires
        op.src.wf(),
        op.src.is_flat(),
        op.indices.wf(),
        op.indices.dims().len() == 1,
        op.indices.dt_spec() is I32 ==> {
            &&& sel_ok(op.src.dims(), op.dim as int, op.indices.elems())
            &&& dst.wf()
            &&& dst.dims() =~= op.src.dims().update(op.dim as int, op.indices.dims()[0])
            &&& prod(op.src.dims().subrange(0, op.dim as int)) <= usize::MAX
            &&& forall|d: int|
                0 <= d <= op.src.dims().len() ==> suffix_prod(op.src.dims(), d) <= usize::MAX
            &&& prod(dst.dims()) <= usize::MAX
            &&& forall|d: int|
                0 <= d <= dst.dims().len() ==> suffix_prod(dst.dims(), d) <= usize::MAX
        },
    ensures
        match r {
            Ok(out) => {
                &&& op.indices.dt_spec() is I32
                &&& out.wf()
                &&& out.is_flat()
                &&& out.dt_spec() == op.src.dt_spec()
                &&& out.dims() == dst.dims()
                &&& is_canonical(dst.dims(), out.steps())
                &&& out.store() == sel_expected(
                    op.src.elems(),
                    op.src.dims(),
                    op.dim as int,
                    op.indices.elems(),
                )
            },
            Err(e) => {
                &&& !(op.indices.dt_spec() is I32)
                &&& e == (OperationError::DTypeMismatch {
                    expected: DType::I32,
                    actual: op.indices.dt_spec(),
                })
            },
        },
{
    if !crate::concat::dtype_eq(op.indices.dt(), DType::I32) {
        return Err(
            OperationError::DTypeMismatch { expected: DType::I32, actual: op.indices.dt() },
        );
    }
    let ghost sdims = op.src.dims();
    let ghost idxs_s = op.indices.elems();
    let ghost expected = sel_expected(op.src.elems(), sdims, op.dim as int, idxs_s);
    let src = op.src.to_elements();
    let idxs = op.indices.to_elements();
    let dim = op.dim;
    let src_shape = op.src.shape();
    let rank = src_shape.rank();
    let left = crate::shape::prod_range(src_shape, 0, dim);
    let right = crate::shape::prod_range(src_shape, dim + 1, rank);
    let src_dim = src_shape.at(dim);
    let n_ids = idxs.len();
    proof {
        lemma_prod_split(sdims, dim as int);
        lemma_prod_head(sdims.subrange(dim as int, sdims.len() as int));
        assert(sdims.subrange(dim as int, sdims.len() as int).subrange(
            1,
            sdims.subrange(dim as int, sdims.len() as int).len() as int,
        ) =~= sdims.subrange(dim as int + 1, sdims.len() as int));
        assert(sdims.subrange(dim as int, sdims.len() as int)[0] == sdims[dim as int]);
        assert(expected.len() == (left as nat) * (n_ids as nat) * (right as nat));
        assert(suffix_prod(sdims, dim as int) == (src_dim as nat) * (right as nat));
        assert(op.indices.dims().drop_last() =~= Seq::<usize>::empty());
        assert(prod(Seq::<usize>::empty()) == 1);
        assert(op.indices.dims().last() == op.indices.dims()[0]);
        assert(1nat * (op.indices.dims()[0] as nat) == op.indices.dims()[0] as nat)
            by (nonlinear_arith);
        assert(idxs_s.len() == op.indices.dims()[0] as nat);
        lemma_sel_prod(sdims, dim as int, dst.dims(), n_ids as nat);
        assert(0nat * (n_ids as nat) * (right as nat) == 0) by (nonlinear_arith);
    }
    let src_len: usize = src.len();
    let mut out: Vec<u32> = Vec::new();
    let mut l: usize = 0;
    while l < left
        invariant
            sdims == op.src.dims(),
            idxs_s == op.indices.elems(),
            expected == sel_expected(op.src.elems(), sdims, dim as int, idxs_s),
            src@ == op.src.elems(),
            idxs@ == idxs_s,
            sel_ok(sdims, dim as int, idxs_s),
            src@.len() == prod(sdims),
            src@.len() <= usize::MAX,
            left == prod(sdims.subrange(0, dim as int)),
            right == suffix_prod(sdims, dim as int + 1),
            0 <= dim < sdims.len(),
            src_dim == sdims[dim as int],
            (src_dim as nat) * (right as nat) <= usize::MAX,
            n_ids == idxs_s.len(),
            expected.len() == (left as nat) * (n_ids as nat) * (right as nat),
            expected.len() <= usize::MAX,
            l <= left,
            out@.len() == (l as nat) * (n_ids as nat) * (right as nat),
            forall|p: int| 0 <= p < out@.len() ==> out@[p] == expected[p],
        decreases left - l,
    {
        let mut i: usize = 0;
        while i < n_ids
            invariant
                sdims == op.src.dims(),
                idxs_s == op.indices.elems(),
                expected == sel_expected(op.src.elems(), sdims, dim as int, idxs_s),
                src@ == op.src.elems(),
                idxs@ == idxs_s,
                sel_ok(sdims, dim as int, idxs_s),
                src@.len() == prod(sdims),
                src@.len() <= usize::MAX,
            src@.len() <= usize::MAX,
                left == prod(sdims.subrange(0, dim as int)),
                right == suffix_prod(sdims, dim as int + 1),
                0 <= dim < sdims.len(),
                src_dim == sdims[dim as int],
                (src_dim as nat) * (right as nat) <= usize::MAX,
                n_ids == idxs_s.len(),
                expected.len() == (left as nat) * (n_ids as nat) * (right as nat),
                expected.len() <= usize::MAX,
                l < left,
                i <= n_ids,
                out@.len() == (l as nat) * (n_ids as nat) * (right as nat) + (i as nat) * (
                right as nat),
                forall|p: int| 0 <= p < out@.len() ==> out@[p] == expected[p],
            decreases n_ids - i,
        {
            let idx = idxs[i] as usize;
            let mut j: usize = 0;
            while j < right
                invariant
                    sdims == op.src.dims(),
                    idxs_s == op.indices.elems(),
                    expected == sel_expected(op.src.elems(), sdims, dim as int, idxs_s),
                    src@ == op.src.elems(),
                    idxs@ == idxs_s,
                    sel_ok(sdims, dim as int, idxs_s),
                    src@.len() == prod(sdims),
                    src@.len() <= usize::MAX,
                src@.len() <= usize::MAX,
            src@.len() <= usize::MAX,
                    left == prod(sdims.subrange(0, dim as int)),
                    right == suffix_prod(sdims, dim as int + 1),
                    0 <= dim < sdims.len(),
                    src_dim == sdims[dim as int],
                    (src_dim as nat) * (right as nat) <= usize::MAX,
                    n_ids == idxs_s.len(),
                    expected.len() == (left as nat) * (n_ids as nat) * (right as nat),
                    expected.len() <= usize::MAX,
                    l < left,
                    i < n_ids,
                    idx == idxs_s[i as int] as nat,
                    idx < src_dim,
                    j <= right,
                    out@.len() == (l as nat) * (n_ids as nat) * (right as nat) + (i as nat) * (
                    right as nat) + j,
                    forall|p: int| 0 <= p < out@.len() ==> out@[p] == expected[p],
                decreases right - j,
            {
                proof {
                    lemma_sel_cell(
                        op.src.elems(),
                        sdims,
                        dim as int,
                        idxs_s,
                        l as int,
                        i as int,
                        j as int,
                    );
                    assert((l as int) * ((n_ids as int) * (right as int)) + (i as int) * (
                    right as int) + j == out@.len()) by (nonlinear_arith)
                        requires
                            out@.len() == (l as nat) * (n_ids as nat) * (right as nat) + (
                            i as nat) * (right as nat) + (j as nat),
                    ;
                }
                let v = src[l * (src_dim * right) + idx * right + j];
                out.push(v);
                j += 1;
            }
            i += 1;
            proof {
                assert((l as nat) * (n_ids as nat) * (right as nat) + ((i - 1) as nat) * (
                right as nat) + (right as nat) == (l as nat) * (n_ids as nat) * (right as nat) + (
                i as nat) * (right as nat)) by (nonlinear_arith)
                    requires
                        i >= 1,
                ;
            }
        }
        l += 1;
        proof {
            assert(((l - 1) as nat) * (n_ids as nat) * (right as nat) + (n_ids as nat) * (
            right as nat) == (l as nat) * (n_ids as nat) * (right as nat)) by (nonlinear_arith)
                requires
                    l >= 1,
            ;
        }
    }
    proof {
        assert(out@ =~= expected);
    }
    let dst_shape = dst.shape().clone();
    let dt = op.src.dt();
    Ok(Tensor::new_contiguous(dt, dst_shape, out))
}

/// The destination of a gather holds `left * n * right` elements.
proof fn lemma_sel_prod(src_dims: Seq<usize>, dim: int, dst_dims: Seq<usize>, n: nat)
    requires
        0 <= dim < src_dims.len(),
        dst_dims =~= src_dims.update(dim, n as usize),
        n <= usize::MAX,
    ensures
        prod(dst_dims) == prod(src_dims.subrange(0, dim)) * n * suffix_prod(src_dims, dim + 1),
{
    lemma_prod_split(dst_dims, dim);
    lemma_prod_head(dst_dims.subrange(dim, dst_dims.len() as int));
    assert(dst_dims.subrange(0, dim) =~= src_dims.subrange(0, dim));
    assert(dst_dims.subrange(dim, dst_dims.len() as int).subrange(
        1,
        dst_dims.subrange(dim, dst_dims.len() as int).len() as int,
    ) =~= src_dims.subrange(dim + 1, src_dims.len() as int));
    let left = prod(src_dims.subrange(0, dim));
    let right = suffix_prod(src_dims, dim + 1);
    assert(prod(dst_dims) == left * (n * right));
    assert(left * (n * right) == left * n * right) by (nonlinear_arith);
}

} // verus!

verus! {

/// A contiguous canonically-strided tensor's logical elements are its backing
/// buffer, unchanged.
pub proof fn lemma_contiguous_elems(t: &Tensor)
    requires
        t.wf(),
        t.is_flat(),
        is_canonical(t.dims(), t.steps()),
        t.store().len() == t.numel_spec(),
    ensures
        t.elems() =~= t.store(),
{
    assert forall|k: int| 0 <= k < t.numel_spec() implies t.elems()[k] == t.store()[k] by {
        crate::strided::lemma_multi_of_rank(t.dims(), k as nat);
        crate::strided::lemma_canonical_dot(t.dims(), crate::strided::multi_of(t.dims(), k as nat), t.steps());
    }
}

/// Dequantizes the whole source to binary32, then gathers: the slow but
/// simple path for block-quantized sources, trading an extra full-size
/// buffer for reuse of the plain gather kernel.
pub fn qindex_select<F: Fn(ScalarOp, u32, u32) -> u32 + Copy>(
    op: IndexSelect,
    dst: Tensor,
    sc: F,
) -> (r: Result<Tensor, OperationError>)
    requires
        backend_ok(sc),
        op.src.wf(),
        !op.src.is_flat(),
        op.indices.wf(),
        op.indices.dims().len() == 1,
        op.indices.dt_spec() is I32 ==> {
            &&& sel_ok(op.src.dims(), op.dim as int, op.indices.elems())
            &&& dst.wf()
            &&& dst.dims() =~= op.src.dims().update(op.dim as int, op.indices.dims()[0])
            &&& prod(op.src.dims().subrange(0, op.dim as int)) <= usize::MAX
            &&& prod(dst.dims()) <= usize::MAX
            &&& forall|d: int|
                0 <= d <= dst.dims().len() ==> suffix_prod(dst.dims(), d) <= usize::MAX
        },
    ensures
        match r {
            Ok(out) => {
                &&& op.indices.dt_spec() is I32
                &&& out.wf()
                &&& out.is_flat()
                &&& out.dt_spec() == DType::F32
                &&& out.dims() == dst.dims()
                &&& exists|dq: Seq<u32>|
                    #[trigger] dequant_all_rel(sc, op.src, dq) && out.store() == sel_expected(
                        dq,
                        op.src.dims(),
                        op.dim as int,
                        op.indices.elems(),
                    )
            },
            Err(e) => {
                &&& !(op.indices.dt_spec() is I32)
                &&& e == (OperationError::DTypeMismatch {
                    expected: DType::I32,
                    actual: op.indices.dt_spec(),
                })
            },
        },
{
    let dq = op.src.dequantized(sc);
    let ghost dqs = dq@;
    let shp = op.src.shape().clone();
    proof {
        assert(is_canonical(op.src.dims(), op.src.steps()));
        assert forall|d: int| 0 <= d <= shp@.len() implies suffix_prod(shp@, d) <= usize::MAX by {
            if d == shp@.len() {
                assert(shp@.subrange(d, d) =~= Seq::<usize>::empty());
            } else if d == 0 {
                assert(shp@.subrange(0, shp@.len() as int) =~= shp@);
            } else {
                assert(op.src.steps()[d - 1] == suffix_prod(op.src.dims(), d));
            }
        }
    }
    let fsrc = Tensor::new_contiguous(DType::F32, shp, dq);
    proof {
        lemma_contiguous_elems(&fsrc);
    }
    let r = index_select(
        IndexSelect { src: fsrc, indices: op.indices, dim: op.dim },
        dst,
    );
    proof {
        if r is Ok {
            assert(dequant_all_rel(sc, op.src, dqs));
        }
    }
    r
}

/// Routes a gather to the plain kernel for plain dtypes and to the
/// dequantizing kernel for block-quantized sources; other source dtypes are
/// unsupported.
pub fn cpu_index_select<F: Fn(ScalarOp, u32, u32) -> u32 + Copy>(
    i: IndexSelect,
    dst: Tensor,
    sc: F,
) -> (r: Result<Tensor, OperationError>)
    requires
        backend_ok(sc),
        i.src.wf(),
        i.indices.wf(),
        i.indices.dims().len() == 1,
        i.indices.dt_spec() is I32 ==> {
            &&& sel_ok(i.src.dims(), i.dim as int, i.indices.elems())
            &&& dst.wf()
            &&& dst.dims() =~= i.src.dims().update(i.dim as int, i.indices.dims()[0])
            &&& prod(i.src.dims().subrange(0, i.dim as int)) <= usize::MAX
            &&& prod(dst.dims()) <= usize::MAX
            &&& forall|d: int|
                0 <= d <= i.src.dims().len() ==> suffix_prod(i.src.dims(), d) <= usize::MAX
            &&& forall|d: int|
                0 <= d <= dst.dims().len() ==> suffix_prod(dst.dims(), d) <= usize::MAX
        },
    ensures
        match i.src.dt_spec() {
            DType::F32 | DType::F16 | DType::BF16 => match r {
                Ok(out) => {
                    &&& i.indices.dt_spec() is I32
                    &&& out.wf()
                    &&& out.is_flat()
                    &&& out.dt_spec() == i.src.dt_spec()
                    &&& out.dims() == dst.dims()
                    &&& out.store() == sel_expected(
                        i.src.elems(),
                        i.src.dims(),
                        i.dim as int,
                        i.indices.elems(),
                    )
                },
                Err(e) => {
                    &&& !(i.indices.dt_spec() is I32)
                    &&& e == (OperationError::DTypeMismatch {
                        expected: DType::I32,
                        actual: i.indices.dt_spec(),
                    })
                },
            },
            DType::Q8_0F(_) => match r {
                Ok(out) => {
                    &&& i.indices.dt_spec() is I32
                    &&& out.wf()
                    &&& out.is_flat()
                    &&& out.dt_spec() == DType::F32
                    &&& out.dims() == dst.dims()
                    &&& exists|dq: Seq<u32>|
                        #[trigger] dequant_all_rel(sc, i.src, dq) && out.store() == sel_expected(
                            dq,
                            i.src.dims(),
                            i.dim as int,
                            i.indices.elems(),
                        )
                },
                Err(e) => {
                    &&& !(i.indices.dt_spec() is I32)
                    &&& e == (OperationError::DTypeMismatch {
                        expected: DType::I32,
                        actual: i.indices.dt_spec(),
                    })
                },
            },
            dt => r == Err::<Tensor, OperationError>(OperationError::UnsupportedDType(dt)),
        },
{
    match i.src.dt() {
        DType::F32 | DType::F16 | DType::BF16 => index_select(i, dst),
        DType::Q8_0F(_) => qindex_select(i, dst, sc),
        dt => Err(OperationError::UnsupportedDType(dt)),
    }
}

/// Law: selecting all indices `0, 1, ..., src_dim - 1` in order reproduces
/// the source tensor exactly, position for position.
pub proof fn lemma_select_identity(
    src: Seq<u32>,
    src_dims: Seq<usize>,
    dim: int,
    idxs: Seq<u32>,
    l: int,
    i: int,
    j: int,
)
    requires
        sel_ok(src_dims, dim, idxs),
        src.len() == prod(src_dims),
        idxs.len() == src_dims[dim],
        forall|k: int| 0 <= k < idxs.len() ==> (#[trigger] idxs[k]) as int == k,
        0 <= l < prod(src_dims.subrange(0, dim)),
        0 <= i < idxs.len(),
        0 <= j < suffix_prod(src_dims, dim + 1),
    ensures
        ({
            let right = suffix_prod(src_dims, dim + 1) as int;
            let n = idxs.len() as int;
            let pos = l * (n * right) + i * right + j;
            sel_expected(src, src_dims, dim, idxs)[pos] == src[pos]
        }),
{
    lemma_sel_cell(src, src_dims, dim, idxs, l, i, j);
}

/// Law: selecting one repeated index produces identical copies of that row:
/// any two selected rows of the result agree position for position.
pub proof fn lemma_select_repeat(
    src: Seq<u32>,
    src_dims: Seq<usize>,
    dim: int,
    idxs: Seq<u32>,
    l: int,
    i1: int,
    i2: int,
    j: int,
)
    requires
        sel_ok(src_dims, dim, idxs),
        src.len() == prod(src_dims),
        forall|k: int| 0 <= k < idxs.len() ==> (#[trigger] idxs[k]) == idxs[0],
        0 <= l < prod(src_dims.subrange(0, dim)),
        0 <= i1 < idxs.len(),
        0 <= i2 < idxs.len(),
        0 <= j < suffix_prod(src_dims, dim + 1),
    ensures
        ({
            let right = suffix_prod(src_dims, dim + 1) as int;
            let n = idxs.len() as int;
            sel_expected(src, src_dims, dim, idxs)[l * (n * right) + i1 * right + j]
                == sel_expected(src, src_dims, dim, idxs)[l * (n * right) + i2 * right + j]
        }),
{
    lemma_sel_cell(src, src_dims, dim, idxs, l, i1, j);
    lemma_sel_cell(src, src_dims, dim, idxs, l, i2, j);
}

} // verus!
