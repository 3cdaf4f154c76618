//! Concatenation along an arbitrary axis: the inputs' contiguous row-major
//! data is interleaved into the destination, one row block per outer index,
//! at a running column offset per input.

use vstd::prelude::*;

use crate::shape::{lemma_prod_head, lemma_prod_split, prod, suffix_prod, Shape};
use crate::tensor::{DType, OperationError, Tensor};

verus! {

/// The elements one outer index of a tensor contributes on and after the
/// concatenation axis: extent on the axis times the block after it.
pub open spec fn cat_row(dims: Seq<usize>, dim: int) -> nat {
    suffix_prod(dims, dim)
}

/// The running destination column offset of input `t`: the sum of the row
/// lengths of all earlier inputs.
pub open spec fn col_off(inputs: Seq<(Seq<usize>, Seq<u32>)>, dim: int, t: int) -> nat
    decreases t,
{
    if t <= 0 {
        0nat
    } else {
        col_off(inputs, dim, t - 1) + cat_row(inputs[t - 1].0, dim)
    }
}

/// The element that destination row `idx`, destination column `col` receives:
/// the search walks the inputs, peeling each one's row length off `col` until
/// the owning input is found.
pub open spec fn cat_elem(inputs: Seq<(Seq<usize>, Seq<u32>)>, dim: int, idx: int, col: int, t: int) -> u32
    decreases inputs.len() - t,
{
    if t >= inputs.len() - 1 || col < cat_row(inputs[t].0, dim) {
        inputs[t].1[idx * cat_row(inputs[t].0, dim) + col]
    } else {
        cat_elem(inputs, dim, idx, col - cat_row(inputs[t].0, dim), t + 1)
    }
}

/// The whole expected destination contents of a concatenation.
pub open spec fn concat_expected(
    inputs: Seq<(Seq<usize>, Seq<u32>)>,
    dim: int,
    dst_dims: Seq<usize>,
) -> Seq<u32> {
    Seq::new(
        prod(dst_dims),
        |p: int|
            cat_elem(
                inputs,
                dim,
                p / (cat_row(dst_dims, dim) as int),
                p % (cat_row(dst_dims, dim) as int),
                0,
            ),
    )
}

/// The shape conditions concatenation demands: every input has the
/// destination's rank, agrees with it on every axis but the concatenation
/// axis, holds exactly its elements, and the inputs' row lengths sum to the
/// destination's.
pub open spec fn concat_ok(
    inputs: Seq<(Seq<usize>, Seq<u32>)>,
    dim: int,
    dst_dims: Seq<usize>,
) -> bool {
    &&& 0 <= dim < dst_dims.len()
    &&& inputs.len() > 0
    &&& forall|t: int| 0 <= t < inputs.len() ==> (#[trigger] inputs[t].0).len() == dst_dims.len()
    &&& forall|t: int, a: int|
        0 <= t < inputs.len() && 0 <= a < dst_dims.len() && a != dim ==> #[trigger] inputs[t].0[a]
            == dst_dims[a]
    &&& col_off(inputs, dim, inputs.len() as int) == cat_row(dst_dims, dim)
    &&& forall|t: int| 0 <= t < inputs.len() ==> (#[trigger] inputs[t].1).len() == prod(inputs[t].0)
}

/// The column offsets are non-decreasing in the input index.
proof fn lemma_col_off_mono(inputs: Seq<(Seq<usize>, Seq<u32>)>, dim: int, s: int, t: int)
    requires
        0 <= s <= t,
    ensures
        col_off(inputs, dim, s) <= col_off(inputs, dim, t),
    decreases t - s,
{
    if s < t {
        lemma_col_off_mono(inputs, dim, s, t - 1);
    }
}

/// Destination column `col_off(t) + j` is element `j` of input `t`'s row.
proof fn lemma_cat_elem_at(
    inputs: Seq<(Seq<usize>, Seq<u32>)>,
    dim: int,
    idx: int,
    s: int,
    t: int,
    j: int,
)
    requires
        0 <= s <= t < inputs.len(),
        0 <= j < cat_row(inputs[t].0, dim),
    ensures
        cat_elem(
            inputs,
            dim,
            idx,
            col_off(inputs, dim, t) - col_off(inputs, dim, s) + j,
            s,
        ) == inputs[t].1[idx * (cat_row(inputs[t].0, dim) as int) + j],
    decreases t - s,
{
    if s == t {
    } else {
        lemma_col_off_mono(inputs, dim, s + 1, t);
        lemma_cat_elem_at(inputs, dim, idx, s + 1, t, j);
    }
}

/// Splitting the destination element count at the concatenation axis: the
/// outer count times the row length.
proof fn lemma_prod_outer_row(dims: Seq<usize>, dim: int)
    requires
        0 <= dim < dims.len(),
    ensures
        prod(dims) == prod(dims.subrange(0, dim)) * cat_row(dims, dim),
{
    lemma_prod_split(dims, dim);
}

/// Interleaves each input's contiguous row-major data into the destination:
/// for each outer index, each input contributes one row at its running
/// column offset. The destination receives exactly `concat_expected`.
pub fn concat(
    inputs: &Vec<(Shape, Vec<u32>)>,
    dim: usize,
    dst_shape: &Shape,
    dst: &mut Vec<u32>,
) -> (r: Result<(), OperationError>)
    requires
        concat_ok(pairs_view(inputs@), dim as int, dst_shape@),
        old(dst)@.len() == prod(dst_shape@),
        prod(dst_shape@) <= usize::MAX,
        forall|d: int| 0 <= d <= dst_shape@.len() ==> suffix_prod(dst_shape@, d) <= usize::MAX,
        prod(dst_shape@.subrange(0, dim as int)) <= usize::MAX,
    ensures
        r is Ok,
        final(dst)@ == concat_expected(pairs_view(inputs@), dim as int, dst_shape@),
{
    let ghost ins = pairs_view(inputs@);
    let ghost dd = dst_shape@;
    let ghost expected = concat_expected(ins, dim as int, dd);
    let ghost dst_row = cat_row(dd, dim as int);
    let rank = dst_shape.rank();
    let outer = crate::shape::prod_range(dst_shape, 0, dim);
    let n_in = inputs.len();
    proof {
        lemma_prod_outer_row(dd, dim as int);
    }
    let mut out: Vec<u32> = Vec::new();
    let mut idx: usize = 0;
    while idx < outer
        invariant
            concat_ok(ins, dim as int, dd),
            ins == pairs_view(inputs@),
            dd == dst_shape@,
            expected == concat_expected(ins, dim as int, dd),
            dst_row == cat_row(dd, dim as int),
            expected.len() == prod(dd),
            prod(dd) <= usize::MAX,
            forall|d: int| 0 <= d <= dd.len() ==> suffix_prod(dd, d) <= usize::MAX,
            rank == dd.len(),
            outer == prod(dd.subrange(0, dim as int)),
            prod(dd) == outer * dst_row,
            n_in == inputs@.len(),
            idx <= outer,
            out@.len() == idx * dst_row,
            forall|p: int| 0 <= p < out@.len() ==> out@[p] == expected[p],
        decreases outer - idx,
    {
        let mut t: usize = 0;
        while t < n_in
            invariant
                concat_ok(ins, dim as int, dd),
                ins == pairs_view(inputs@),
                dd == dst_shape@,
                expected == concat_expected(ins, dim as int, dd),
                dst_row == cat_row(dd, dim as int),
                expected.len() == prod(dd),
                prod(dd) <= usize::MAX,
                forall|d: int| 0 <= d <= dd.len() ==> suffix_prod(dd, d) <= usize::MAX,
                rank == dd.len(),
                outer == prod(dd.subrange(0, dim as int)),
                prod(dd) == outer * dst_row,
                n_in == inputs@.len(),
                idx < outer,
                t <= n_in,
                out@.len() == idx * dst_row + col_off(ins, dim as int, t as int),
                forall|p: int| 0 <= p < out@.len() ==> out@[p] == expected[p],
            decreases n_in - t,
        {
            proof {
                assert(ins[t as int] == (inputs@[t as int].0@, inputs@[t as int].1@));
                lemma_col_off_step(ins, dim as int, t as int);
                lemma_col_off_mono(ins, dim as int, t as int + 1, ins.len() as int);
                lemma_input_counts(ins, dim as int, dd, t as int, outer as nat);
                assert(suffix_prod(dd, dim as int) <= usize::MAX);
            }
            let pair = &inputs[t];
            let src_len: usize = pair.1.len();
            let b_dim = crate::shape::prod_range(&pair.0, dim, pair.0.rank());
            let ghost coff = col_off(ins, dim as int, t as int);
            let mut j: usize = 0;
            while j < b_dim
                invariant
                    concat_ok(ins, dim as int, dd),
                    ins == pairs_view(inputs@),
                    dd == dst_shape@,
                    expected == concat_expected(ins, dim as int, dd),
                    dst_row == cat_row(dd, dim as int),
                    expected.len() == prod(dd),
                    prod(dd) <= usize::MAX,
                    outer == prod(dd.subrange(0, dim as int)),
                    prod(dd) == outer * dst_row,
                    n_in == inputs@.len(),
                    idx < outer,
                    t < n_in,
                    pair.0@ == ins[t as int].0,
                    pair.1@ == ins[t as int].1,
                    src_len == pair.1@.len(),
                    b_dim == cat_row(ins[t as int].0, dim as int),
                    coff == col_off(ins, dim as int, t as int),
                    coff + b_dim <= dst_row,
                    pair.1@.len() == (outer as nat) * (b_dim as nat),
                    j <= b_dim,
                    out@.len() == idx * dst_row + coff + j,
                    forall|p: int| 0 <= p < out@.len() ==> out@[p] == expected[p],
                decreases b_dim - j,
            {
                proof {
                    lemma_push_ok(ins, dim as int, dd, outer as nat, idx as nat, t as int, j as nat);
                }
                out.push(pair.1[idx * b_dim + j]);
                j += 1;
            }
            t += 1;
        }
        proof {
            assert(((idx as nat) + 1) * dst_row == (idx as nat) * dst_row + dst_row)
                by (nonlinear_arith);
        }
        idx += 1;
    }
    proof {
        assert(out@.len() == (outer as nat) * dst_row);
        assert(out@ =~= expected);
    }
    *dst = out;
    Ok(())
}

/// The view of materialized inputs: each pair of shape and flat data as
/// mathematical sequences.
pub open spec fn pairs_view(v: Seq<(Shape, Vec<u32>)>) -> Seq<(Seq<usize>, Seq<u32>)> {
    v.map_values(|p: (Shape, Vec<u32>)| (p.0@, p.1@))
}

/// One step of the running column offset.
proof fn lemma_col_off_step(inputs: Seq<(Seq<usize>, Seq<u32>)>, dim: int, t: int)
    requires
        t >= 0,
    ensures
        col_off(inputs, dim, t + 1) == col_off(inputs, dim, t) + cat_row(inputs[t].0, dim),
{
}

/// Under the concatenation shape conditions, input `t` holds `outer` rows of
/// its row length, and its rows fit between its column offset and the
/// destination row length.
proof fn lemma_input_counts(
    inputs: Seq<(Seq<usize>, Seq<u32>)>,
    dim: int,
    dst_dims: Seq<usize>,
    t: int,
    outer: nat,
)
    requires
        concat_ok(inputs, dim, dst_dims),
        0 <= t < inputs.len(),
        outer == prod(dst_dims.subrange(0, dim)),
    ensures
        inputs[t].1.len() == outer * cat_row(inputs[t].0, dim),
        col_off(inputs, dim, t) + cat_row(inputs[t].0, dim) <= cat_row(dst_dims, dim),
{
    let sd = inputs[t].0;
    assert(sd.subrange(0, dim) =~= dst_dims.subrange(0, dim));
    lemma_prod_split(sd, dim);
    assert(inputs[t].1.len() == outer * cat_row(sd, dim));
    lemma_col_off_step(inputs, dim, t);
    lemma_col_off_mono(inputs, dim, t + 1, inputs.len() as int);
}

/// The element pushed at destination row `idx`, column `col_off(t) + j` is
/// exactly what `concat_expected` holds there.
proof fn lemma_push_ok(
    inputs: Seq<(Seq<usize>, Seq<u32>)>,
    dim: int,
    dst_dims: Seq<usize>,
    outer: nat,
    idx: nat,
    t: int,
    j: nat,
)
    requires
        concat_ok(inputs, dim, dst_dims),
        outer == prod(dst_dims.subrange(0, dim)),
        prod(dst_dims) == outer * cat_row(dst_dims, dim),
        idx < outer,
        0 <= t < inputs.len(),
        j < cat_row(inputs[t].0, dim),
        col_off(inputs, dim, t) + cat_row(inputs[t].0, dim) <= cat_row(dst_dims, dim),
    ensures
        idx * cat_row(dst_dims, dim) + col_off(inputs, dim, t) + j < prod(dst_dims),
        (idx as int) * (cat_row(inputs[t].0, dim) as int) + j < inputs[t].1.len(),
        concat_expected(inputs, dim, dst_dims)[(idx * cat_row(dst_dims, dim) + col_off(
            inputs,
            dim,
            t,
        ) + j) as int] == inputs[t].1[(idx as int) * (cat_row(inputs[t].0, dim) as int) + j],
{
    let dst_row = cat_row(dst_dims, dim);
    let src_row = cat_row(inputs[t].0, dim);
    let coff = col_off(inputs, dim, t);
    let pos = idx * dst_row + coff + j;
    assert(pos < outer * dst_row) by (nonlinear_arith)
        requires
            pos == idx * dst_row + coff + j,
            coff + j < dst_row,
            idx < outer,
    ;
    lemma_input_counts(inputs, dim, dst_dims, t, outer);
    assert(idx * src_row + j < outer * src_row) by (nonlinear_arith)
        requires
            j < src_row,
            idx < outer,
    ;
    vstd::arithmetic::div_mod::lemma_fundamental_div_mod_converse(
        pos as int,
        dst_row as int,
        idx as int,
        (coff + j) as int,
    );
    lemma_cat_elem_at(inputs, dim, idx as int, 0, t, j as int);
}

} // verus!

verus! {

/// The inputs and concatenation axis of a recorded concatenation node.
pub struct Concat {
    pub inputs: Vec<Tensor>,
    pub dim: usize,
}

/// The index of the first input whose dtype differs from `dt`, or the input
/// count when all match.
pub open spec fn first_bad_dt(ts: Seq<Tensor>, dt: DType, i: int) -> int
    decreases ts.len() - i,
{
    if i < 0 || i >= ts.len() {
        ts.len() as int
    } else if ts[i].dt_spec() != dt {
        i
    } else {
        first_bad_dt(ts, dt, i + 1)
    }
}

proof fn lemma_first_bad_dt(ts: Seq<Tensor>, dt: DType, i: int, t: int)
    requires
        0 <= i <= t <= ts.len(),
        forall|s: int| i <= s < t ==> (#[trigger] ts[s]).dt_spec() == dt,
        t < ts.len() ==> ts[t].dt_spec() != dt,
    ensures
        first_bad_dt(ts, dt, i) == if t < ts.len() {
            t
        } else {
            ts.len() as int
        },
    decreases t - i,
{
    if i < t {
        lemma_first_bad_dt(ts, dt, i + 1, t);
    }
}

/// Materializes every input and interleaves them into a fresh destination
/// buffer of the destination's shape. Succeeds exactly when every input has
/// the destination's dtype; the first differing input is reported.
pub fn apply_concat(inputs: Vec<Tensor>, dim: usize, dst: Tensor) -> (r: Result<
    Tensor,
    OperationError,
>)
    requires
        dst.wf(),
        !(dst.dt_spec() is Q8_0F),
        forall|t: int| 0 <= t < inputs@.len() ==> (#[trigger] inputs@[t]).wf(),
        concat_ok(crate::tensor::tensors_view(inputs@), dim as int, dst.dims()),
        prod(dst.dims().subrange(0, dim as int)) <= usize::MAX,
        forall|d: int| 0 <= d <= dst.dims().len() ==> suffix_prod(dst.dims(), d) <= usize::MAX,
    ensures
        match r {
            Ok(out) => {
                &&& forall|t: int|
                    0 <= t < inputs@.len() ==> (#[trigger] inputs@[t]).dt_spec() == dst.dt_spec()
                &&& out.wf()
                &&& out.is_flat()
                &&& out.dt_spec() == dst.dt_spec()
                &&& out.dims() == dst.dims()
                &&& crate::shape::is_canonical(dst.dims(), out.steps())
                &&& out.store() == concat_expected(
                    crate::tensor::tensors_view(inputs@),
                    dim as int,
                    dst.dims(),
                )
            },
            Err(e) => {
                let bad = first_bad_dt(inputs@, dst.dt_spec(), 0);
                &&& bad < inputs@.len()
                &&& e == (OperationError::DTypeMismatch {
                    expected: dst.dt_spec(),
                    actual: inputs@[bad].dt_spec(),
                })
            },
        },
{
    let ghost ins = crate::tensor::tensors_view(inputs@);
    let dst_dt = dst.dt();
    let n_in = inputs.len();
    let mut pairs: Vec<(Shape, Vec<u32>)> = Vec::new();
    let mut t: usize = 0;
    while t < n_in
        invariant
            n_in == inputs@.len(),
            dst_dt == dst.dt_spec(),
            !(dst.dt_spec() is Q8_0F),
            ins == crate::tensor::tensors_view(inputs@),
            forall|s: int| 0 <= s < n_in ==> (#[trigger] inputs@[s]).wf(),
            t <= n_in,
            pairs@.len() == t,
            forall|s: int| 0 <= s < t ==> (#[trigger] inputs@[s]).dt_spec() == dst.dt_spec(),
            forall|s: int|
                0 <= s < t ==> (#[trigger] pairs@[s].0)@ == inputs@[s].dims() && pairs@[s].1@
                    == inputs@[s].elems(),
        decreases n_in - t,
    {
        let inp = &inputs[t];
        if !dtype_eq(inp.dt(), dst_dt) {
            proof {
                lemma_first_bad_dt(inputs@, dst.dt_spec(), 0, t as int);
            }
            return Err(
                OperationError::DTypeMismatch { expected: dst_dt, actual: inp.dt() },
            );
        }
        let flat = inp.to_elements();
        let shp = inp.shape().clone();
        pairs.push((shp, flat));
        t += 1;
    }
    proof {
        lemma_first_bad_dt(inputs@, dst.dt_spec(), 0, n_in as int);
        assert(pairs_view(pairs@) =~= ins);
    }
    let dst_numel = dst.numel();
    let mut buf: Vec<u32> = Vec::new();
    let mut i: usize = 0;
    while i < dst_numel
        invariant
            i <= dst_numel,
            buf@.len() == i,
        decreases dst_numel - i,
    {
        buf.push(0);
        i += 1;
    }
    let res = concat(&pairs, dim, dst.shape(), &mut buf);
    proof {
        assert(res is Ok);
    }
    let shp = dst.shape().clone();
    Ok(Tensor::new_contiguous(dst_dt, shp, buf))
}

/// Compares two dtype tags.
pub fn dtype_eq(a: DType, b: DType) -> (r: bool)
    ensures
        r == (a == b),
{
    match (a, b) {
        (DType::F32, DType::F32) => true,
        (DType::F16, DType::F16) => true,
        (DType::BF16, DType::BF16) => true,
        (DType::I32, DType::I32) => true,
        (DType::U32, DType::U32) => true,
        (DType::Q8_0F(x), DType::Q8_0F(y)) => x == y,
        _ => false,
    }
}

/// Routes a concatenation to the interleaving kernel for the dtypes that
/// have one, and reports every other destination dtype as unsupported.
pub fn cpu_concat(c: Concat, dst: Tensor) -> (r: Result<Tensor, OperationError>)
    requires
        dst.wf(),
        matches!(dst.dt_spec(), DType::F32 | DType::F16 | DType::BF16) ==> {
            &&& forall|t: int| 0 <= t < c.inputs@.len() ==> (#[trigger] c.inputs@[t]).wf()
            &&& concat_ok(crate::tensor::tensors_view(c.inputs@), c.dim as int, dst.dims())
            &&& prod(dst.dims().subrange(0, c.dim as int)) <= usize::MAX
            &&& forall|d: int|
                0 <= d <= dst.dims().len() ==> suffix_prod(dst.dims(), d) <= usize::MAX
        },
    ensures
        match dst.dt_spec() {
            DType::F32 | DType::F16 | DType::BF16 => match r {
                Ok(out) => {
                    &&& forall|t: int|
                        0 <= t < c.inputs@.len() ==> (#[trigger] c.inputs@[t]).dt_spec()
                            == dst.dt_spec()
                    &&& out.wf()
                    &&& out.is_flat()
                    &&& out.dt_spec() == dst.dt_spec()
                    &&& out.dims() == dst.dims()
                    &&& out.store() == concat_expected(
                        crate::tensor::tensors_view(c.inputs@),
                        c.dim as int,
                        dst.dims(),
                    )
                },
                Err(e) => {
                    let bad = first_bad_dt(c.inputs@, dst.dt_spec(), 0);
                    &&& bad < c.inputs@.len()
                    &&& e == (OperationError::DTypeMismatch {
                        expected: dst.dt_spec(),
                        actual: c.inputs@[bad].dt_spec(),
                    })
                },
            },
            dt => r == Err::<Tensor, OperationError>(OperationError::UnsupportedDType(dt)),
        },
{
    match dst.dt() {
        DType::F32 | DType::F16 | DType::BF16 => apply_concat(c.inputs, c.dim, dst),
        dt => Err(OperationError::UnsupportedDType(dt)),
    }
}

/// Law: concatenating a tensor's data with itself along an axis doubles that
/// axis's extent, and the result's rows hold two copies of the original's
/// rows: for every outer index `idx` and in-row position `j`, the first half
/// of the destination row equals the original row, and so does the second
/// half.
pub proof fn lemma_concat_self(
    adims: Seq<usize>,
    adata: Seq<u32>,
    dim: int,
    dst_dims: Seq<usize>,
    idx: int,
    j: int,
)
    requires
        0 <= dim < adims.len(),
        adata.len() == prod(adims),
        dst_dims.len() == adims.len(),
        forall|a: int| 0 <= a < adims.len() && a != dim ==> dst_dims[a] == adims[a],
        dst_dims[dim] == 2 * adims[dim],
        0 <= idx < prod(adims.subrange(0, dim)),
        0 <= j < cat_row(adims, dim),
    ensures
        concat_expected(seq![(adims, adata), (adims, adata)], dim, dst_dims)[idx * (cat_row(
            dst_dims,
            dim,
        ) as int) + j] == adata[idx * (cat_row(adims, dim) as int) + j],
        concat_expected(seq![(adims, adata), (adims, adata)], dim, dst_dims)[idx * (cat_row(
            dst_dims,
            dim,
        ) as int) + cat_row(adims, dim) + j] == adata[idx * (cat_row(adims, dim) as int) + j],
{
    let ins = seq![(adims, adata), (adims, adata)];
    let arow = cat_row(adims, dim);
    let drow = cat_row(dst_dims, dim);
    lemma_prod_head(adims.subrange(dim, adims.len() as int));
    lemma_prod_head(dst_dims.subrange(dim, dst_dims.len() as int));
    assert(adims.subrange(dim, adims.len() as int).subrange(
        1,
        adims.subrange(dim, adims.len() as int).len() as int,
    ) =~= adims.subrange(dim + 1, adims.len() as int));
    assert(dst_dims.subrange(dim, dst_dims.len() as int).subrange(
        1,
        dst_dims.subrange(dim, dst_dims.len() as int).len() as int,
    ) =~= dst_dims.subrange(dim + 1, dst_dims.len() as int));
    assert(dst_dims.subrange(dim + 1, dst_dims.len() as int) =~= adims.subrange(
        dim + 1,
        adims.len() as int,
    ));
    let blk = suffix_prod(adims, dim + 1);
    assert(arow == (adims[dim] as nat) * blk);
    assert(drow == (dst_dims[dim] as nat) * blk);
    assert((2 * (adims[dim] as nat)) * blk == 2 * ((adims[dim] as nat) * blk))
        by (nonlinear_arith);
    assert(drow == 2 * arow);
    assert(ins[0] == (adims, adata));
    assert(ins[1] == (adims, adata));
    assert(col_off(ins, dim, 0) == 0);
    assert(col_off(ins, dim, 1) == arow);
    assert(col_off(ins, dim, 2) == arow + arow);
    assert(concat_ok(ins, dim, dst_dims));
    let outer = prod(dst_dims.subrange(0, dim));
    assert(dst_dims.subrange(0, dim) =~= adims.subrange(0, dim));
    lemma_prod_split(dst_dims, dim);
    assert(prod(dst_dims) == outer * drow);
    lemma_input_counts(ins, dim, dst_dims, 0, outer);
    lemma_input_counts(ins, dim, dst_dims, 1, outer);
    lemma_push_ok(ins, dim, dst_dims, outer, idx as nat, 0, j as nat);
    lemma_push_ok(ins, dim, dst_dims, outer, idx as nat, 1, j as nat);
    assert(col_off(ins, dim, 1) == arow);
    assert(col_off(ins, dim, 0) == 0);
}

} // verus!
