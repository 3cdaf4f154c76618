//! The dispatch front-end: one recorded operation node plus one pre-allocated
//! destination tensor map to exactly one kernel, selected by operation kind
//! and operand dtype. A kind with no kernel yet is an explicit
//! "not implemented" error, never a silently stale or zero-filled
//! destination.

use vstd::prelude::*;

use crate::cast::{cast_op_for, cpu_cast, Cast};
use crate::concat::{concat_expected, concat_ok, cpu_concat, first_bad_dt, Concat};
use crate::gemm::{gemm, gemm_cell};
use crate::rope::{cpu_rope, rope_rel, RoPE};
use crate::scalar::{backend_ok, binary_rel, scalar_map, scalar_zip, unary_rel, ScalarOp};
use crate::select::{cpu_index_select, sel_expected, sel_ok, IndexSelect};
use crate::shape::{prod, suffix_prod, Strides};
use crate::tensor::{dequant_all_rel, DType, OperationError, OpKind, Tensor};

verus! {

/// The arithmetic a binary node performs on paired elements.
#[derive(Clone, Copy, PartialEq, Eq, Structural, Debug)]
pub enum BinaryOp {
    Add,
    Sub,
    Mul,
    Div,
}

/// The elementwise function a unary node applies.
#[derive(Clone, Copy, PartialEq, Eq, Structural, Debug)]
pub enum UnaryOp {
    Neg,
    Exp,
    Ln,
    Sin,
    Cos,
}

/// The backend operation a binary node's arithmetic maps to.
pub open spec fn binary_scalar_op(op: BinaryOp) -> ScalarOp {
    match op {
        BinaryOp::Add => ScalarOp::Add,
        BinaryOp::Sub => ScalarOp::Sub,
        BinaryOp::Mul => ScalarOp::Mul,
        BinaryOp::Div => ScalarOp::Div,
    }
}

/// The backend operation a unary node's function maps to.
pub open spec fn unary_scalar_op(op: UnaryOp) -> ScalarOp {
    match op {
        UnaryOp::Neg => ScalarOp::Neg,
        UnaryOp::Exp => ScalarOp::Exp,
        UnaryOp::Ln => ScalarOp::Ln,
        UnaryOp::Sin => ScalarOp::Sin,
        UnaryOp::Cos => ScalarOp::Cos,
    }
}

/// A recorded elementwise binary node.
pub struct Binary {
    pub op: BinaryOp,
    pub lhs: Tensor,
    pub rhs: Tensor,
}

/// A recorded elementwise unary node.
pub struct Unary {
    pub op: UnaryOp,
    pub input: Tensor,
}

/// A recorded matrix-multiply node over two rank-2 operands.
pub struct Matmul {
    pub a: Tensor,
    pub b: Tensor,
}

/// A recorded operation node: a tagged variant over every operation kind the
/// engine knows, several of which have no kernel yet and fail loudly at
/// evaluation time.
pub enum LazyOp {
    Binary(Binary),
    Cast(Cast),
    Matmul(Matmul),
    Softmax,
    RoPE(RoPE),
    Unary(Unary),
    Reindex,
    Concat(Concat),
    Norm,
    Conv,
    Select(IndexSelect),
    IndexWrite,
    Cache,
    Const,
    View,
}

fn binary_tag(op: BinaryOp) -> (r: ScalarOp)
    ensures
        r == binary_scalar_op(op),
{
    match op {
        BinaryOp::Add => ScalarOp::Add,
        BinaryOp::Sub => ScalarOp::Sub,
        BinaryOp::Mul => ScalarOp::Mul,
        BinaryOp::Div => ScalarOp::Div,
    }
}

fn unary_tag(op: UnaryOp) -> (r: ScalarOp)
    ensures
        r == unary_scalar_op(op),
{
    match op {
        UnaryOp::Neg => ScalarOp::Neg,
        UnaryOp::Exp => ScalarOp::Exp,
        UnaryOp::Ln => ScalarOp::Ln,
        UnaryOp::Sin => ScalarOp::Sin,
        UnaryOp::Cos => ScalarOp::Cos,
    }
}

/// Evaluates one recorded binary node: both operands must be binary32; the
/// result pairs their logical elements through the backend.
pub fn apply_binary<F: Fn(ScalarOp, u32, u32) -> u32 + Copy>(b: Binary, dst: Tensor, sc: F) -> (r:
    Result<Tensor, OperationError>)
    requires
        backend_ok(sc),
        b.lhs.wf(),
        b.rhs.wf(),
        b.lhs.dt_spec() is F32 && b.rhs.dt_spec() is F32 ==> {
            &&& b.lhs.numel_spec() == b.rhs.numel_spec()
            &&& dst.dims() == b.lhs.dims()
            &&& forall|d: int|
                0 <= d <= dst.dims().len() ==> suffix_prod(dst.dims(), d) <= usize::MAX
        },
    ensures
        match r {
            Ok(out) => {
                &&& b.lhs.dt_spec() is F32 && b.rhs.dt_spec() is F32
                &&& out.wf()
                &&& out.is_flat()
                &&& out.dt_spec() is F32
                &&& out.dims() == b.lhs.dims()
                &&& binary_rel(
                    sc,
                    binary_scalar_op(b.op),
                    b.lhs.elems(),
                    b.rhs.elems(),
                    out.store(),
                )
            },
            Err(e) => {
                &&& !(b.lhs.dt_spec() is F32 && b.rhs.dt_spec() is F32)
                &&& e == OperationError::UnsupportedDType(
                    if !(b.lhs.dt_spec() is F32) {
                        b.lhs.dt_spec()
                    } else {
                        b.rhs.dt_spec()
                    },
                )
            },
        },
{
    if !crate::concat::dtype_eq(b.lhs.dt(), DType::F32) {
        return Err(OperationError::UnsupportedDType(b.lhs.dt()));
    }
    if !crate::concat::dtype_eq(b.rhs.dt(), DType::F32) {
        return Err(OperationError::UnsupportedDType(b.rhs.dt()));
    }
    let tag = binary_tag(b.op);
    let x = b.lhs.to_elements();
    let y = b.rhs.to_elements();
    let out = scalar_zip(sc, tag, &x, &y);
    let shp = dst.shape().clone();
    Ok(Tensor::new_contiguous(DType::F32, shp, out))
}

/// Evaluates one recorded unary node: the operand must be binary32; the
/// result maps its logical elements through the backend.
pub fn apply_unary<F: Fn(ScalarOp, u32, u32) -> u32 + Copy>(u: Unary, dst: Tensor, sc: F) -> (r:
    Result<Tensor, OperationError>)
    requires
        backend_ok(sc),
        u.input.wf(),
        u.input.dt_spec() is F32 ==> {
            &&& dst.dims() == u.input.dims()
            &&& forall|d: int|
                0 <= d <= dst.dims().len() ==> suffix_prod(dst.dims(), d) <= usize::MAX
        },
    ensures
        match r {
            Ok(out) => {
                &&& u.input.dt_spec() is F32
                &&& out.wf()
                &&& out.is_flat()
                &&& out.dt_spec() is F32
                &&& out.dims() == u.input.dims()
                &&& unary_rel(sc, unary_scalar_op(u.op), u.input.elems(), out.store())
            },
            Err(e) => {
                &&& !(u.input.dt_spec() is F32)
                &&& e == OperationError::UnsupportedDType(u.input.dt_spec())
            },
        },
{
    if !crate::concat::dtype_eq(u.input.dt(), DType::F32) {
        return Err(OperationError::UnsupportedDType(u.input.dt()));
    }
    let tag = unary_tag(u.op);
    let x = u.input.to_elements();
    let out = scalar_map(sc, tag, &x);
    let shp = dst.shape().clone();
    Ok(Tensor::new_contiguous(DType::F32, shp, out))
}

/// Evaluates one recorded matmul node over two rank-2 binary32 operands of
/// shapes `[m, k]` and `[k, n]`: every entry of the `[m, n]` result is the
/// backend dot product of its row and column.
pub fn apply_matmul<F: Fn(ScalarOp, u32, u32) -> u32 + Copy>(mm: Matmul, dst: Tensor, sc: F) -> (r:
    Result<Tensor, OperationError>)
    requires
        backend_ok(sc),
        mm.a.wf(),
        mm.b.wf(),
        mm.a.dt_spec() is F32 && mm.b.dt_spec() is F32 ==> {
            &&& mm.a.dims().len() == 2
            &&& mm.b.dims().len() == 2
            &&& mm.a.dims()[1] == mm.b.dims()[0]
            &&& dst.dims() =~= seq![mm.a.dims()[0], mm.b.dims()[1]]
            &&& prod(dst.dims()) <= usize::MAX
        },
    ensures
        match r {
            Ok(out) => {
                &&& mm.a.dt_spec() is F32 && mm.b.dt_spec() is F32
                &&& out.wf()
                &&& out.is_flat()
                &&& out.dt_spec() is F32
                &&& out.dims() == dst.dims()
                &&& out.store().len() == mm.a.dims()[0] * mm.b.dims()[1]
                &&& forall|i: int, j: int|
                    0 <= i < mm.a.dims()[0] && 0 <= j < mm.b.dims()[1] ==> #[trigger] gemm_cell(
                        sc,
                        mm.a.elems(),
                        mm.a.dims()[1] as int,
                        1,
                        mm.b.elems(),
                        mm.b.dims()[1] as int,
                        1,
                        mm.a.dims()[0] as int,
                        mm.b.dims()[1] as int,
                        mm.a.dims()[1] as int,
                        out.store(),
                        0,
                        i,
                        j,
                    )
            },
            Err(e) => {
                &&& !(mm.a.dt_spec() is F32 && mm.b.dt_spec() is F32)
                &&& e == OperationError::UnsupportedDType(
                    if !(mm.a.dt_spec() is F32) {
                        mm.a.dt_spec()
                    } else {
                        mm.b.dt_spec()
                    },
                )
            },
        },
{
    if !crate::concat::dtype_eq(mm.a.dt(), DType::F32) {
        return Err(OperationError::UnsupportedDType(mm.a.dt()));
    }
    if !crate::concat::dtype_eq(mm.b.dt(), DType::F32) {
        return Err(OperationError::UnsupportedDType(mm.b.dt()));
    }
    let m = mm.a.shape().at(0);
    let k = mm.a.shape().at(1);
    let n = mm.b.shape().at(1);
    let av = mm.a.to_elements();
    let bv = mm.b.to_elements();
    let mut asv: Vec<usize> = Vec::new();
    asv.push(k);
    asv.push(1);
    let a_strides = Strides::new(asv);
    let mut bsv: Vec<usize> = Vec::new();
    bsv.push(n);
    bsv.push(1);
    let b_strides = Strides::new(bsv);
    proof {
        crate::rope::lemma_rank2_values(mm.a.dims());
        crate::rope::lemma_rank2_values(mm.b.dims());
        crate::rope::lemma_rank2_values(dst.dims());
        assert(av@.len() == (m as nat) * (k as nat));
        assert(bv@.len() == (k as nat) * (n as nat));
        assert((m as nat) * (k as nat) <= usize::MAX);
        assert((k as nat) * (n as nat) <= usize::MAX) by (nonlinear_arith)
            requires
                (k as nat) * (n as nat) == prod(mm.b.dims()),
                prod(mm.b.dims()) <= usize::MAX,
        ;
        if m > 0 && k > 0 {
            assert(0nat * ((m as nat) * (k as nat)) + ((m - 1) as nat) * (k as nat) + ((k
                - 1) as nat) * 1nat < (m as nat) * (k as nat)) by (nonlinear_arith)
                requires
                    m > 0,
                    k > 0,
            ;
        }
        if n > 0 && k > 0 {
            assert(0nat * ((k as nat) * (n as nat)) + ((k - 1) as nat) * (n as nat) + ((n
                - 1) as nat) * 1nat < (k as nat) * (n as nat)) by (nonlinear_arith)
                requires
                    n > 0,
                    k > 0,
            ;
        }
    }
    let out = gemm(&av, &a_strides, &bv, &b_strides, 1, m, n, k, sc);
    let shp = dst.shape().clone();
    proof {
        assert(1nat * (m as nat) * (n as nat) == (m as nat) * (n as nat)) by (nonlinear_arith);
        crate::rope::lemma_rank2_values(dst.dims());
        assert forall|d: int| 0 <= d <= dst.dims().len() implies suffix_prod(dst.dims(), d)
            <= usize::MAX by {
            if d == 0 {
            } else if d == 1 {
            } else {
            }
        }
    }
    let result_t = Tensor::new_contiguous(DType::F32, shp, out);
    proof {
        assert(a_strides@[0] == k && a_strides@[1] == 1);
        assert(b_strides@[0] == n && b_strides@[1] == 1);
        assert forall|i: int, j: int| 0 <= i < mm.a.dims()[0] && 0 <= j < mm.b.dims()[1] implies
            #[trigger] gemm_cell(
            sc,
            mm.a.elems(),
            mm.a.dims()[1] as int,
            1,
            mm.b.elems(),
            mm.b.dims()[1] as int,
            1,
            mm.a.dims()[0] as int,
            mm.b.dims()[1] as int,
            mm.a.dims()[1] as int,
            result_t.store(),
            0,
            i,
            j,
        ) by {
            assert(gemm_cell(
                sc,
                av@,
                a_strides@[0] as int,
                a_strides@[1] as int,
                bv@,
                b_strides@[0] as int,
                b_strides@[1] as int,
                m as int,
                n as int,
                k as int,
                out@,
                0,
                i,
                j,
            ));
        }
    }
    Ok(result_t)
}


/// Evaluates one recorded operation node against a pre-allocated destination:
/// exactly one kernel runs, chosen by operation kind and dtype, and the
/// filled result comes back. Every kind without a kernel — softmax, reindex,
/// norm, convolution, index-write, cache, constant, view — is an explicit
/// "not implemented" error.
pub fn apply_operation<F: Fn(ScalarOp, u32, u32) -> u32 + Copy>(
    op: LazyOp,
    dst: Tensor,
    sc: F,
) -> (r: Result<Tensor, OperationError>)
    requires
        backend_ok(sc),
        match op {
            LazyOp::Binary(b) => {
                &&& b.lhs.wf()
                &&& b.rhs.wf()
                &&& (b.lhs.dt_spec() is F32 && b.rhs.dt_spec() is F32 ==> {
                    &&& b.lhs.numel_spec() == b.rhs.numel_spec()
                    &&& dst.dims() == b.lhs.dims()
                    &&& forall|d: int|
                        0 <= d <= dst.dims().len() ==> suffix_prod(dst.dims(), d) <= usize::MAX
                })
            },
            LazyOp::Cast(c) => {
                &&& c.input.wf()
                &&& (cast_op_for(c.input.dt_spec(), c.dst_dt) is Some ==> {
                    &&& dst.dims() == c.input.dims()
                    &&& forall|d: int|
                        0 <= d <= dst.dims().len() ==> suffix_prod(dst.dims(), d) <= usize::MAX
                })
            },
            LazyOp::Matmul(m) => {
                &&& m.a.wf()
                &&& m.b.wf()
                &&& (m.a.dt_spec() is F32 && m.b.dt_spec() is F32 ==> {
                    &&& m.a.dims().len() == 2
                    &&& m.b.dims().len() == 2
                    &&& m.a.dims()[1] == m.b.dims()[0]
                    &&& dst.dims() =~= seq![m.a.dims()[0], m.b.dims()[1]]
                    &&& prod(dst.dims()) <= usize::MAX
                })
            },
            LazyOp::RoPE(rp) => {
                &&& rp.input.wf()
                &&& (rp.input.dt_spec() is F32 ==> {
                    &&& rp.input.dims().len() == 4
                    &&& forall|d: int| 0 <= d < 4 ==> #[trigger] rp.input.dims()[d] >= 1
                    &&& rp.dim % 2 == 0
                    &&& 2 <= rp.dim <= rp.input.dims()[3]
                    &&& forall|d: int|
                        0 <= d <= 4 ==> suffix_prod(rp.input.dims(), d) <= usize::MAX
                    &&& rp.offset + rp.input.dims()[2] <= u32::MAX
                    &&& rp.dim <= u32::MAX
                    &&& dst.dims() == rp.input.dims()
                })
            },
            LazyOp::Unary(u) => {
                &&& u.input.wf()
                &&& (u.input.dt_spec() is F32 ==> {
                    &&& dst.dims() == u.input.dims()
                    &&& forall|d: int|
                        0 <= d <= dst.dims().len() ==> suffix_prod(dst.dims(), d) <= usize::MAX
                })
            },
            LazyOp::Concat(c) => {
                &&& dst.wf()
                &&& (matches!(dst.dt_spec(), DType::F32 | DType::F16 | DType::BF16) ==> {
                    &&& forall|t: int| 0 <= t < c.inputs@.len() ==> (#[trigger] c.inputs@[t]).wf()
                    &&& concat_ok(
                        crate::tensor::tensors_view(c.inputs@),
                        c.dim as int,
                        dst.dims(),
                    )
                    &&& prod(dst.dims().subrange(0, c.dim as int)) <= usize::MAX
                    &&& forall|d: int|
                        0 <= d <= dst.dims().len() ==> suffix_prod(dst.dims(), d) <= usize::MAX
                })
            },
            LazyOp::Select(i) => {
                &&& i.src.wf()
                &&& i.indices.wf()
                &&& i.indices.dims().len() == 1
                &&& (i.indices.dt_spec() is I32 ==> {
                    &&& sel_ok(i.src.dims(), i.dim as int, i.indices.elems())
                    &&& dst.wf()
                    &&& dst.dims() =~= i.src.dims().update(
                        i.dim as int,
                        i.indices.dims()[0],
                    )
                    &&& prod(i.src.dims().subrange(0, i.dim as int)) <= usize::MAX
                    &&& prod(dst.dims()) <= usize::MAX
                    &&& forall|d: int|
                        0 <= d <= i.src.dims().len() ==> suffix_prod(i.src.dims(), d)
                            <= usize::MAX
                    &&& forall|d: int|
                        0 <= d <= dst.dims().len() ==> suffix_prod(dst.dims(), d) <= usize::MAX
                })
            },
            _ => true,
        },
    ensures
        match op {
            LazyOp::Binary(b) => match r {
                Ok(out) => {
                    &&& b.lhs.dt_spec() is F32 && b.rhs.dt_spec() is F32
                    &&& out.wf()
                    &&& out.is_flat()
                    &&& out.dt_spec() is F32
                    &&& out.dims() == b.lhs.dims()
                    &&& binary_rel(
                        sc,
                        binary_scalar_op(b.op),
                        b.lhs.elems(),
                        b.rhs.elems(),
                        out.store(),
                    )
                },
                Err(e) => {
                    &&& !(b.lhs.dt_spec() is F32 && b.rhs.dt_spec() is F32)
                    &&& e == OperationError::UnsupportedDType(
                        if !(b.lhs.dt_spec() is F32) {
                            b.lhs.dt_spec()
                        } else {
                            b.rhs.dt_spec()
                        },
                    )
                },
            },
            LazyOp::Cast(c) => {
                &&& (c.input.dt_spec() == c.dst_dt ==> r == Ok::<Tensor, OperationError>(c.input))
                &&& (c.input.dt_spec() != c.dst_dt ==> match cast_op_for(
                    c.input.dt_spec(),
                    c.dst_dt,
                ) {
                    Some(cop) => match r {
                        Ok(out) => {
                            &&& out.wf()
                            &&& out.is_flat()
                            &&& out.dt_spec() == c.dst_dt
                            &&& out.dims() == c.input.dims()
                            &&& unary_rel(sc, cop, c.input.elems(), out.store())
                        },
                        Err(_) => false,
                    },
                    None => r == Err::<Tensor, OperationError>(
                        OperationError::Unimplemented(OpKind::Cast),
                    ),
                })
            },
            LazyOp::Matmul(m) => match r {
                Ok(out) => {
                    &&& m.a.dt_spec() is F32 && m.b.dt_spec() is F32
                    &&& out.wf()
                    &&& out.is_flat()
                    &&& out.dt_spec() is F32
                    &&& out.dims() == dst.dims()
                    &&& out.store().len() == m.a.dims()[0] * m.b.dims()[1]
                    &&& forall|i: int, j: int|
                        0 <= i < m.a.dims()[0] && 0 <= j < m.b.dims()[1] ==> #[trigger] gemm_cell(
                            sc,
                            m.a.elems(),
                            m.a.dims()[1] as int,
                            1,
                            m.b.elems(),
                            m.b.dims()[1] as int,
                            1,
                            m.a.dims()[0] as int,
                            m.b.dims()[1] as int,
                            m.a.dims()[1] as int,
                            out.store(),
                            0,
                            i,
                            j,
                        )
                },
                Err(e) => {
                    &&& !(m.a.dt_spec() is F32 && m.b.dt_spec() is F32)
                    &&& e == OperationError::UnsupportedDType(
                        if !(m.a.dt_spec() is F32) {
                            m.a.dt_spec()
                        } else {
                            m.b.dt_spec()
                        },
                    )
                },
            },
            LazyOp::Softmax => r == Err::<Tensor, OperationError>(
                OperationError::Unimplemented(OpKind::Softmax),
            ),
            LazyOp::RoPE(rp) => match r {
                Ok(out) => {
                    &&& rp.input.dt_spec() is F32
                    &&& out.wf()
                    &&& out.is_flat()
                    &&& out.dt_spec() == DType::F32
                    &&& out.dims() == rp.input.dims()
                    &&& rope_rel(
                        sc,
                        rp.input.elems(),
                        rp.input.dims(),
                        rp.dim as int,
                        rp.base,
                        rp.offset as int,
                        out.store(),
                    )
                },
                Err(e) => {
                    &&& !(rp.input.dt_spec() is F32)
                    &&& e == OperationError::Unimplemented(OpKind::RoPE)
                },
            },
            LazyOp::Unary(u) => match r {
                Ok(out) => {
                    &&& u.input.dt_spec() is F32
                    &&& out.wf()
                    &&& out.is_flat()
                    &&& out.dt_spec() is F32
                    &&& out.dims() == u.input.dims()
                    &&& unary_rel(sc, unary_scalar_op(u.op), u.input.elems(), out.store())
                },
                Err(e) => {
                    &&& !(u.input.dt_spec() is F32)
                    &&& e == OperationError::UnsupportedDType(u.input.dt_spec())
                },
            },
            LazyOp::Reindex => r == Err::<Tensor, OperationError>(
                OperationError::Unimplemented(OpKind::Reindex),
            ),
            LazyOp::Concat(c) => match dst.dt_spec() {
                DType::F32 | DType::F16 | DType::BF16 => match r {
                    Ok(out) => {
                        &&& forall|t: int|
                            0 <= t < c.inputs@.len() ==> (#[trigger] c.inputs@[t]).dt_spec()
                                == dst.dt_spec()
                        &&& out.wf()
                        &&& out.is_flat()
                        &&& out.dt_spec() == dst.dt_spec()
                        &&& out.dims() == dst.dims()
                        &&& out.store() == concat_expected(
                            crate::tensor::tensors_view(c.inputs@),
                            c.dim as int,
                            dst.dims(),
                        )
                    },
                    Err(e) => {
                        let bad = first_bad_dt(c.inputs@, dst.dt_spec(), 0);
                        &&& bad < c.inputs@.len()
                        &&& e == (OperationError::DTypeMismatch {
                            expected: dst.dt_spec(),
                            actual: c.inputs@[bad].dt_spec(),
                        })
                    },
                },
                dt => r == Err::<Tensor, OperationError>(OperationError::UnsupportedDType(dt)),
            },
            LazyOp::Norm => r == Err::<Tensor, OperationError>(
                OperationError::Unimplemented(OpKind::Norm),
            ),
            LazyOp::Conv => r == Err::<Tensor, OperationError>(
                OperationError::Unimplemented(OpKind::Conv),
            ),
            LazyOp::Select(i) => match i.src.dt_spec() {
                DType::F32 | DType::F16 | DType::BF16 => match r {
                    Ok(out) => {
                        &&& i.indices.dt_spec() is I32
                        &&& out.wf()
                        &&& out.is_flat()
                        &&& out.dt_spec() == i.src.dt_spec()
                        &&& out.dims() == dst.dims()
                        &&& out.store() == sel_expected(
                            i.src.elems(),
                            i.src.dims(),
                            i.dim as int,
                            i.indices.elems(),
                        )
                    },
                    Err(e) => {
                        &&& !(i.indices.dt_spec() is I32)
                        &&& e == (OperationError::DTypeMismatch {
                            expected: DType::I32,
                            actual: i.indices.dt_spec(),
                        })
                    },
                },
                DType::Q8_0F(_) => match r {
                    Ok(out) => {
                        &&& i.indices.dt_spec() is I32
                        &&& out.wf()
                        &&& out.is_flat()
                        &&& out.dt_spec() == DType::F32
                        &&& out.dims() == dst.dims()
                        &&& exists|dq: Seq<u32>|
                            #[trigger] dequant_all_rel(sc, i.src, dq) && out.store()
                                == sel_expected(
                                dq,
                                i.src.dims(),
                                i.dim as int,
                                i.indices.elems(),
                            )
                    },
                    Err(e) => {
                        &&& !(i.indices.dt_spec() is I32)
                        &&& e == (OperationError::DTypeMismatch {
                            expected: DType::I32,
                            actual: i.indices.dt_spec(),
                        })
                    },
                },
                dt => r == Err::<Tensor, OperationError>(OperationError::UnsupportedDType(dt)),
            },
            LazyOp::IndexWrite => r == Err::<Tensor, OperationError>(
                OperationError::Unimplemented(OpKind::IndexWrite),
            ),
            LazyOp::Cache => r == Err::<Tensor, OperationError>(
                OperationError::Unimplemented(OpKind::Cache),
            ),
            LazyOp::Const => r == Err::<Tensor, OperationError>(
                OperationError::Unimplemented(OpKind::Const),
            ),
            LazyOp::View => r == Err::<Tensor, OperationError>(
                OperationError::Unimplemented(OpKind::View),
            ),
        },
{
    match op {
        LazyOp::Binary(b) => apply_binary(b, dst, sc),
        LazyOp::Cast(c) => cpu_cast(c, dst, sc),
        LazyOp::Matmul(m) => apply_matmul(m, dst, sc),
        LazyOp::Softmax => Err(OperationError::Unimplemented(OpKind::Softmax)),
        LazyOp::RoPE(rp) => cpu_rope(rp, dst, sc),
        LazyOp::Unary(u) => apply_unary(u, dst, sc),
        LazyOp::Reindex => Err(OperationError::Unimplemented(OpKind::Reindex)),
        LazyOp::Concat(c) => cpu_concat(c, dst),
        LazyOp::Norm => Err(OperationError::Unimplemented(OpKind::Norm)),
        LazyOp::Conv => Err(OperationError::Unimplemented(OpKind::Conv)),
        LazyOp::Select(i) => cpu_index_select(i, dst, sc),
        LazyOp::IndexWrite => Err(OperationError::Unimplemented(OpKind::IndexWrite)),
        LazyOp::Cache => Err(OperationError::Unimplemented(OpKind::Cache)),
        LazyOp::Const => Err(OperationError::Unimplemented(OpKind::Const)),
        LazyOp::View => Err(OperationError::Unimplemented(OpKind::View)),
    }
}


/// Evaluation against a pre-allocated destination: the calling shape every
/// node with a CPU kernel exposes to the dispatcher. Each implementor names
/// its own admission condition and its own result description.
pub trait CPUOperation: Sized {
    /// What this node demands of its operands and destination.
    spec fn cpu_req(&self, dst: Tensor) -> bool;

    /// Evaluates this node against the destination. What the result holds is
    /// stated on the node kind's own kernel (`apply_binary`, `apply_unary`,
    /// `apply_matmul`), whose contract the implementation forwards to.
    fn apply_cpu<F: Fn(ScalarOp, u32, u32) -> u32 + Copy>(self, dst: Tensor, sc: F) -> (r: Result<
        Tensor,
        OperationError,
    >)
        requires
            backend_ok(sc),
            self.cpu_req(dst),
    ;
}

impl CPUOperation for Binary {
    open spec fn cpu_req(&self, dst: Tensor) -> bool {
        &&& self.lhs.wf()
        &&& self.rhs.wf()
        &&& (self.lhs.dt_spec() is F32 && self.rhs.dt_spec() is F32 ==> {
            &&& self.lhs.numel_spec() == self.rhs.numel_spec()
            &&& dst.dims() == self.lhs.dims()
            &&& forall|d: int|
                0 <= d <= dst.dims().len() ==> suffix_prod(dst.dims(), d) <= usize::MAX
        })
    }


    fn apply_cpu<F: Fn(ScalarOp, u32, u32) -> u32 + Copy>(self, dst: Tensor, sc: F) -> (r: Result<
        Tensor,
        OperationError,
    >) {
        apply_binary(self, dst, sc)
    }
}

impl CPUOperation for Unary {
    open spec fn cpu_req(&self, dst: Tensor) -> bool {
        &&& self.input.wf()
        &&& (self.input.dt_spec() is F32 ==> {
            &&& dst.dims() == self.input.dims()
            &&& forall|d: int|
                0 <= d <= dst.dims().len() ==> suffix_prod(dst.dims(), d) <= usize::MAX
        })
    }


    fn apply_cpu<F: Fn(ScalarOp, u32, u32) -> u32 + Copy>(self, dst: Tensor, sc: F) -> (r: Result<
        Tensor,
        OperationError,
    >) {
        apply_unary(self, dst, sc)
    }
}

impl CPUOperation for Matmul {
    open spec fn cpu_req(&self, dst: Tensor) -> bool {
        &&& self.a.wf()
        &&& self.b.wf()
        &&& (self.a.dt_spec() is F32 && self.b.dt_spec() is F32 ==> {
            &&& self.a.dims().len() == 2
            &&& self.b.dims().len() == 2
            &&& self.a.dims()[1] == self.b.dims()[0]
            &&& dst.dims() =~= seq![self.a.dims()[0], self.b.dims()[1]]
            &&& prod(dst.dims()) <= usize::MAX
        })
    }


    fn apply_cpu<F: Fn(ScalarOp, u32, u32) -> u32 + Copy>(self, dst: Tensor, sc: F) -> (r: Result<
        Tensor,
        OperationError,
    >) {
        apply_matmul(self, dst, sc)
    }
}

} // verus!
