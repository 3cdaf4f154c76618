//! Casting between dtypes, one element at a time. A cast to the same dtype
//! returns the input unchanged without copying; a supported pair converts
//! every element through the backend; an unsupported pair is an explicit
//! unimplemented condition, never a silent pass-through.

use vstd::prelude::*;

use crate::scalar::{backend_ok, scalar_map, unary_rel, ScalarOp};
use crate::shape::{is_canonical, suffix_prod};
use crate::tensor::{DType, OperationError, OpKind, Tensor};

verus! {

/// A recorded cast node: the input and the dtype to produce.
pub struct Cast {
    pub input: Tensor,
    pub dst_dt: DType,
}

/// The backend conversion for a dtype pair, or `None` where no kernel
/// exists. Between binary32 and the integer dtypes the conversion is by
/// value (truncation toward zero, or rounding), never a bit
/// reinterpretation.
pub open spec fn cast_op_for(src: DType, dst: DType) -> Option<ScalarOp> {
    match (src, dst) {
        (DType::F32, DType::F16) => Some(ScalarOp::F32ToF16),
        (DType::F32, DType::BF16) => Some(ScalarOp::F32ToBf16),
        (DType::F32, DType::I32) => Some(ScalarOp::F32ToI32),
        (DType::F32, DType::U32) => Some(ScalarOp::F32ToU32),
        (DType::F16, DType::F32) => Some(ScalarOp::F16ToF32),
        (DType::BF16, DType::F32) => Some(ScalarOp::Bf16ToF32),
        (DType::I32, DType::F32) => Some(ScalarOp::I32ToF32),
        (DType::U32, DType::F32) => Some(ScalarOp::U32ToF32),
        _ => None,
    }
}

fn cast_op(src: DType, dst: DType) -> (r: Option<ScalarOp>)
    ensures
        r == cast_op_for(src, dst),
{
    match (src, dst) {
        (DType::F32, DType::F16) => Some(ScalarOp::F32ToF16),
        (DType::F32, DType::BF16) => Some(ScalarOp::F32ToBf16),
        (DType::F32, DType::I32) => Some(ScalarOp::F32ToI32),
        (DType::F32, DType::U32) => Some(ScalarOp::F32ToU32),
        (DType::F16, DType::F32) => Some(ScalarOp::F16ToF32),
        (DType::BF16, DType::F32) => Some(ScalarOp::Bf16ToF32),
        (DType::I32, DType::F32) => Some(ScalarOp::I32ToF32),
        (DType::U32, DType::F32) => Some(ScalarOp::U32ToF32),
        _ => None,
    }
}

/// Converts a tensor to the destination dtype. A cast to the input's own
/// dtype returns the input itself, uncopied; a supported pair produces a
/// fresh contiguous tensor whose every element is the backend's conversion
/// of the corresponding input element; an unsupported pair is reported
/// unimplemented.
pub fn cpu_cast<F: Fn(ScalarOp, u32, u32) -> u32 + Copy>(cast: Cast, dst: Tensor, sc: F) -> (r:
    Result<Tensor, OperationError>)
    requires
        backend_ok(sc),
        cast.input.wf(),
        cast_op_for(cast.input.dt_spec(), cast.dst_dt) is Some ==> {
            &&& dst.dims() == cast.input.dims()
            &&& forall|d: int|
                0 <= d <= dst.dims().len() ==> suffix_prod(dst.dims(), d) <= usize::MAX
        },
    ensures
        cast.input.dt_spec() == cast.dst_dt ==> r == Ok::<Tensor, OperationError>(cast.input),
        cast.input.dt_spec() != cast.dst_dt ==> match cast_op_for(
            cast.input.dt_spec(),
            cast.dst_dt,
        ) {
            Some(op) => match r {
                Ok(out) => {
                    &&& out.wf()
                    &&& out.is_flat()
                    &&& out.dt_spec() == cast.dst_dt
                    &&& out.dims() == cast.input.dims()
                    &&& is_canonical(out.dims(), out.steps())
                    &&& unary_rel(sc, op, cast.input.elems(), out.store())
                },
                Err(_) => false,
            },
            None => r == Err::<Tensor, OperationError>(
                OperationError::Unimplemented(OpKind::Cast),
            ),
        },
{
    if crate::concat::dtype_eq(cast.input.dt(), cast.dst_dt) {
        return Ok(cast.input);
    }
    match cast_op(cast.input.dt(), cast.dst_dt) {
        Some(op) => {
            let src = cast.input.to_elements();
            let out = scalar_map(sc, op, &src);
            let shp = dst.shape().clone();
            Ok(Tensor::new_contiguous(cast.dst_dt, shp, out))
        },
        None => Err(OperationError::Unimplemented(OpKind::Cast)),
    }
}

} // verus!
