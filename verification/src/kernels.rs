//! Dtype-polymorphic elementwise kernels: unary apply (`dst[i] = f(src[i])`)
//! and binary apply (`dst[i] = f(lhs[i], rhs[i])`), generic over the element
//! types and the scalar function, over fully materialized slices of equal
//! length, plus an in-place variant that overwrites the left operand.

use vstd::prelude::*;
use vstd::pervasive::VecAdditionalExecFns;

use crate::tensor::{OperationError, Tensor};

verus! {

/// `dst` is, element for element, an output of `f` on `src`.
pub open spec fn map_rel<T, U, F: Fn(T) -> U>(f: F, src: Seq<T>, dst: Seq<U>) -> bool {
    &&& dst.len() == src.len()
    &&& forall|i: int| 0 <= i < src.len() ==> call_ensures(f, (src[i],), #[trigger] dst[i])
}

/// `dst` is, element for element, an output of `f` on the paired elements of
/// `a` and `b`.
pub open spec fn zip_rel<T, U, F: Fn(T, T) -> U>(f: F, a: Seq<T>, b: Seq<T>, dst: Seq<U>) -> bool {
    &&& dst.len() == a.len()
    &&& b.len() == a.len()
    &&& forall|i: int| 0 <= i < a.len() ==> call_ensures(f, (a[i], b[i]), #[trigger] dst[i])
}

/// Applies `f` to every element of `src`, writing over `dst`; the slice
/// lengths must agree.
pub fn unary_apply_fn_helper<T: Copy, U, F: Fn(T) -> U>(src: &Vec<T>, dst: &mut Vec<U>, f: F)
    requires
        old(dst)@.len() == src@.len(),
        forall|i: int| #![trigger src@[i]] 0 <= i < src@.len() ==> call_requires(f, (src@[i],)),
    ensures
        map_rel(f, src@, final(dst)@),
{
    let n = src.len();
    let mut i: usize = 0;
    while i < n
        invariant
            n == src@.len(),
            dst@.len() == n,
            forall|t: int| #![trigger src@[t]] 0 <= t < n ==> call_requires(f, (src@[t],)),
            i <= n,
            forall|t: int| 0 <= t < i ==> call_ensures(f, (src@[t],), #[trigger] dst@[t]),
        decreases n - i,
    {
        let v = f(src[i]);
        dst.set(i, v);
        i += 1;
    }
}

/// Applies `f` to the paired elements of `lhs` and `rhs`, writing over `dst`;
/// all three lengths must agree.
pub fn binary_apply_fn_helper<T: Copy, U, F: Fn(T, T) -> U>(
    lhs: &Vec<T>,
    rhs: &Vec<T>,
    dst: &mut Vec<U>,
    f: F,
)
    requires
        lhs@.len() == old(dst)@.len(),
        rhs@.len() == old(dst)@.len(),
        forall|i: int|
            #![trigger lhs@[i]]
            0 <= i < lhs@.len() ==> call_requires(f, (lhs@[i], rhs@[i])),
    ensures
        zip_rel(f, lhs@, rhs@, final(dst)@),
{
    let n = lhs.len();
    let mut i: usize = 0;
    while i < n
        invariant
            n == lhs@.len(),
            rhs@.len() == n,
            dst@.len() == n,
            forall|t: int| #![trigger lhs@[t]] 0 <= t < n ==> call_requires(f, (lhs@[t], rhs@[t])),
            i <= n,
            forall|t: int| 0 <= t < i ==> call_ensures(f, (lhs@[t], rhs@[t]), #[trigger] dst@[t]),
        decreases n - i,
    {
        let v = f(lhs[i], rhs[i]);
        dst.set(i, v);
        i += 1;
    }
}

/// Applies `f` to the paired elements in place, overwriting the left operand
/// to avoid an extra allocation; the lengths must agree.
pub fn binary_apply_inplace_helper<T: Copy, F: Fn(T, T) -> T>(lhs: &mut Vec<T>, rhs: &Vec<T>, f: F)
    requires
        old(lhs)@.len() == rhs@.len(),
        forall|i: int|
            #![trigger old(lhs)@[i]]
            0 <= i < old(lhs)@.len() ==> call_requires(f, (old(lhs)@[i], rhs@[i])),
    ensures
        zip_rel(f, old(lhs)@, rhs@, final(lhs)@),
{
    let ghost lhs0 = lhs@;
    let n = lhs.len();
    let mut i: usize = 0;
    while i < n
        invariant
            n == lhs0.len(),
            rhs@.len() == n,
            lhs@.len() == n,
            forall|t: int| #![trigger lhs0[t]] 0 <= t < n ==> call_requires(f, (lhs0[t], rhs@[t])),
            i <= n,
            forall|t: int| i <= t < n ==> lhs@[t] == lhs0[t],
            forall|t: int| 0 <= t < i ==> call_ensures(f, (lhs0[t], rhs@[t]), #[trigger] lhs@[t]),
        decreases n - i,
    {
        let v = f(lhs[i], rhs[i]);
        lhs.set(i, v);
        i += 1;
    }
}

/// Applies `f` to every logical element of a plain input tensor and fills
/// the contiguous destination with the results. A quantized input has no
/// flat element view and is reported unsupported.
pub fn unary_apply_fn<F: Fn(u32) -> u32>(input: &Tensor, dst: &mut Tensor, f: F) -> (r: Result<
    (),
    OperationError,
>)
    requires
        input.wf(),
        old(dst).wf(),
        old(dst).is_flat(),
        old(dst).store().len() == old(dst).numel_spec(),
        input.numel_spec() == old(dst).numel_spec(),
        forall|x: u32| #[trigger] call_requires(f, (x,)),
    ensures
        final(dst).dt_spec() == old(dst).dt_spec(),
        final(dst).dims() == old(dst).dims(),
        final(dst).steps() == old(dst).steps(),
        final(dst).wf(),
        final(dst).is_flat(),
        input.is_flat() ==> r is Ok && map_rel(f, input.elems(), final(dst).store()),
        !input.is_flat() ==> r == Err::<(), OperationError>(
            OperationError::UnsupportedDType(input.dt_spec()),
        ) && *final(dst) == *old(dst),
{
    if !input.is_plain() {
        return Err(OperationError::UnsupportedDType(input.dt()));
    }
    let src = input.to_elements();
    let mut buf = crate::tensor::zero_vec(dst.numel());
    unary_apply_fn_helper(&src, &mut buf, f);
    dst.replace_store(buf);
    Ok(())
}

/// Applies `f` to the paired logical elements of two plain input tensors and
/// fills the contiguous destination with the results.
pub fn binary_apply_fn<F: Fn(u32, u32) -> u32>(
    lhs: &Tensor,
    rhs: &Tensor,
    dst: &mut Tensor,
    f: F,
) -> (r: Result<(), OperationError>)
    requires
        lhs.wf(),
        rhs.wf(),
        old(dst).wf(),
        old(dst).is_flat(),
        old(dst).store().len() == old(dst).numel_spec(),
        lhs.numel_spec() == old(dst).numel_spec(),
        rhs.numel_spec() == old(dst).numel_spec(),
        forall|x: u32, y: u32| #[trigger] call_requires(f, (x, y)),
    ensures
        final(dst).dt_spec() == old(dst).dt_spec(),
        final(dst).dims() == old(dst).dims(),
        final(dst).steps() == old(dst).steps(),
        final(dst).wf(),
        final(dst).is_flat(),
        lhs.is_flat() && rhs.is_flat() ==> r is Ok && zip_rel(
            f,
            lhs.elems(),
            rhs.elems(),
            final(dst).store(),
        ),
        !lhs.is_flat() ==> r == Err::<(), OperationError>(
            OperationError::UnsupportedDType(lhs.dt_spec()),
        ) && *final(dst) == *old(dst),
        lhs.is_flat() && !rhs.is_flat() ==> r == Err::<(), OperationError>(
            OperationError::UnsupportedDType(rhs.dt_spec()),
        ) && *final(dst) == *old(dst),
{
    if !lhs.is_plain() {
        return Err(OperationError::UnsupportedDType(lhs.dt()));
    }
    if !rhs.is_plain() {
        return Err(OperationError::UnsupportedDType(rhs.dt()));
    }
    let a = lhs.to_elements();
    let b = rhs.to_elements();
    let mut buf = crate::tensor::zero_vec(dst.numel());
    binary_apply_fn_helper(&a, &b, &mut buf, f);
    dst.replace_store(buf);
    Ok(())
}

/// Applies `f` to the paired logical elements of two plain input tensors,
/// accumulating into the left operand's materialized buffer, and fills the
/// contiguous destination with it.
pub fn binary_apply_inplace<F: Fn(u32, u32) -> u32>(
    lhs: &Tensor,
    rhs: &Tensor,
    dst: &mut Tensor,
    f: F,
) -> (r: Result<(), OperationError>)
    requires
        lhs.wf(),
        rhs.wf(),
        old(dst).wf(),
        old(dst).is_flat(),
        old(dst).store().len() == old(dst).numel_spec(),
        lhs.numel_spec() == old(dst).numel_spec(),
        rhs.numel_spec() == old(dst).numel_spec(),
        forall|x: u32, y: u32| #[trigger] call_requires(f, (x, y)),
    ensures
        final(dst).dt_spec() == old(dst).dt_spec(),
        final(dst).dims() == old(dst).dims(),
        final(dst).steps() == old(dst).steps(),
        final(dst).wf(),
        final(dst).is_flat(),
        lhs.is_flat() && rhs.is_flat() ==> r is Ok && zip_rel(
            f,
            lhs.elems(),
            rhs.elems(),
            final(dst).store(),
        ),
        !lhs.is_flat() ==> r == Err::<(), OperationError>(
            OperationError::UnsupportedDType(lhs.dt_spec()),
        ) && *final(dst) == *old(dst),
        lhs.is_flat() && !rhs.is_flat() ==> r == Err::<(), OperationError>(
            OperationError::UnsupportedDType(rhs.dt_spec()),
        ) && *final(dst) == *old(dst),
{
    if !lhs.is_plain() {
        return Err(OperationError::UnsupportedDType(lhs.dt()));
    }
    if !rhs.is_plain() {
        return Err(OperationError::UnsupportedDType(rhs.dt()));
    }
    let mut a = lhs.to_elements();
    let b = rhs.to_elements();
    binary_apply_inplace_helper(&mut a, &b, f);
    dst.replace_store(a);
    Ok(())
}

} // verus!
