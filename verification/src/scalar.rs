//! The numeric backend: a closed set of scalar operations over IEEE-754
//! binary32 bit patterns, evaluated by a caller-supplied function.
//!
//! The crate stores every element as a `u32` bit pattern and never performs
//! floating-point arithmetic itself. A kernel that needs a scalar numeric
//! operation takes a backend `sc: impl Fn(ScalarOp, u32, u32) -> u32 + Copy`
//! and states in its contract, through `call_ensures`, that each output
//! element is exactly what the backend returned on the corresponding inputs.

use vstd::prelude::*;

verus! {

/// One scalar numeric operation. Unary operations read only the first
/// operand; the second is passed as zero and ignored.
///
/// `Add`..`Cos` operate on binary32 bit patterns. The conversions carry a
/// value between a bit pattern and an integer: `IntToF32` rounds a `u32`
/// magnitude, `I8ToF32` reads the low 8 bits as a two's-complement byte,
/// `I32ToF32` rounds a two's-complement `i32`, and `F32ToI32` / `F32ToU32`
/// truncate toward zero. `F32ToF16`, `F32ToBf16` round to the 16-bit format,
/// returned in the low half; `F16ToF32`, `Bf16ToF32` widen the low half
/// exactly.
#[derive(Clone, Copy, PartialEq, Eq, Structural, Debug)]
pub enum ScalarOp {
    Add,
    Sub,
    Mul,
    Div,
    Neg,
    Exp,
    Ln,
    Sin,
    Cos,
    IntToF32,
    I8ToF32,
    I32ToF32,
    F32ToI32,
    F32ToU32,
    U32ToF32,
    F32ToF16,
    F16ToF32,
    F32ToBf16,
    Bf16ToF32,
}

/// The backend accepts every call: a numeric backend has no precondition.
pub open spec fn backend_ok<F: Fn(ScalarOp, u32, u32) -> u32>(sc: F) -> bool {
    forall|op: ScalarOp, a: u32, b: u32| #[trigger] call_requires(sc, (op, a, b))
}

/// `dst` is, element for element, an output of the backend's unary operation
/// `op` on `src`.
pub open spec fn unary_rel<F: Fn(ScalarOp, u32, u32) -> u32>(
    sc: F,
    op: ScalarOp,
    src: Seq<u32>,
    dst: Seq<u32>,
) -> bool {
    &&& dst.len() == src.len()
    &&& forall|i: int| 0 <= i < src.len() ==> call_ensures(sc, (op, src[i], 0u32), #[trigger] dst[i])
}

/// `dst` is, element for element, an output of the backend's binary operation
/// `op` on the paired elements of `a` and `b`.
pub open spec fn binary_rel<F: Fn(ScalarOp, u32, u32) -> u32>(
    sc: F,
    op: ScalarOp,
    a: Seq<u32>,
    b: Seq<u32>,
    dst: Seq<u32>,
) -> bool {
    &&& dst.len() == a.len()
    &&& b.len() == a.len()
    &&& forall|i: int| 0 <= i < a.len() ==> call_ensures(sc, (op, a[i], b[i]), #[trigger] dst[i])
}

/// Applies a unary backend operation to every element of a vector.
pub fn scalar_map<F: Fn(ScalarOp, u32, u32) -> u32 + Copy>(sc: F, op: ScalarOp, src: &Vec<u32>) -> (
    r: Vec<u32>)
    requires
        backend_ok(sc),
    ensures
        unary_rel(sc, op, src@, r@),
{
    let n = src.len();
    let mut r: Vec<u32> = Vec::new();
    let mut i: usize = 0;
    while i < n
        invariant
            backend_ok(sc),
            n == src@.len(),
            i <= n,
            r@.len() == i,
            forall|j: int| 0 <= j < i ==> call_ensures(sc, (op, src@[j], 0u32), #[trigger] r@[j]),
        decreases n - i,
    {
        let v = sc(op, src[i], 0);
        r.push(v);
        i += 1;
    }
    r
}

/// Applies a binary backend operation to the paired elements of two vectors
/// of equal length.
pub fn scalar_zip<F: Fn(ScalarOp, u32, u32) -> u32 + Copy>(
    sc: F,
    op: ScalarOp,
    a: &Vec<u32>,
    b: &Vec<u32>,
) -> (r: Vec<u32>)
    requires
        backend_ok(sc),
        a@.len() == b@.len(),
    ensures
        binary_rel(sc, op, a@, b@, r@),
{
    let n = a.len();
    let mut r: Vec<u32> = Vec::new();
    let mut i: usize = 0;
    while i < n
        invariant
            backend_ok(sc),
            n == a@.len(),
            a@.len() == b@.len(),
            i <= n,
            r@.len() == i,
            forall|j: int| 0 <= j < i ==> call_ensures(sc, (op, a@[j], b@[j]), #[trigger] r@[j]),
        decreases n - i,
    {
        let v = sc(op, a[i], b[i]);
        r.push(v);
        i += 1;
    }
    r
}

} // verus!
