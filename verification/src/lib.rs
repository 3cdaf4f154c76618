//! CPU execution backend for a deferred-execution tensor engine.
//!
//! Operations on multi-dimensional arrays are recorded into a lazy graph by
//! an external builder; this crate evaluates one recorded operation against a
//! pre-allocated destination tensor. It walks arbitrary strides without
//! assuming contiguity, dispatches over a closed dtype set, and implements a
//! strided batched matrix multiply reused by the positional-encoding kernel.
//!
//! Floating-point values are carried as IEEE-754 binary32 bit patterns in
//! `u32` storage. The crate performs no floating-point arithmetic itself:
//! every scalar numeric operation is delegated to a caller-supplied numeric
//! backend (see [`scalar::ScalarOp`]), and every contract that involves a
//! numeric result is stated relative to that backend's postcondition. All
//! data movement — strided traversal, concatenation, gather, slicing — is
//! specified exactly.

pub mod cast;
pub mod concat;
pub mod dispatch;
pub mod gemm;
pub mod kernels;
pub mod rope;
pub mod scalar;
pub mod select;
pub mod shape;
pub mod strided;
pub mod tensor;
