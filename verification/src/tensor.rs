//! The tensor value: a backing buffer of element bit patterns paired with a
//! shape, per-axis strides, a dtype tag, and — for block-quantized dtypes —
//! packed per-block scales. A tensor may be a view: its strides need not
//! match the canonical row-major layout of its shape, and no copy is made.

use vstd::prelude::*;

use crate::shape::{is_canonical, prod, suffix_prod, Shape, Strides};
use crate::scalar::{backend_ok, ScalarOp};
use crate::strided::{
    dot, in_bounds, lemma_canonical_dot, lemma_dot_le, lemma_multi_of_rank, lemma_pos_dims,
    lemma_rank_max, max_multi, multi_of, StridedIterator,
};

verus! {

/// The closed set of element dtypes. The plain dtypes store one bit pattern
/// per element (16-bit formats in the low half of a `u32`); `Q8_0F` is a
/// block-quantized format whose payload is the block size: each block of
/// that many elements shares one binary32 scale, and each element is one
/// signed quantized byte.
#[derive(Clone, Copy, PartialEq, Eq, Structural, Debug)]
pub enum DType {
    F32,
    F16,
    BF16,
    I32,
    U32,
    Q8_0F(usize),
}

/// What an operation reports when it cannot run. `DTypeMismatch` is a
/// recoverable operand-type error; `UnsupportedDType` names a dtype with no
/// kernel for the requested operation; `Unimplemented` names an operation
/// kind with no kernel at all; `InvalidDims` reports axes out of range.
#[derive(Clone, Copy, PartialEq, Eq, Structural, Debug)]
pub enum OperationError {
    DTypeMismatch { expected: DType, actual: DType },
    UnsupportedDType(DType),
    Unimplemented(OpKind),
    InvalidDims,
}

/// The kinds of recorded operations a graph node can carry.
#[derive(Clone, Copy, PartialEq, Eq, Structural, Debug)]
pub enum OpKind {
    Binary,
    Cast,
    Matmul,
    Softmax,
    RoPE,
    Unary,
    Reindex,
    Concat,
    Norm,
    Conv,
    Select,
    IndexWrite,
    Cache,
    Const,
    View,
}

/// Per-block scales and per-element quantized bytes of a `Q8_0F` tensor.
/// Each byte is the two's-complement bit pattern of the signed quantized
/// value.
pub struct QStorage {
    pub scales: Vec<u32>,
    pub qs: Vec<u8>,
}

pub enum Storage {
    Flat(Vec<u32>),
    Quant(QStorage),
}

/// A tensor: dtype tag, shape, strides and backing storage.
pub struct Tensor {
    dt: DType,
    shape: Shape,
    strides: Strides,
    storage: Storage,
}

impl Tensor {
    pub closed spec fn dt_spec(&self) -> DType {
        self.dt
    }

    pub closed spec fn dims(&self) -> Seq<usize> {
        self.shape@
    }

    pub closed spec fn steps(&self) -> Seq<usize> {
        self.strides@
    }

    pub closed spec fn is_flat(&self) -> bool {
        self.storage is Flat
    }

    /// The raw backing buffer of a plain (non-quantized) tensor.
    pub closed spec fn store(&self) -> Seq<u32> {
        match self.storage {
            Storage::Flat(ref v) => v@,
            Storage::Quant(_) => Seq::empty(),
        }
    }

    pub closed spec fn q_scales(&self) -> Seq<u32> {
        match self.storage {
            Storage::Flat(_) => Seq::empty(),
            Storage::Quant(ref q) => q.scales@,
        }
    }

    pub closed spec fn q_qs(&self) -> Seq<u8> {
        match self.storage {
            Storage::Flat(_) => Seq::empty(),
            Storage::Quant(ref q) => q.qs@,
        }
    }

    /// The block size of a quantized tensor.
    pub open spec fn block_spec(&self) -> nat {
        match self.dt_spec() {
            DType::Q8_0F(b) => b as nat,
            _ => 0,
        }
    }

    pub open spec fn numel_spec(&self) -> nat {
        prod(self.dims())
    }

    /// The storage offset of the k-th logical element in row-major order.
    pub open spec fn offset_of(&self, k: nat) -> nat {
        dot(multi_of(self.dims(), k), self.steps())
    }

    /// The logical elements of a plain tensor in row-major order, read
    /// through its strides.
    pub open spec fn elems(&self) -> Seq<u32> {
        Seq::new(self.numel_spec(), |k: int| self.store()[self.offset_of(k as nat) as int])
    }

    /// Well-formedness: strides match the rank; the element count fits the
    /// machine word; every reachable storage offset lies within the backing
    /// buffer. A quantized tensor is contiguous, with one scale per block.
    pub open spec fn wf(&self) -> bool {
        &&& self.steps().len() == self.dims().len()
        &&& self.numel_spec() <= usize::MAX
        &&& if self.is_flat() {
            &&& !(self.dt_spec() is Q8_0F)
            &&& (self.numel_spec() > 0 ==> dot(max_multi(self.dims()), self.steps())
                < self.store().len())
        } else {
            &&& self.dt_spec() is Q8_0F
            &&& self.block_spec() > 0
            &&& is_canonical(self.dims(), self.steps())
            &&& self.q_qs().len() == self.numel_spec()
            &&& self.numel_spec() <= self.q_scales().len() * self.block_spec()
        }
    }

    /// A plain tensor over the given backing buffer, shape and strides; the
    /// strides may describe a view.
    pub fn new_flat(dt: DType, shape: Shape, strides: Strides, data: Vec<u32>) -> (r: Tensor)
        requires
            !(dt is Q8_0F),
            strides@.len() == shape@.len(),
            prod(shape@) <= usize::MAX,
            prod(shape@) > 0 ==> dot(max_multi(shape@), strides@) < data@.len(),
        ensures
            r.wf(),
            r.is_flat(),
            r.dt_spec() == dt,
            r.dims() == shape@,
            r.steps() == strides@,
            r.store() == data@,
    {
        Tensor { dt, shape, strides, storage: Storage::Flat(data) }
    }

    /// A plain tensor in canonical row-major layout over exactly its
    /// elements.
    pub fn new_contiguous(dt: DType, shape: Shape, data: Vec<u32>) -> (r: Tensor)
        requires
            !(dt is Q8_0F),
            data@.len() == prod(shape@),
            forall|d: int| 0 <= d <= shape@.len() ==> suffix_prod(shape@, d) <= usize::MAX,
        ensures
            r.wf(),
            r.is_flat(),
            r.dt_spec() == dt,
            r.dims() == shape@,
            is_canonical(shape@, r.steps()),
            r.store() == data@,
    {
        let strides = Strides::from_shape(&shape);
        proof {
            assert(shape@.subrange(0, shape@.len() as int) =~= shape@);
            assert(suffix_prod(shape@, 0) <= usize::MAX);
            if prod(shape@) > 0 {
                lemma_max_offset_canonical(shape@, strides@);
            }
        }
        Tensor { dt, shape, strides, storage: Storage::Flat(data) }
    }

    /// A block-quantized tensor in canonical row-major layout: one signed
    /// byte per element, one binary32 scale per block of `block` elements.
    pub fn new_quant(block: usize, shape: Shape, scales: Vec<u32>, qs: Vec<u8>) -> (r: Tensor)
        requires
            block > 0,
            qs@.len() == prod(shape@),
            prod(shape@) <= scales@.len() * block,
            forall|d: int| 0 <= d <= shape@.len() ==> suffix_prod(shape@, d) <= usize::MAX,
        ensures
            r.wf(),
            !r.is_flat(),
            r.dt_spec() == DType::Q8_0F(block),
            r.dims() == shape@,
            is_canonical(shape@, r.steps()),
            r.q_scales() == scales@,
            r.q_qs() == qs@,
            r.block_spec() == block,
    {
        let strides = Strides::from_shape(&shape);
        proof {
            assert(shape@.subrange(0, shape@.len() as int) =~= shape@);
            assert(suffix_prod(shape@, 0) <= usize::MAX);
        }
        Tensor { dt: DType::Q8_0F(block), shape, strides, storage: Storage::Quant(QStorage { scales, qs }) }
    }

    pub fn dt(&self) -> (r: DType)
        ensures
            r == self.dt_spec(),
    {
        self.dt
    }

    pub fn shape(&self) -> (r: &Shape)
        ensures
            r@ == self.dims(),
    {
        &self.shape
    }

    pub fn strides(&self) -> (r: &Strides)
        ensures
            r@ == self.steps(),
    {
        &self.strides
    }

    pub fn numel(&self) -> (r: usize)
        requires
            self.wf(),
        ensures
            r == self.numel_spec(),
    {
        self.shape.numel()
    }

    /// Swaps in freshly computed contents for a plain tensor's backing
    /// buffer, leaving dtype, shape and strides untouched.
    pub fn replace_store(&mut self, data: Vec<u32>)
        requires
            old(self).wf(),
            old(self).is_flat(),
            data@.len() == old(self).store().len(),
        ensures
            final(self).wf(),
            final(self).is_flat(),
            final(self).dt_spec() == old(self).dt_spec(),
            final(self).dims() == old(self).dims(),
            final(self).steps() == old(self).steps(),
            final(self).store() == data@,
    {
        self.storage = Storage::Flat(data);
    }

    /// Materializes the logical elements of a plain tensor in row-major
    /// order, reading through its strides: the single mechanism by which
    /// every kernel supports transposed, sliced or broadcast views without
    /// copying them eagerly.
    pub fn to_elements(&self) -> (r: Vec<u32>)
        requires
            self.wf(),
            self.is_flat(),
        ensures
            r@ == self.elems(),
    {
        let n = self.shape.numel();
        let mut out: Vec<u32> = Vec::new();
        let data = match &self.storage {
            Storage::Flat(v) => v,
            Storage::Quant(_) => {
                proof {
                    assert(false);
                }
                return Vec::new();
            },
        };
        let data_len: usize = data.len();
        proof {
            assert(self.store().len() <= usize::MAX);
        }
        let mut it = StridedIterator::new(&self.shape, &self.strides, 0);
        while out.len() < n
            invariant
                self.wf(),
                self.is_flat(),
                data@ == self.store(),
                self.store().len() <= usize::MAX,
                n == self.numel_spec(),
                it.wf(),
                it.dims() == self.dims(),
                it.steps() == self.steps(),
                it.start_offset() == 0,
                it.pos() == out@.len(),
                out@.len() <= n,
                forall|k: int|
                    0 <= k < out@.len() ==> out@[k] == self.store()[self.offset_of(k as nat) as int],
            decreases n - out.len(),
        {
            let ghost kk = out@.len() as nat;
            proof {
                lemma_elem_offset_in_bounds(self, kk);
            }
            let o = match it.next() {
                Some(o) => o,
                None => {
                    proof {
                        assert(false);
                    }
                    return Vec::new();
                },
            };
            proof {
                assert(it.offset_at(kk) == self.offset_of(kk));
                assert(o == self.offset_of(kk));
            }
            out.push(data[o]);
        }
        proof {
            assert(out@ =~= self.elems());
        }
        out
    }

    /// Expands a block-quantized tensor into one binary32 bit pattern per
    /// element: each output element is the backend's product of the block's
    /// scale with the backend's conversion of the element's signed byte.
    pub fn dequantized<F: Fn(ScalarOp, u32, u32) -> u32 + Copy>(&self, sc: F) -> (r: Vec<u32>)
        requires
            self.wf(),
            !self.is_flat(),
            backend_ok(sc),
        ensures
            dequant_all_rel(sc, *self, r@),
    {
        let n = self.shape.numel();
        let q = match &self.storage {
            Storage::Quant(q) => q,
            Storage::Flat(_) => {
                proof {
                    assert(false);
                }
                return Vec::new();
            },
        };
        let block = match self.dt {
            DType::Q8_0F(b) => b,
            _ => {
                proof {
                    assert(false);
                }
                return Vec::new();
            },
        };
        let mut out: Vec<u32> = Vec::new();
        let mut i: usize = 0;
        while i < n
            invariant
                self.wf(),
                !self.is_flat(),
                backend_ok(sc),
                q.scales@ == self.q_scales(),
                q.qs@ == self.q_qs(),
                block == self.block_spec(),
                block > 0,
                n == self.numel_spec(),
                i <= n,
                out@.len() == i,
                forall|j: int|
                    0 <= j < i ==> dequant_elem_rel(
                        sc,
                        self.q_qs()[j],
                        self.q_scales()[j / self.block_spec() as int],
                        #[trigger] out@[j],
                    ),
            decreases n - i,
        {
            proof {
                vstd::arithmetic::mul::lemma_mul_is_commutative(
                    block as int,
                    self.q_scales().len() as int,
                );
                vstd::arithmetic::div_mod::lemma_multiply_divide_lt(
                    i as int,
                    block as int,
                    self.q_scales().len() as int,
                );
            }
            let qf = sc(ScalarOp::I8ToF32, q.qs[i] as u32, 0);
            let v = sc(ScalarOp::Mul, q.scales[i / block], qf);
            out.push(v);
            i += 1;
        }
        out
    }
}

/// `dq` is a full dequantization of the quantized tensor `t`: one binary32
/// bit pattern per logical element, each related to its quantized byte and
/// block scale through the backend.
pub open spec fn dequant_all_rel<F: Fn(ScalarOp, u32, u32) -> u32>(
    sc: F,
    t: Tensor,
    dq: Seq<u32>,
) -> bool {
    &&& dq.len() == t.numel_spec()
    &&& forall|i: int|
        0 <= i < dq.len() ==> dequant_elem_rel(
            sc,
            t.q_qs()[i],
            t.q_scales()[i / t.block_spec() as int],
            #[trigger] dq[i],
        )
}

/// `out` is one dequantized element: the backend's binary32 product of the
/// block's scale with the backend's conversion of the element's signed byte
/// `qbits`.
pub open spec fn dequant_elem_rel<F: Fn(ScalarOp, u32, u32) -> u32>(
    sc: F,
    qbits: u8,
    scale: u32,
    out: u32,
) -> bool {
    exists|qf: u32|
        #[trigger] call_ensures(sc, (ScalarOp::I8ToF32, qbits as u32, 0u32), qf) && call_ensures(
            sc,
            (ScalarOp::Mul, scale, qf),
            out,
        )
}

/// The materialized view of a sequence of plain tensors: each one's extents
/// paired with its logical elements.
pub open spec fn tensors_view(ts: Seq<Tensor>) -> Seq<(Seq<usize>, Seq<u32>)> {
    ts.map_values(|t: Tensor| (t.dims(), t.elems()))
}

/// With canonical strides the farthest reachable offset is the last element.
pub proof fn lemma_max_offset_canonical(dims: Seq<usize>, st: Seq<usize>)
    requires
        is_canonical(dims, st),
        prod(dims) > 0,
    ensures
        dot(max_multi(dims), st) == prod(dims) - 1,
{
    lemma_pos_dims(dims);
    lemma_canonical_dot(dims, max_multi(dims), st);
    lemma_rank_max(dims, max_multi(dims));
}

/// Every in-range logical element of a well-formed plain tensor has its
/// storage offset inside the backing buffer.
pub proof fn lemma_elem_offset_in_bounds(t: &Tensor, k: nat)
    requires
        t.wf(),
        t.is_flat(),
        k < t.numel_spec(),
    ensures
        t.offset_of(k) < t.store().len(),
{
    lemma_pos_dims(t.dims());
    lemma_multi_of_rank(t.dims(), k);
    let m = multi_of(t.dims(), k);
    assert(forall|i: int| 0 <= i < t.dims().len() ==> #[trigger] m[i] <= max_multi(t.dims())[i]);
    lemma_dot_le(m, max_multi(t.dims()), t.steps());
}

} // verus!

verus! {

impl Tensor {
    /// Whether this tensor's storage is a plain flat buffer rather than
    /// packed quantized blocks.
    pub fn is_plain(&self) -> (r: bool)
        ensures
            r == self.is_flat(),
    {
        match &self.storage {
            Storage::Flat(_) => true,
            Storage::Quant(_) => false,
        }
    }
}

/// A buffer of `n` zero words, the blank destination contents every kernel
/// starts from.
pub fn zero_vec(n: usize) -> (r: Vec<u32>)
    ensures
        r@.len() == n,
        forall|i: int| 0 <= i < n ==> r@[i] == 0u32,
{
    let mut r: Vec<u32> = Vec::new();
    let mut i: usize = 0;
    while i < n
        invariant
            i <= n,
            r@.len() == i,
            forall|j: int| 0 <= j < i ==> r@[j] == 0u32,
        decreases n - i,
    {
        r.push(0);
        i += 1;
    }
    r
}

} // verus!
