//! Tensor dimensionality and memory layout: `Shape` (per-axis extents) and
//! `Strides` (per-axis element steps), with the canonical row-major layout
//! derivation.

use vstd::prelude::*;

verus! {

/// Product of a sequence of extents; the number of logical elements of a
/// tensor with these extents.
pub open spec fn prod(dims: Seq<usize>) -> nat
    decreases dims.len(),
{
    if dims.len() == 0 {
        1nat
    } else {
        prod(dims.drop_last()) * (dims.last() as nat)
    }
}

/// Product of the extents strictly after axis `d`: the canonical row-major
/// stride of axis `d`.
pub open spec fn suffix_prod(dims: Seq<usize>, d: int) -> nat {
    prod(dims.subrange(d, dims.len() as int))
}

/// A product over a prefix times the product over the matching suffix gives
/// the whole product.
pub proof fn lemma_prod_split(dims: Seq<usize>, i: int)
    requires
        0 <= i <= dims.len(),
    ensures
        prod(dims) == prod(dims.subrange(0, i)) * prod(dims.subrange(i, dims.len() as int)),
    decreases dims.len() - i,
{
    if i == dims.len() {
        assert(dims.subrange(0, i) =~= dims);
        assert(prod(dims.subrange(i, dims.len() as int)) == 1);
    } else {
        lemma_prod_split(dims, i + 1);
        let pre = dims.subrange(0, i);
        let pre1 = dims.subrange(0, i + 1);
        assert(pre1.drop_last() =~= pre);
        assert(prod(pre1) == prod(pre) * dims[i]);
        let suf = dims.subrange(i, dims.len() as int);
        let suf1 = dims.subrange(i + 1, dims.len() as int);
        lemma_prod_head(suf);
        assert(suf.subrange(1, suf.len() as int) =~= suf1);
        assert(prod(suf) == dims[i] * prod(suf1));
        assert(prod(pre) * (dims[i] * prod(suf1)) == (prod(pre) * dims[i]) * prod(suf1))
            by (nonlinear_arith);
    }
}

/// Peeling the first extent off a product.
pub proof fn lemma_prod_head(dims: Seq<usize>)
    requires
        dims.len() > 0,
    ensures
        prod(dims) == dims[0] * prod(dims.subrange(1, dims.len() as int)),
    decreases dims.len(),
{
    if dims.len() == 1 {
        assert(prod(Seq::<usize>::empty()) == 1);
        assert(dims.subrange(1, 1) =~= Seq::<usize>::empty());
        assert(dims.drop_last() =~= Seq::<usize>::empty());
        assert(prod(dims.drop_last()) == 1);
        assert(prod(dims.subrange(1, 1)) == 1);
        assert(1nat * (dims.last() as nat) == dims.last() as nat) by (nonlinear_arith);
        assert((dims[0] as nat) * 1nat == dims[0] as nat) by (nonlinear_arith);
        assert(prod(dims) == dims[0] * prod(dims.subrange(1, dims.len() as int)));
    } else {
        let butlast = dims.drop_last();
        lemma_prod_head(butlast);
        let tail = dims.subrange(1, dims.len() as int);
        assert(butlast.subrange(1, butlast.len() as int) =~= tail.drop_last());
        assert(butlast[0] == dims[0]);
        let a = dims[0] as nat;
        let b = prod(tail.drop_last());
        let c = dims.last() as nat;
        assert(prod(butlast) == a * b);
        assert(prod(dims) == prod(butlast) * c);
        assert(tail.last() == dims.last());
        assert(prod(tail) == b * c);
        assert((a * b) * c == a * (b * c)) by (nonlinear_arith);
        assert(prod(dims) == a * prod(tail));
    }
}

/// A product of extents that are all positive is positive.
pub proof fn lemma_prod_pos(dims: Seq<usize>)
    requires
        forall|d: int| 0 <= d < dims.len() ==> dims[d] >= 1,
    ensures
        prod(dims) >= 1,
    decreases dims.len(),
{
    if dims.len() > 0 {
        lemma_prod_pos(dims.drop_last());
        assert(prod(dims.drop_last()) * dims.last() >= 1) by (nonlinear_arith)
            requires
                prod(dims.drop_last()) >= 1,
                dims.last() >= 1,
        ;
    }
}

/// A zero extent anywhere makes the product zero.
pub proof fn lemma_prod_zero(dims: Seq<usize>, d: int)
    requires
        0 <= d < dims.len(),
        dims[d] == 0,
    ensures
        prod(dims) == 0,
    decreases dims.len(),
{
    if d == dims.len() - 1 {
        assert(prod(dims.drop_last()) * 0nat == 0) by (nonlinear_arith);
    } else {
        lemma_prod_zero(dims.drop_last(), d);
        assert(0nat * (dims.last() as nat) == 0) by (nonlinear_arith);
    }
}

/// Ordered sequence of non-negative per-axis extents. `numel` is their
/// product; the rank is the sequence length. Immutable once constructed.
pub struct Shape {
    dims: Vec<usize>,
}

impl Shape {
    pub closed spec fn view(&self) -> Seq<usize> {
        self.dims@
    }

    /// The number of logical elements, as a mathematical value.
    pub open spec fn numel_spec(&self) -> nat {
        prod(self@)
    }

    /// The whole product of extents fits in the machine word, so `numel`
    /// can be computed.
    pub open spec fn wf(&self) -> bool {
        self.numel_spec() <= usize::MAX
    }

    pub fn new(dims: Vec<usize>) -> (r: Shape)
        ensures
            r@ == dims@,
    {
        Shape { dims }
    }

    pub fn rank(&self) -> (r: usize)
        ensures
            r == self@.len(),
    {
        self.dims.len()
    }

    pub fn at(&self, d: usize) -> (r: usize)
        requires
            d < self@.len(),
        ensures
            r == self@[d as int],
    {
        self.dims[d]
    }

    pub fn to_vec(&self) -> (r: Vec<usize>)
        ensures
            r@ == self@,
    {
        self.dims.clone()
    }

    /// The number of logical elements: the product of all extents.
    pub fn numel(&self) -> (r: usize)
        requires
            self.wf(),
        ensures
            r == self.numel_spec(),
    {
        numel_of(&self.dims)
    }
}

impl Clone for Shape {
    fn clone(&self) -> (r: Self)
        ensures
            r@ == self@,
    {
        Shape { dims: self.dims.clone() }
    }
}

/// Product of a vector of extents, guarded against overflow by first
/// scanning for a zero extent.
pub fn numel_of(dims: &Vec<usize>) -> (r: usize)
    requires
        prod(dims@) <= usize::MAX,
    ensures
        r == prod(dims@),
{
    let n = dims.len();
    let mut i: usize = 0;
    while i < n
        invariant
            n == dims@.len(),
            i <= n,
            forall|d: int| 0 <= d < i ==> dims@[d] >= 1,
        decreases n - i,
    {
        if dims[i] == 0 {
            proof {
                lemma_prod_zero(dims@, i as int);
            }
            return 0;
        }
        i += 1;
    }
    let mut acc: usize = 1;
    let mut j: usize = 0;
    while j < n
        invariant
            n == dims@.len(),
            prod(dims@) <= usize::MAX,
            forall|d: int| 0 <= d < n ==> dims@[d] >= 1,
            j <= n,
            acc == prod(dims@.subrange(0, j as int)),
        decreases n - j,
    {
        proof {
            lemma_prod_split(dims@, j + 1);
            lemma_prod_pos(dims@.subrange(j + 1, n as int));
            assert(dims@.subrange(0, j + 1).drop_last() =~= dims@.subrange(0, j as int));
            assert(prod(dims@.subrange(0, j + 1)) == acc * dims@[j as int]);
            assert(acc * dims@[j as int] <= prod(dims@)) by (nonlinear_arith)
                requires
                    prod(dims@) == prod(dims@.subrange(0, j + 1)) * prod(
                        dims@.subrange(j + 1, n as int),
                    ),
                    prod(dims@.subrange(j + 1, n as int)) >= 1,
                    prod(dims@.subrange(0, j + 1)) == acc * dims@[j as int],
            ;
        }
        acc = acc * dims[j];
        j += 1;
    }
    proof {
        assert(dims@.subrange(0, n as int) =~= dims@);
    }
    acc
}

/// Product of the extents of `shape` on axes `from..to`, guarded against
/// overflow by first scanning the range for a zero extent.
pub fn prod_range(shape: &Shape, from: usize, to: usize) -> (r: usize)
    requires
        from <= to <= shape@.len(),
        prod(shape@.subrange(from as int, to as int)) <= usize::MAX,
    ensures
        r == prod(shape@.subrange(from as int, to as int)),
{
    let ghost range = shape@.subrange(from as int, to as int);
    let mut i: usize = from;
    while i < to
        invariant
            from <= i <= to <= shape@.len(),
            range == shape@.subrange(from as int, to as int),
            forall|d: int| from <= d < i ==> shape@[d] >= 1,
        decreases to - i,
    {
        if shape.at(i) == 0 {
            proof {
                lemma_prod_zero(range, i - from);
            }
            return 0;
        }
        i += 1;
    }
    let mut acc: usize = 1;
    let mut j: usize = from;
    while j < to
        invariant
            from <= j <= to <= shape@.len(),
            range == shape@.subrange(from as int, to as int),
            prod(range) <= usize::MAX,
            forall|d: int| from <= d < to ==> shape@[d] >= 1,
            acc == prod(range.subrange(0, j - from)),
        decreases to - j,
    {
        proof {
            let jj = j - from;
            lemma_prod_split(range, jj + 1);
            lemma_prod_pos(range.subrange(jj + 1, range.len() as int));
            assert(forall|d: int| 0 <= d < range.len() ==> range[d] == shape@[from + d]);
            assert(range.subrange(0, jj + 1).drop_last() =~= range.subrange(0, jj));
            assert(prod(range.subrange(0, jj + 1)) == acc * (range[jj] as nat));
            assert(acc * (range[jj] as nat) <= prod(range)) by (nonlinear_arith)
                requires
                    prod(range) == prod(range.subrange(0, jj + 1)) * prod(
                        range.subrange(jj + 1, range.len() as int),
                    ),
                    prod(range.subrange(jj + 1, range.len() as int)) >= 1,
                    prod(range.subrange(0, jj + 1)) == acc * (range[jj] as nat),
            ;
        }
        acc = acc * shape.at(j);
        j += 1;
    }
    proof {
        assert(range.subrange(0, (to - from) as int) =~= range);
    }
    acc
}

/// Ordered sequence of per-axis element steps: derived from a `Shape` for the
/// canonical row-major layout, or assigned freely for transposed or broadcast
/// views. Steps here are non-negative; every view this engine produces
/// (transpose, slice, broadcast) keeps its steps non-negative.
pub struct Strides {
    steps: Vec<usize>,
}

/// `st` is the canonical row-major strides of `dims`: axis `d` steps by the
/// product of all extents after `d`, so the last axis varies fastest.
pub open spec fn is_canonical(dims: Seq<usize>, st: Seq<usize>) -> bool {
    &&& st.len() == dims.len()
    &&& forall|d: int| 0 <= d < dims.len() ==> st[d] == suffix_prod(dims, d + 1)
}

impl Strides {
    pub closed spec fn view(&self) -> Seq<usize> {
        self.steps@
    }

    pub fn new(steps: Vec<usize>) -> (r: Strides)
        ensures
            r@ == steps@,
    {
        Strides { steps }
    }

    /// The canonical row-major strides of `shape`.
    pub fn from_shape(shape: &Shape) -> (r: Strides)
        requires
            forall|d: int| 0 <= d <= shape@.len() ==> suffix_prod(shape@, d) <= usize::MAX,
        ensures
            is_canonical(shape@, r@),
    {
        let n = shape.rank();
        let mut steps: Vec<usize> = Vec::new();
        let mut i: usize = 0;
        // Build front to back; each entry is the suffix product after its axis.
        while i < n
            invariant
                n == shape@.len(),
                forall|d: int| 0 <= d <= n ==> suffix_prod(shape@, d) <= usize::MAX,
                i <= n,
                steps@.len() == i,
                forall|d: int| 0 <= d < i ==> steps@[d] == suffix_prod(shape@, d + 1),
            decreases n - i,
        {
            let mut acc: usize = 1;
            let mut j: usize = n;
            while j > i + 1
                invariant
                    n == shape@.len(),
                    forall|d: int| 0 <= d <= n ==> suffix_prod(shape@, d) <= usize::MAX,
                    i < n,
                    i + 1 <= j <= n,
                    acc == prod(shape@.subrange(j as int, n as int)),
                decreases j,
            {
                proof {
                    let s = shape@.subrange(j - 1, n as int);
                    lemma_prod_head(s);
                    assert(s.subrange(1, s.len() as int) =~= shape@.subrange(j as int, n as int));
                    assert(s[0] == shape@[j - 1]);
                    assert(prod(s) == (shape@[j - 1] as nat) * prod(
                        shape@.subrange(j as int, n as int),
                    ));
                    assert(suffix_prod(shape@, j - 1) <= usize::MAX);
                    assert((shape@[j - 1] as nat) * (acc as nat) <= usize::MAX);
                }
                acc = shape.at(j - 1) * acc;
                j -= 1;
            }
            steps.push(acc);
            i += 1;
        }
        Strides { steps }
    }

    pub fn rank(&self) -> (r: usize)
        ensures
            r == self@.len(),
    {
        self.steps.len()
    }

    pub fn at(&self, d: usize) -> (r: usize)
        requires
            d < self@.len(),
        ensures
            r == self@[d as int],
    {
        self.steps[d]
    }

    pub fn to_vec(&self) -> (r: Vec<usize>)
        ensures
            r@ == self@,
    {
        self.steps.clone()
    }
}

impl Clone for Strides {
    fn clone(&self) -> (r: Self)
        ensures
            r@ == self@,
    {
        Strides { steps: self.steps.clone() }
    }
}

} // verus!
