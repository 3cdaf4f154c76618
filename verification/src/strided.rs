//! Strided traversal: the lazy, finite, non-restartable sequence of storage
//! offsets that visits every logical element of a possibly non-contiguous
//! tensor in row-major (last-axis-fastest) order.

use vstd::prelude::*;
use vstd::pervasive::VecAdditionalExecFns;

use crate::shape::{prod, suffix_prod, is_canonical, lemma_prod_zero, Shape, Strides};

verus! {

/// `m` is a valid multi-index for extents `dims`.
pub open spec fn in_bounds(dims: Seq<usize>, m: Seq<usize>) -> bool {
    &&& m.len() == dims.len()
    &&& forall|d: int| 0 <= d < m.len() ==> m[d] < dims[d]
}

/// Storage offset contribution of a multi-index under per-axis strides:
/// the sum over axes of coordinate times step.
pub open spec fn dot(m: Seq<usize>, st: Seq<usize>) -> nat
    decreases m.len(),
{
    if m.len() == 0 {
        0nat
    } else {
        dot(m.drop_last(), st.drop_last()) + (m.last() as nat) * (st.last() as nat)
    }
}

/// Row-major rank of a multi-index: how many multi-indices precede it in
/// last-axis-fastest order (Horner form over the extents).
pub open spec fn rank_of(dims: Seq<usize>, m: Seq<usize>) -> nat
    decreases dims.len(),
{
    if dims.len() == 0 {
        0nat
    } else {
        rank_of(dims.drop_last(), m.drop_last()) * (dims.last() as nat) + (m.last() as nat)
    }
}

/// The all-zero multi-index of a given rank.
pub open spec fn multi_zero(len: nat) -> Seq<usize> {
    Seq::new(len, |d: int| 0usize)
}

/// The multi-index one step after `m` in row-major order, or `None` when `m`
/// is the last one: the fastest axis increments; a full axis resets to zero
/// and carries into the next slower axis.
pub open spec fn multi_step(dims: Seq<usize>, m: Seq<usize>) -> Option<Seq<usize>>
    decreases dims.len(),
{
    if dims.len() == 0 {
        None
    } else if m.last() + 1 < dims.last() {
        Some(m.update(m.len() - 1, (m.last() + 1) as usize))
    } else {
        match multi_step(dims.drop_last(), m.drop_last()) {
            Some(front) => Some(front.push(0usize)),
            None => None,
        }
    }
}

/// The k-th multi-index of the row-major traversal of `dims`.
pub open spec fn multi_of(dims: Seq<usize>, k: nat) -> Seq<usize>
    decreases k,
{
    if k == 0 {
        multi_zero(dims.len())
    } else {
        match multi_step(dims, multi_of(dims, (k - 1) as nat)) {
            Some(m) => m,
            None => multi_zero(dims.len()),
        }
    }
}

/// The multi-index with every coordinate at its maximum: the last one visited.
pub open spec fn max_multi(dims: Seq<usize>) -> Seq<usize> {
    Seq::new(dims.len(), |d: int| (dims[d] - 1) as usize)
}

/// `m` with every coordinate at axis `d` and after reset to zero.
pub open spec fn zero_suffix(m: Seq<usize>, d: int) -> Seq<usize> {
    Seq::new(m.len(), |i: int| if i < d { m[i] } else { 0usize })
}

pub proof fn lemma_dot_zero(len: nat, st: Seq<usize>)
    requires
        len <= st.len(),
    ensures
        dot(multi_zero(len), st.subrange(0, len as int)) == 0,
    decreases len,
{
    if len > 0 {
        lemma_dot_zero((len - 1) as nat, st);
        assert(multi_zero(len).drop_last() =~= multi_zero((len - 1) as nat));
        assert(st.subrange(0, len as int).drop_last() =~= st.subrange(0, len as int - 1));
        assert(0nat * (st.subrange(0, len as int).last() as nat) == 0) by (nonlinear_arith);
    }
}

/// Updating one coordinate changes the offset by the difference of the two
/// contributions on that axis.
pub proof fn lemma_dot_update(m: Seq<usize>, st: Seq<usize>, ax: int, v: usize)
    requires
        m.len() == st.len(),
        0 <= ax < m.len(),
    ensures
        dot(m.update(ax, v), st) + (m[ax] as nat) * (st[ax] as nat) == dot(m, st) + (v as nat) * (
        st[ax] as nat),
    decreases m.len(),
{
    if ax == m.len() - 1 {
        assert(m.update(ax, v).drop_last() =~= m.drop_last());
    } else {
        lemma_dot_update(m.drop_last(), st.drop_last(), ax, v);
        assert(m.update(ax, v).drop_last() =~= m.drop_last().update(ax, v));
    }
}

/// A single axis never contributes more than the whole offset.
pub proof fn lemma_dot_component(m: Seq<usize>, st: Seq<usize>, ax: int)
    requires
        m.len() == st.len(),
        0 <= ax < m.len(),
    ensures
        (m[ax] as nat) * (st[ax] as nat) <= dot(m, st),
    decreases m.len(),
{
    if ax < m.len() - 1 {
        lemma_dot_component(m.drop_last(), st.drop_last(), ax);
    }
}

/// The offset is monotone in each coordinate.
pub proof fn lemma_dot_le(a: Seq<usize>, b: Seq<usize>, st: Seq<usize>)
    requires
        a.len() == st.len(),
        b.len() == st.len(),
        forall|d: int| 0 <= d < a.len() ==> a[d] <= b[d],
    ensures
        dot(a, st) <= dot(b, st),
    decreases a.len(),
{
    if a.len() > 0 {
        lemma_dot_le(a.drop_last(), b.drop_last(), st.drop_last());
        assert((a.last() as nat) * (st.last() as nat) <= (b.last() as nat) * (st.last() as nat))
            by (nonlinear_arith)
            requires
                a.last() <= b.last(),
        ;
    }
}

/// Stepping a valid multi-index keeps it valid and advances its rank by one.
pub proof fn lemma_multi_step_some(dims: Seq<usize>, m: Seq<usize>, m2: Seq<usize>)
    requires
        in_bounds(dims, m),
        multi_step(dims, m) == Some(m2),
    ensures
        in_bounds(dims, m2),
        rank_of(dims, m2) == rank_of(dims, m) + 1,
    decreases dims.len(),
{
    let dl = dims.last() as nat;
    if m.last() + 1 < dims.last() {
        assert(m2 =~= m.update(m.len() - 1, (m.last() + 1) as usize));
        assert(m2.drop_last() =~= m.drop_last());
    } else {
        assert(m.last() == dims.last() - 1);
        assert(multi_step(dims.drop_last(), m.drop_last()) is Some);
        let f2 = multi_step(dims.drop_last(), m.drop_last()).unwrap();
        assert(m2 == f2.push(0usize));
        lemma_multi_step_some(dims.drop_last(), m.drop_last(), f2);
        assert(m2.drop_last() =~= f2);
        assert(m2.last() == 0);
        let rf = rank_of(dims.drop_last(), m.drop_last());
        assert(rank_of(dims, m) == rf * dl + (dl - 1));
        assert(rank_of(dims, m2) == (rf + 1) * dl);
        assert((rf + 1) * dl == rf * dl + dl) by (nonlinear_arith);
    }
}

/// A valid multi-index has no successor exactly when every coordinate is at
/// its maximum.
pub proof fn lemma_multi_step_none(dims: Seq<usize>, m: Seq<usize>)
    requires
        in_bounds(dims, m),
    ensures
        (multi_step(dims, m) is None) <==> (forall|d: int|
            0 <= d < dims.len() ==> m[d] == dims[d] - 1),
    decreases dims.len(),
{
    if dims.len() > 0 {
        lemma_multi_step_none(dims.drop_last(), m.drop_last());
        if multi_step(dims, m) is None {
            assert(m.last() + 1 >= dims.last());
            assert(multi_step(dims.drop_last(), m.drop_last()) is None);
            assert forall|d: int| 0 <= d < dims.len() implies m[d] == dims[d] - 1 by {
                if d < dims.len() - 1 {
                    assert(m.drop_last()[d] == dims.drop_last()[d] - 1);
                }
            }
        } else {
            if m.last() + 1 < dims.last() {
                assert(m[dims.len() - 1] != dims[dims.len() - 1] - 1);
            } else {
                assert(multi_step(dims.drop_last(), m.drop_last()) is Some);
                assert(!(forall|d: int|
                    0 <= d < dims.len() - 1 ==> m.drop_last()[d] == dims.drop_last()[d] - 1));
                let witness = choose|d: int|
                    0 <= d < dims.len() - 1 && m.drop_last()[d] != dims.drop_last()[d] - 1;
                assert(m[witness] != dims[witness] - 1);
            }
        }
    }
}

/// The rank of a valid multi-index is below the element count.
pub proof fn lemma_rank_lt(dims: Seq<usize>, m: Seq<usize>)
    requires
        in_bounds(dims, m),
    ensures
        rank_of(dims, m) < prod(dims),
    decreases dims.len(),
{
    if dims.len() == 0 {
    } else {
        lemma_rank_lt(dims.drop_last(), m.drop_last());
        let rf = rank_of(dims.drop_last(), m.drop_last());
        let pf = prod(dims.drop_last());
        let dl = dims.last() as nat;
        assert(rf * dl + (m.last() as nat) < pf * dl) by (nonlinear_arith)
            requires
                rf < pf,
                (m.last() as nat) < dl,
        ;
    }
}

/// The all-maximal multi-index is the last one: its rank is `numel - 1`.
pub proof fn lemma_rank_max(dims: Seq<usize>, m: Seq<usize>)
    requires
        in_bounds(dims, m),
        forall|d: int| 0 <= d < dims.len() ==> m[d] == dims[d] - 1,
    ensures
        rank_of(dims, m) + 1 == prod(dims),
    decreases dims.len(),
{
    if dims.len() == 0 {
    } else {
        lemma_rank_max(dims.drop_last(), m.drop_last());
        let pf = prod(dims.drop_last());
        let dl = dims.last() as nat;
        assert(m.last() as nat == dl - 1);
        assert((pf - 1) * dl + (dl - 1) + 1 == pf * dl) by (nonlinear_arith)
            requires
                pf >= 1,
                dl >= 1,
        ;
        crate::shape::lemma_prod_pos(dims.drop_last());
    }
}

/// Every extent of a non-empty traversal is positive.
pub proof fn lemma_pos_dims(dims: Seq<usize>)
    requires
        prod(dims) > 0,
    ensures
        forall|d: int| 0 <= d < dims.len() ==> dims[d] >= 1,
{
    assert forall|d: int| 0 <= d < dims.len() implies dims[d] >= 1 by {
        if dims[d] == 0 {
            lemma_prod_zero(dims, d);
        }
    }
}

/// The k-th multi-index of the traversal is valid and has rank k: the
/// odometer enumerates multi-indices in exact row-major order.
pub proof fn lemma_multi_of_rank(dims: Seq<usize>, k: nat)
    requires
        k < prod(dims),
    ensures
        in_bounds(dims, multi_of(dims, k)),
        rank_of(dims, multi_of(dims, k)) == k,
    decreases k,
{
    lemma_pos_dims(dims);
    if k == 0 {
        lemma_rank_zero(dims);
        assert(multi_zero(dims.len()).len() == dims.len());
    } else {
        lemma_multi_of_rank(dims, (k - 1) as nat);
        let m = multi_of(dims, (k - 1) as nat);
        match multi_step(dims, m) {
            Some(m2) => {
                lemma_multi_step_some(dims, m, m2);
            },
            None => {
                lemma_multi_step_none(dims, m);
                lemma_rank_max(dims, m);
            },
        }
    }
}

proof fn lemma_rank_zero(dims: Seq<usize>)
    ensures
        rank_of(dims, multi_zero(dims.len())) == 0,
    decreases dims.len(),
{
    if dims.len() > 0 {
        lemma_rank_zero(dims.drop_last());
        assert(multi_zero(dims.len()).drop_last() =~= multi_zero((dims.len() - 1) as nat));
        assert(0nat * (dims.last() as nat) == 0) by (nonlinear_arith);
    }
}

/// Under strides whose axis-`d` step is `suffix_prod(dims, d + 1) * c`, the
/// offset of a multi-index is its row-major rank scaled by `c`.
proof fn lemma_dot_canonical_scaled(dims: Seq<usize>, m: Seq<usize>, st: Seq<usize>, c: nat)
    requires
        m.len() == dims.len(),
        st.len() == dims.len(),
        forall|d: int| 0 <= d < dims.len() ==> st[d] == suffix_prod(dims, d + 1) * c,
    ensures
        dot(m, st) == rank_of(dims, m) * c,
    decreases dims.len(),
{
    if dims.len() == 0 {
        assert(0nat * c == 0) by (nonlinear_arith);
    } else {
        let n = dims.len() as int;
        let dl = dims.last() as nat;
        assert(dims.subrange(n, n) =~= Seq::<usize>::empty());
        assert(st.last() == suffix_prod(dims, n) * c);
        assert(suffix_prod(dims, n) == 1);
        assert(1nat * c == c) by (nonlinear_arith);
        assert forall|d: int| 0 <= d < n - 1 implies st.drop_last()[d] == suffix_prod(
            dims.drop_last(),
            d + 1,
        ) * (dl * c) by {
            assert(dims.subrange(d + 1, n).drop_last() =~= dims.drop_last().subrange(d + 1, n - 1));
            assert(suffix_prod(dims, d + 1) == suffix_prod(dims.drop_last(), d + 1) * dl);
            assert((suffix_prod(dims.drop_last(), d + 1) * dl) * c == suffix_prod(
                dims.drop_last(),
                d + 1,
            ) * (dl * c)) by (nonlinear_arith);
        }
        lemma_dot_canonical_scaled(dims.drop_last(), m.drop_last(), st.drop_last(), dl * c);
        let rf = rank_of(dims.drop_last(), m.drop_last());
        let ml = m.last() as nat;
        assert(dot(m, st) == rf * (dl * c) + ml * c);
        assert(rf * (dl * c) + ml * c == (rf * dl + ml) * c) by (nonlinear_arith);
    }
}

/// Law: with the canonical row-major strides of `dims`, the offset of a
/// multi-index is exactly its row-major rank, so the traversal of a
/// canonically-strided tensor visits offsets `0, 1, 2, ..., numel - 1`.
pub proof fn lemma_canonical_dot(dims: Seq<usize>, m: Seq<usize>, st: Seq<usize>)
    requires
        m.len() == dims.len(),
        is_canonical(dims, st),
    ensures
        dot(m, st) == rank_of(dims, m),
    decreases dims.len(),
{
    assert forall|d: int| 0 <= d < dims.len() implies st[d] == suffix_prod(dims, d + 1) * 1nat by {
        assert(suffix_prod(dims, d + 1) * 1nat == suffix_prod(dims, d + 1)) by (nonlinear_arith);
    }
    lemma_dot_canonical_scaled(dims, m, st, 1nat);
    assert(rank_of(dims, m) * 1nat == rank_of(dims, m)) by (nonlinear_arith);
}

/// Law: the k-th offset of the strided traversal of a canonically-strided
/// tensor, starting at storage offset `start`, is exactly `start + k`.
pub proof fn lemma_canonical_traversal(dims: Seq<usize>, st: Seq<usize>, start: nat, k: nat)
    requires
        is_canonical(dims, st),
        k < prod(dims),
    ensures
        start + dot(multi_of(dims, k), st) == start + k,
{
    lemma_multi_of_rank(dims, k);
    lemma_canonical_dot(dims, multi_of(dims, k), st);
}

/// When a valid multi-index is maximal on every axis at `ax + 1` and after,
/// and axis `ax` can still advance, the successor increments axis `ax` and
/// zeroes everything after it.
proof fn lemma_step_char(dims: Seq<usize>, m: Seq<usize>, ax: int)
    requires
        in_bounds(dims, m),
        0 <= ax < dims.len(),
        m[ax] + 1 < dims[ax],
        forall|i: int| ax < i < dims.len() ==> m[i] == dims[i] - 1,
    ensures
        multi_step(dims, m) == Some(
            Seq::new(
                dims.len(),
                |i: int|
                    if i < ax {
                        m[i]
                    } else if i == ax {
                        (m[ax] + 1) as usize
                    } else {
                        0usize
                    },
            ),
        ),
    decreases dims.len(),
{
    let target = Seq::new(
        dims.len(),
        |i: int|
            if i < ax {
                m[i]
            } else if i == ax {
                (m[ax] + 1) as usize
            } else {
                0usize
            },
    );
    if ax == dims.len() - 1 {
        assert(m.update(m.len() - 1, (m.last() + 1) as usize) =~= target);
    } else {
        assert(m.last() + 1 >= dims.last());
        lemma_step_char(dims.drop_last(), m.drop_last(), ax);
        let front = Seq::new(
            (dims.len() - 1) as nat,
            |i: int|
                if i < ax {
                    m[i]
                } else if i == ax {
                    (m[ax] + 1) as usize
                } else {
                    0usize
                },
        );
        assert(Seq::new(
            (dims.len() - 1) as nat,
            |i: int|
                if i < ax {
                    m.drop_last()[i]
                } else if i == ax {
                    (m.drop_last()[ax] + 1) as usize
                } else {
                    0usize
                },
        ) =~= front);
        assert(front.push(0usize) =~= target);
    }
}

/// Produces the linear storage offsets of every logical element of a strided
/// tensor, in row-major order, one per call of `next`. Finite and
/// non-restartable; a zero-element shape terminates immediately.
pub struct StridedIterator<'a> {
    shape: &'a Shape,
    strides: &'a Strides,
    next_index: Option<usize>,
    multi_index: Vec<usize>,
    pos: Ghost<nat>,
    start: Ghost<usize>,
}

impl<'a> StridedIterator<'a> {
    /// The extents being traversed.
    pub closed spec fn dims(&self) -> Seq<usize> {
        self.shape@
    }

    /// The per-axis steps in use.
    pub closed spec fn steps(&self) -> Seq<usize> {
        self.strides@
    }

    /// How many offsets have been handed out so far.
    pub closed spec fn pos(&self) -> nat {
        self.pos@
    }

    /// The storage offset the traversal began at.
    pub closed spec fn start_offset(&self) -> nat {
        self.start@ as nat
    }

    /// The k-th offset of this traversal: the start offset plus the strided
    /// contribution of the k-th row-major multi-index.
    pub open spec fn offset_at(&self, k: nat) -> nat {
        self.start_offset() + dot(multi_of(self.dims(), k), self.steps())
    }

    pub closed spec fn wf(&self) -> bool {
        let dims = self.shape@;
        let st = self.strides@;
        &&& st.len() == dims.len()
        &&& self.multi_index@.len() == dims.len()
        &&& prod(dims) <= usize::MAX
        &&& self.pos@ <= prod(dims)
        &&& (prod(dims) > 0 ==> self.start@ + dot(max_multi(dims), st) <= usize::MAX)
        &&& if self.pos@ < prod(dims) {
            &&& self.multi_index@ == multi_of(dims, self.pos@)
            &&& self.next_index == Some(
                (self.start@ + dot(multi_of(dims, self.pos@), st)) as usize,
            )
        } else {
            self.next_index is None
        }
    }

    /// Begins a traversal of `shape` through `strides` at storage offset
    /// `start_offset`.
    pub fn new(shape: &'a Shape, strides: &'a Strides, start_offset: usize) -> (r: Self)
        requires
            shape.wf(),
            strides@.len() == shape@.len(),
            prod(shape@) > 0 ==> start_offset + dot(max_multi(shape@), strides@) <= usize::MAX,
        ensures
            r.wf(),
            r.dims() == shape@,
            r.steps() == strides@,
            r.pos() == 0,
            r.start_offset() == start_offset as nat,
    {
        let numel = shape.numel();
        let rank = shape.rank();
        let mut multi_index: Vec<usize> = Vec::new();
        let mut i: usize = 0;
        while i < rank
            invariant
                i <= rank,
                multi_index@.len() == i,
                forall|d: int| 0 <= d < i ==> multi_index@[d] == 0,
            decreases rank - i,
        {
            multi_index.push(0);
            i += 1;
        }
        let next_index = if numel == 0 {
            None
        } else {
            Some(start_offset)
        };
        proof {
            assert(multi_index@ =~= multi_zero(shape@.len()));
            if prod(shape@) > 0 {
                lemma_dot_zero(shape@.len(), strides@);
                assert(strides@.subrange(0, shape@.len() as int) =~= strides@);
            }
        }
        StridedIterator {
            shape,
            strides,
            next_index,
            multi_index,
            pos: Ghost(0nat),
            start: Ghost(start_offset),
        }
    }

    /// Hands out the next storage offset, or `None` when every logical
    /// element has been visited.
    pub fn next(&mut self) -> (r: Option<usize>)
        requires
            old(self).wf(),
        ensures
            final(self).wf(),
            final(self).dims() == old(self).dims(),
            final(self).steps() == old(self).steps(),
            final(self).start_offset() == old(self).start_offset(),
            old(self).pos() < prod(old(self).dims()) ==> {
                &&& r == Some(old(self).offset_at(old(self).pos()) as usize)
                &&& final(self).pos() == old(self).pos() + 1
            },
            old(self).pos() >= prod(old(self).dims()) ==> r is None && final(self).pos() == old(
                self,
            ).pos(),
    {
        let storage_index = match self.next_index {
            None => {
                return None;
            },
            Some(si) => si,
        };
        let ghost dims = self.shape@;
        let ghost st = self.strides@;
        let ghost m0 = self.multi_index@;
        let ghost pos0 = self.pos@;
        proof {
            lemma_pos_dims(dims);
            lemma_multi_of_rank(dims, pos0);
            assert(zero_suffix(m0, dims.len() as int) =~= m0);
            assert(forall|i: int| 0 <= i < dims.len() ==> #[trigger] m0[i] <= max_multi(dims)[i]);
            lemma_dot_le(m0, max_multi(dims), st);
        }
        let rank = self.shape.rank();
        let mut updated = false;
        let mut next_storage_index = storage_index;
        let mut d: usize = rank;
        while d > 0 && !updated
            invariant
                self.shape@ == dims,
                self.strides@ == st,
                self.start == old(self).start,
                self.pos@ == pos0,
                self.next_index == old(self).next_index,
                st.len() == dims.len(),
                rank == dims.len(),
                self.multi_index@.len() == rank,
                d <= rank,
                in_bounds(dims, m0),
                rank_of(dims, m0) == pos0,
                pos0 < prod(dims),
                prod(dims) <= usize::MAX,
                self.start@ + dot(max_multi(dims), st) <= usize::MAX,
                forall|i: int| 0 <= i < dims.len() ==> dims[i] >= 1,
                !updated ==> {
                    &&& self.multi_index@ == zero_suffix(m0, d as int)
                    &&& forall|i: int| d <= i < rank ==> m0[i] == dims[i] - 1
                    &&& next_storage_index == self.start@ + dot(self.multi_index@, st)
                },
                updated ==> {
                    &&& multi_step(dims, m0) == Some(self.multi_index@)
                    &&& in_bounds(dims, self.multi_index@)
                    &&& next_storage_index == self.start@ + dot(self.multi_index@, st)
                },
            decreases d,
        {
            let ax = d - 1;
            let cur = self.multi_index[ax];
            proof {
                assert(zero_suffix(m0, d as int)[ax as int] == m0[ax as int]);
                assert(forall|i: int|
                    0 <= i < rank ==> #[trigger] zero_suffix(m0, d as int)[i] <= max_multi(
                        dims,
                    )[i]);
                lemma_dot_le(zero_suffix(m0, d as int), max_multi(dims), st);
            }
            let next_i = cur + 1;
            if next_i < self.shape.at(ax) {
                proof {
                    lemma_step_char(dims, m0, ax as int);
                    lemma_dot_update(self.multi_index@, st, ax as int, next_i);
                    let newm = self.multi_index@.update(ax as int, next_i);
                    assert(newm =~= Seq::new(
                        dims.len(),
                        |i: int|
                            if i < ax {
                                m0[i]
                            } else if i == ax {
                                (m0[ax as int] + 1) as usize
                            } else {
                                0usize
                            },
                    ));
                    assert((next_i as nat) * (st[ax as int] as nat) == (cur as nat) * (
                    st[ax as int] as nat) + (st[ax as int] as nat)) by (nonlinear_arith)
                        requires
                            next_i == cur + 1,
                    ;
                    assert(forall|i: int|
                        0 <= i < rank ==> #[trigger] newm[i] <= max_multi(dims)[i]);
                    lemma_dot_le(newm, max_multi(dims), st);
                }
                self.multi_index.set(ax, next_i);
                next_storage_index = next_storage_index + self.strides.at(ax);
                updated = true;
            } else {
                proof {
                    lemma_dot_component(self.multi_index@, st, ax as int);
                    lemma_dot_update(self.multi_index@, st, ax as int, 0usize);
                    let newm = self.multi_index@.update(ax as int, 0usize);
                    assert(newm =~= zero_suffix(m0, ax as int));
                    assert(0nat * (st[ax as int] as nat) == 0) by (nonlinear_arith);
                }
                let step = self.strides.at(ax);
                next_storage_index = next_storage_index - cur * step;
                self.multi_index.set(ax, 0);
            }
            d = ax;
        }
        if updated {
            proof {
                lemma_multi_step_some(dims, m0, self.multi_index@);
                lemma_rank_lt(dims, self.multi_index@);
            }
            self.next_index = Some(next_storage_index);
        } else {
            proof {
                assert(self.multi_index@ =~= zero_suffix(m0, 0));
                lemma_multi_step_none(dims, m0);
                lemma_rank_max(dims, m0);
            }
            self.next_index = None;
        }
        proof {
            self.pos@ = pos0 + 1;
        }
        Some(storage_index)
    }
}

} // verus!
