use crate::error::{copy_shape, Error, ErrorKind, Result};
use vstd::prelude::*;

verus! {

/// Product of the extents from axis `from` to the last one.
pub open spec fn suffix_product(shape: Seq<usize>, from: int) -> nat
    decreases shape.len() - from,
{
    if from < 0 || from >= shape.len() {
        1
    } else {
        shape[from] as nat * suffix_product(shape, from + 1)
    }
}

/// Distance, in elements, from the first element of a view to its last one,
/// counted over the axes from `from` on.
pub open spec fn span_from(shape: Seq<usize>, strides: Seq<usize>, from: int) -> nat
    decreases shape.len() - from,
{
    if from < 0 || from >= shape.len() {
        0
    } else {
        ((shape[from] - 1) * strides[from]) as nat + span_from(shape, strides, from + 1)
    }
}

/// Every extent is at least one.
pub open spec fn extents_positive(shape: Seq<usize>) -> bool {
    forall|i: int| 0 <= i < shape.len() ==> #[trigger] shape[i] > 0
}

/// The strides of a densely packed, row-major view of `shape`.
pub open spec fn is_row_major(shape: Seq<usize>, strides: Seq<usize>) -> bool {
    &&& strides.len() == shape.len()
    &&& forall|i: int|
        0 <= i < shape.len() ==> #[trigger] strides[i] as nat == suffix_product(shape, i + 1)
}

/// A product of positive extents is positive.
pub proof fn lemma_suffix_product_positive(shape: Seq<usize>, from: int)
    requires
        extents_positive(shape),
    ensures
        suffix_product(shape, from) >= 1,
    decreases shape.len() - from,
{
    if 0 <= from < shape.len() {
        lemma_suffix_product_positive(shape, from + 1);
        let p = suffix_product(shape, from + 1);
        let e = shape[from] as nat;
        assert(e * p >= 1) by (nonlinear_arith)
            requires
                e >= 1,
                p >= 1,
        ;
    }
}

/// A suffix product never exceeds the one that starts further left.
pub proof fn lemma_suffix_product_monotone(shape: Seq<usize>, from: int)
    requires
        extents_positive(shape),
        0 <= from <= shape.len(),
    ensures
        suffix_product(shape, from) <= suffix_product(shape, 0),
    decreases from,
{
    if from > 0 {
        lemma_suffix_product_monotone(shape, from - 1);
        lemma_suffix_product_positive(shape, from);
        let p = suffix_product(shape, from);
        let e = shape[from - 1] as nat;
        assert(p <= e * p) by (nonlinear_arith)
            requires
                e >= 1,
                p >= 1,
        ;
    }
}

/// In a densely packed view the last element sits at offset `len - 1`.
pub proof fn lemma_row_major_span(shape: Seq<usize>, strides: Seq<usize>, from: int)
    requires
        extents_positive(shape),
        is_row_major(shape, strides),
        0 <= from <= shape.len(),
    ensures
        span_from(shape, strides, from) + 1 == suffix_product(shape, from),
    decreases shape.len() - from,
{
    if from < shape.len() {
        lemma_row_major_span(shape, strides, from + 1);
        let p = suffix_product(shape, from + 1);
        let e = shape[from] as int;
        assert(strides[from] as nat == p);
        assert((e - 1) * p + p == e * p) by (nonlinear_arith);
        assert((e - 1) * p >= 0) by (nonlinear_arith)
            requires
                e >= 1,
                p >= 0,
        ;
    }
}

/// Shape and strides of a view over a flat buffer. The descriptor owns no
/// storage; it only says where the element of each index lies.
#[derive(Debug)]
pub struct TensorStrider {
    shape: Vec<usize>,
    strides: Vec<usize>,
}

impl TensorStrider {
    /// The extents, one per axis.
    pub closed spec fn spec_shape(&self) -> Seq<usize> {
        self.shape@
    }

    /// The strides, one per axis, in elements.
    pub closed spec fn spec_strides(&self) -> Seq<usize> {
        self.strides@
    }

    /// Number of elements the view addresses.
    pub open spec fn spec_len(&self) -> nat {
        suffix_product(self.spec_shape(), 0)
    }

    /// Offset of the last element the view addresses.
    pub open spec fn spec_span(&self) -> nat {
        span_from(self.spec_shape(), self.spec_strides(), 0)
    }

    /// Whether the layout is densely packed and row-major.
    pub open spec fn spec_is_contiguous(&self) -> bool {
        is_row_major(self.spec_shape(), self.spec_strides())
    }

    /// One stride per axis, no empty axis, and both the element count and
    /// the largest offset are machine integers.
    pub open spec fn wf(&self) -> bool {
        &&& self.spec_strides().len() == self.spec_shape().len()
        &&& extents_positive(self.spec_shape())
        &&& self.spec_len() <= usize::MAX
        &&& self.spec_span() < usize::MAX
    }

    /// A densely packed, row-major view of the given shape.
    ///
    /// Fails when an extent is zero or the element count does not fit a
    /// machine integer.
    pub fn new(shape: Vec<usize>) -> (r: Result<TensorStrider>)
        ensures
            r is Ok <==> extents_positive(shape@) && suffix_product(shape@, 0) <= usize::MAX,
            r matches Ok(t) ==> t.wf() && t.spec_shape() == shape@ && t.spec_is_contiguous(),
            r matches Err(e) ==> e.kind == ErrorKind::TensorShape && e.left@ == shape@
                && e.right@.len() == 0,
    {
        let n = shape.len();
        let mut rev: Vec<usize> = Vec::new();
        let mut acc: usize = 1;
        let mut i: usize = n;
        // Walk the axes right to left; `acc` is the product of those seen.
        while i > 0
            invariant
                n == shape@.len(),
                i <= n,
                rev@.len() == n - i,
                acc as nat == suffix_product(shape@, i as int),
                forall|j: int| i <= j < n ==> #[trigger] shape@[j] > 0,
                forall|j: int|
                    i <= j < n ==> #[trigger] rev@[n - 1 - j] as nat == suffix_product(
                        shape@,
                        j + 1,
                    ),
            decreases i,
        {
            let e = shape[i - 1];
            if e == 0 {
                return Err(Error::of_shape(ErrorKind::TensorShape, &shape));
            }
            match acc.checked_mul(e) {
                None => {
                    proof {
                        let p = suffix_product(shape@, i as int);
                        assert(e as nat * p == p * e as nat) by (nonlinear_arith);
                        lemma_product_overflow(shape@, i - 1);
                    }
                    return Err(Error::of_shape(ErrorKind::TensorShape, &shape));
                },
                Some(next) => {
                    rev.push(acc);
                    assert(next as nat == suffix_product(shape@, i - 1)) by {
                        let p = suffix_product(shape@, i as int);
                        assert(e as nat * p == p * e as nat) by (nonlinear_arith);
                    }
                    acc = next;
                },
            }
            i = i - 1;
        }
        let mut strides: Vec<usize> = Vec::new();
        let mut k: usize = 0;
        while k < n
            invariant
                n == shape@.len(),
                rev@.len() == n,
                k <= n,
                strides@.len() == k,
                forall|j: int| 0 <= j < k ==> #[trigger] strides@[j] == rev@[n - 1 - j],
            decreases n - k,
        {
            strides.push(rev[n - 1 - k]);
            k = k + 1;
        }
        proof {
            assert(extents_positive(shape@));
            assert(is_row_major(shape@, strides@));
            lemma_row_major_span(shape@, strides@, 0);
        }
        Ok(TensorStrider { shape, strides })
    }

    /// A view with explicitly given strides.
    ///
    /// Fails when the two lists differ in length, an extent is zero, or the
    /// element count or the largest offset does not fit a machine integer.
    pub fn with_strides(shape: Vec<usize>, strides: Vec<usize>) -> (r: Result<TensorStrider>)
        ensures
            r is Ok <==> {
                &&& strides@.len() == shape@.len()
                &&& extents_positive(shape@)
                &&& suffix_product(shape@, 0) <= usize::MAX
                &&& span_from(shape@, strides@, 0) < usize::MAX
            },
            r matches Ok(t) ==> t.wf() && t.spec_shape() == shape@ && t.spec_strides()
                == strides@,
            r matches Err(e) ==> e.kind == ErrorKind::TensorShape && e.left@ == shape@
                && e.right@ == strides@,
    {
        let n = shape.len();
        if strides.len() != n {
            return Err(Error::of_shapes(ErrorKind::TensorShape, &shape, &strides));
        }
        let mut count: usize = 1;
        let mut span: usize = 0;
        let mut i: usize = n;
        while i > 0
            invariant
                n == shape@.len(),
                n == strides@.len(),
                i <= n,
                count as nat == suffix_product(shape@, i as int),
                span as nat == span_from(shape@, strides@, i as int),
                forall|j: int| i <= j < n ==> #[trigger] shape@[j] > 0,
            decreases i,
        {
            let e = shape[i - 1];
            if e == 0 {
                return Err(Error::of_shapes(ErrorKind::TensorShape, &shape, &strides));
            }
            let next_count = match count.checked_mul(e) {
                None => {
                    proof {
                        let p = suffix_product(shape@, i as int);
                        assert(e as nat * p == p * e as nat) by (nonlinear_arith);
                        lemma_product_overflow(shape@, i - 1);
                    }
                    return Err(Error::of_shapes(ErrorKind::TensorShape, &shape, &strides));
                },
                Some(c) => c,
            };
            let reach = match (e - 1).checked_mul(strides[i - 1]) {
                None => {
                    proof {
                        lemma_span_overflow(shape@, strides@, i - 1);
                    }
                    return Err(Error::of_shapes(ErrorKind::TensorShape, &shape, &strides));
                },
                Some(r) => r,
            };
            let next_span = match span.checked_add(reach) {
                None => {
                    proof {
                        lemma_span_overflow(shape@, strides@, i - 1);
                    }
                    return Err(Error::of_shapes(ErrorKind::TensorShape, &shape, &strides));
                },
                Some(s) => s,
            };
            assert(next_count as nat == suffix_product(shape@, i - 1)) by {
                let p = suffix_product(shape@, i as int);
                assert(e as nat * p == p * e as nat) by (nonlinear_arith);
            }
            count = next_count;
            span = next_span;
            i = i - 1;
        }
        if span == usize::MAX {
            return Err(Error::of_shapes(ErrorKind::TensorShape, &shape, &strides));
        }
        Ok(TensorStrider { shape, strides })
    }

    /// The extents, one per axis.
    pub fn shape(&self) -> (s: &Vec<usize>)
        ensures
            s@ == self.spec_shape(),
    {
        &self.shape
    }

    /// The strides, one per axis, in elements.
    pub fn strides(&self) -> (s: &Vec<usize>)
        ensures
            s@ == self.spec_strides(),
    {
        &self.strides
    }

    /// The rank of the view.
    pub fn dims(&self) -> (n: usize)
        ensures
            n == self.spec_shape().len(),
    {
        self.shape.len()
    }

    /// Number of elements the view addresses.
    pub fn len(&self) -> (n: usize)
        requires
            self.wf(),
        ensures
            n == self.spec_len(),
    {
        let mut acc: usize = 1;
        let mut i: usize = self.shape.len();
        while i > 0
            invariant
                self.wf(),
                i <= self.shape@.len(),
                acc as nat == suffix_product(self.shape@, i as int),
            decreases i,
        {
            proof {
                lemma_suffix_product_monotone(self.shape@, i - 1);
                let p = suffix_product(self.shape@, i as int);
                let e = self.shape@[i - 1] as nat;
                assert(e * p == p * e) by (nonlinear_arith);
            }
            acc = acc * self.shape[i - 1];
            i = i - 1;
        }
        acc
    }

    /// Offset of the last element the view addresses.
    pub fn span(&self) -> (n: usize)
        requires
            self.wf(),
        ensures
            n == self.spec_span(),
    {
        let mut acc: usize = 0;
        let mut i: usize = self.shape.len();
        while i > 0
            invariant
                self.wf(),
                i <= self.shape@.len(),
                acc as nat == span_from(self.shape@, self.strides@, i as int),
            decreases i,
        {
            proof {
                lemma_span_monotone(self.shape@, self.strides@, i - 1);
                lemma_reach_nonnegative(self.shape@[i - 1] as int, self.strides@[i - 1] as int);
            }
            acc = acc + (self.shape[i - 1] - 1) * self.strides[i - 1];
            i = i - 1;
        }
        acc
    }

    /// Whether the strides are those of a densely packed row-major layout.
    pub fn is_contiguous(&self) -> (r: bool)
        requires
            self.wf(),
        ensures
            r == self.spec_is_contiguous(),
    {
        let n = self.shape.len();
        let mut acc: usize = 1;
        let mut i: usize = n;
        while i > 0
            invariant
                self.wf(),
                n == self.shape@.len(),
                n == self.strides@.len(),
                i <= n,
                acc as nat == suffix_product(self.shape@, i as int),
                forall|j: int|
                    i <= j < n ==> #[trigger] self.strides@[j] as nat == suffix_product(
                        self.shape@,
                        j + 1,
                    ),
            decreases i,
        {
            if self.strides[i - 1] != acc {
                return false;
            }
            proof {
                lemma_suffix_product_monotone(self.shape@, i - 1);
                let p = suffix_product(self.shape@, i as int);
                let e = self.shape@[i - 1] as nat;
                assert(e * p == p * e) by (nonlinear_arith);
            }
            acc = acc * self.shape[i - 1];
            i = i - 1;
        }
        true
    }

    /// An independent copy of the descriptor.
    pub fn duplicate(&self) -> (t: TensorStrider)
        ensures
            t.spec_shape() == self.spec_shape(),
            t.spec_strides() == self.spec_strides(),
    {
        TensorStrider { shape: copy_shape(&self.shape), strides: copy_shape(&self.strides) }
    }
}

/// When the product of the extents from `from` on exceeds the machine range,
/// so does the product of all of them.
pub proof fn lemma_product_overflow(shape: Seq<usize>, from: int)
    requires
        0 <= from < shape.len(),
        forall|j: int| from <= j < shape.len() ==> #[trigger] shape[j] > 0,
        suffix_product(shape, from) > usize::MAX,
    ensures
        !(extents_positive(shape) && suffix_product(shape, 0) <= usize::MAX),
{
    if extents_positive(shape) {
        lemma_suffix_product_monotone(shape, from);
    }
}

/// The span of the trailing axes never exceeds the span of all of them.
pub proof fn lemma_span_monotone(shape: Seq<usize>, strides: Seq<usize>, from: int)
    requires
        extents_positive(shape),
        0 <= from <= shape.len(),
    ensures
        span_from(shape, strides, from) <= span_from(shape, strides, 0),
    decreases from,
{
    if from > 0 {
        lemma_span_monotone(shape, strides, from - 1);
    }
}

/// When the span of the axes from `from` on exceeds the machine range, so
/// does the span of all of them.
pub proof fn lemma_span_overflow(shape: Seq<usize>, strides: Seq<usize>, from: int)
    requires
        0 <= from < shape.len(),
        span_from(shape, strides, from) > usize::MAX,
    ensures
        !(extents_positive(shape) && span_from(shape, strides, 0) < usize::MAX),
{
    if extents_positive(shape) {
        lemma_span_monotone(shape, strides, from);
    }
}


/// Span and element count of a one-axis view, written out.
pub proof fn lemma_rank1(shape: Seq<usize>, strides: Seq<usize>)
    requires
        shape.len() == 1,
        strides.len() == 1,
        shape[0] > 0,
    ensures
        span_from(shape, strides, 0) == (shape[0] - 1) * strides[0],
        suffix_product(shape, 0) == shape[0],
        is_row_major(shape, strides) <==> strides[0] == 1,
{
    reveal_with_fuel(span_from, 3);
    reveal_with_fuel(suffix_product, 3);
    let e = shape[0] as int;
    let s = strides[0] as int;
    assert((e - 1) * s >= 0) by (nonlinear_arith)
        requires
            e >= 1,
            s >= 0,
    ;
}

/// Span and element count of a two-axis view, written out.
pub proof fn lemma_rank2(shape: Seq<usize>, strides: Seq<usize>)
    requires
        shape.len() == 2,
        strides.len() == 2,
        shape[0] > 0,
        shape[1] > 0,
    ensures
        span_from(shape, strides, 0) == (shape[0] - 1) * strides[0] + (shape[1] - 1) * strides[1],
        suffix_product(shape, 0) == shape[0] * shape[1],
        is_row_major(shape, strides) <==> strides[0] == shape[1] && strides[1] == 1,
{
    reveal_with_fuel(span_from, 4);
    reveal_with_fuel(suffix_product, 4);
    lemma_reach_nonnegative(shape[0] as int, strides[0] as int);
    lemma_reach_nonnegative(shape[1] as int, strides[1] as int);
    assert(shape[1] as nat * 1 == shape[1]);
    assert(suffix_product(shape, 1) == shape[1]);
    assert(suffix_product(shape, 2) == 1);
}

/// Span and element count of a three-axis view, written out.
pub proof fn lemma_rank3(shape: Seq<usize>, strides: Seq<usize>)
    requires
        shape.len() == 3,
        strides.len() == 3,
        shape[0] > 0,
        shape[1] > 0,
        shape[2] > 0,
    ensures
        span_from(shape, strides, 0) == (shape[0] - 1) * strides[0] + (shape[1] - 1) * strides[1]
            + (shape[2] - 1) * strides[2],
        suffix_product(shape, 0) == shape[0] * (shape[1] * shape[2]),
        is_row_major(shape, strides) <==> strides[0] == shape[1] * shape[2] && strides[1]
            == shape[2] && strides[2] == 1,
{
    reveal_with_fuel(span_from, 5);
    reveal_with_fuel(suffix_product, 5);
    lemma_reach_nonnegative(shape[0] as int, strides[0] as int);
    lemma_reach_nonnegative(shape[1] as int, strides[1] as int);
    lemma_reach_nonnegative(shape[2] as int, strides[2] as int);
    assert(suffix_product(shape, 3) == 1);
    assert(shape[2] as nat * 1 == shape[2]);
    assert(suffix_product(shape, 2) == shape[2]);
    assert(suffix_product(shape, 1) == shape[1] * shape[2]);
}

/// The last element of an axis lies at or after its first.
pub proof fn lemma_reach_nonnegative(extent: int, stride: int)
    requires
        extent >= 1,
        stride >= 0,
    ensures
        (extent - 1) * stride >= 0,
{
    assert((extent - 1) * stride >= 0) by (nonlinear_arith)
        requires
            extent >= 1,
            stride >= 0,
    ;
}


/// Offset that the axes before `upto` contribute to the element whose
/// row-major position, counted over those axes, is `i`: the last of them
/// takes `i` modulo its extent, the ones before it the quotient.
pub open spec fn unravel(shape: Seq<usize>, strides: Seq<usize>, i: int, upto: int) -> int
    decreases upto,
{
    if upto <= 0 || upto > shape.len() {
        0
    } else {
        (i % (shape[upto - 1] as int)) * strides[upto - 1] + unravel(
            shape,
            strides,
            i / (shape[upto - 1] as int),
            upto - 1,
        )
    }
}

/// The offset of any position lies inside the span.
pub proof fn lemma_unravel_within_span(shape: Seq<usize>, strides: Seq<usize>, i: int, upto: int)
    requires
        extents_positive(shape),
        strides.len() == shape.len(),
        0 <= i,
        0 <= upto <= shape.len(),
    ensures
        0 <= unravel(shape, strides, i, upto),
        unravel(shape, strides, i, upto) + span_from(shape, strides, upto) <= span_from(
            shape,
            strides,
            0,
        ),
    decreases upto,
{
    if upto > 0 {
        let e = shape[upto - 1] as int;
        let s = strides[upto - 1] as int;
        assert(0 <= i / e) by (nonlinear_arith)
            requires
                0 <= i,
                e > 0,
        ;
        lemma_unravel_within_span(shape, strides, i / e, upto - 1);
        assert(0 <= (i % e) * s <= (e - 1) * s) by (nonlinear_arith)
            requires
                0 <= i % e < e,
                0 <= s,
        ;
    }
}

/// In a densely packed view, the element at row-major position `i` lies at
/// offset `i`.
pub proof fn lemma_unravel_row_major(shape: Seq<usize>, strides: Seq<usize>, i: int)
    requires
        extents_positive(shape),
        is_row_major(shape, strides),
        0 <= i < suffix_product(shape, 0),
    ensures
        unravel(shape, strides, i, shape.len() as int) == i,
{
    lemma_unravel_row_major_upto(shape, strides, i, shape.len() as int);
    assert(suffix_product(shape, shape.len() as int) == 1);
    assert(i % 1 == 0 && i / 1 == i);
}

/// With the axes from `upto` on stripped off, what the axes before `upto`
/// contribute is the position less its remainder by the stripped extents.
proof fn lemma_unravel_row_major_upto(shape: Seq<usize>, strides: Seq<usize>, i: int, upto: int)
    requires
        extents_positive(shape),
        is_row_major(shape, strides),
        0 <= i < suffix_product(shape, 0),
        0 <= upto <= shape.len(),
    ensures
        unravel(shape, strides, i / (suffix_product(shape, upto) as int), upto) + i % (
        suffix_product(shape, upto) as int) == i,
    decreases upto,
{
    let p = suffix_product(shape, upto) as int;
    lemma_suffix_product_positive(shape, upto);
    if upto == 0 {
        vstd::arithmetic::div_mod::lemma_fundamental_div_mod_converse(i, p, 0, i);
    } else {
        let e = shape[upto - 1] as int;
        let below = suffix_product(shape, upto - 1) as int;
        assert(below == e * p);
        assert(strides[upto - 1] as int == p);
        lemma_unravel_row_major_upto(shape, strides, i, upto - 1);
        vstd::arithmetic::div_mod::lemma_div_denominator(i, p, e);
        vstd::arithmetic::div_mod::lemma_mod_breakdown(i, p, e);
        assert(p * e == e * p) by (nonlinear_arith);
        assert(((i / p) % e) * p == p * ((i / p) % e)) by (nonlinear_arith);
    }
}

impl TensorStrider {
    /// Offset of the element at row-major position `i`.
    pub open spec fn spec_offset_of(&self, i: int) -> int {
        unravel(self.spec_shape(), self.spec_strides(), i, self.spec_shape().len() as int)
    }

    /// Offset of the element at row-major position `i`. Positions past the
    /// last element wrap around.
    pub fn offset_of(&self, i: usize) -> (off: usize)
        requires
            self.wf(),
        ensures
            off == self.spec_offset_of(i as int),
            off <= self.spec_span(),
    {
        let n = self.shape.len();
        let mut rem = i;
        let mut off: usize = 0;
        let mut axis: usize = n;
        proof {
            lemma_unravel_within_span(self.shape@, self.strides@, i as int, n as int);
        }
        while axis > 0
            invariant
                self.wf(),
                n == self.shape@.len(),
                axis <= n,
                off + unravel(self.shape@, self.strides@, rem as int, axis as int) == unravel(
                    self.shape@,
                    self.strides@,
                    i as int,
                    n as int,
                ),
                unravel(self.shape@, self.strides@, i as int, n as int) <= self.spec_span(),
            decreases axis,
        {
            let e = self.shape[axis - 1];
            proof {
                lemma_unravel_within_span(
                    self.shape@,
                    self.strides@,
                    (rem / e) as int,
                    axis - 1,
                );
                let s = self.strides@[axis - 1] as int;
                assert(0 <= (rem % e) * s) by (nonlinear_arith)
                    requires
                        0 <= rem % e,
                        0 <= s,
                ;
            }
            off = off + (rem % e) * self.strides[axis - 1];
            rem = rem / e;
            axis = axis - 1;
        }
        off
    }
}


/// Offset of the element at index `idx`, counted over the axes from `from`
/// on.
pub open spec fn offset_from(idx: Seq<usize>, strides: Seq<usize>, from: int) -> int
    decreases idx.len() - from,
{
    if from < 0 || from >= idx.len() {
        0
    } else {
        idx[from] * strides[from] + offset_from(idx, strides, from + 1)
    }
}

/// `idx` names an element of a view of `shape`.
pub open spec fn index_in_shape(idx: Seq<usize>, shape: Seq<usize>) -> bool {
    &&& idx.len() == shape.len()
    &&& forall|i: int| 0 <= i < shape.len() ==> #[trigger] idx[i] < shape[i]
}

/// An index inside the shape addresses an offset inside the span.
pub proof fn lemma_offset_within_span(
    idx: Seq<usize>,
    shape: Seq<usize>,
    strides: Seq<usize>,
    from: int,
)
    requires
        index_in_shape(idx, shape),
        strides.len() == shape.len(),
        0 <= from <= shape.len(),
    ensures
        0 <= offset_from(idx, strides, from) <= span_from(shape, strides, from),
    decreases shape.len() - from,
{
    if from < shape.len() {
        lemma_offset_within_span(idx, shape, strides, from + 1);
        let i = idx[from] as int;
        let e = shape[from] as int;
        let s = strides[from] as int;
        assert(0 <= i * s <= (e - 1) * s) by (nonlinear_arith)
            requires
                0 <= i < e,
                0 <= s,
        ;
    }
}

/// Moving an index along one axis moves its offset by that axis's stride
/// for every step.
pub proof fn lemma_offset_along_axis(
    idx: Seq<usize>,
    strides: Seq<usize>,
    axis: int,
    to: usize,
    from: int,
)
    requires
        strides.len() == idx.len(),
        0 <= axis < idx.len(),
        0 <= from <= idx.len(),
    ensures
        offset_from(idx.update(axis, to), strides, from) == offset_from(idx, strides, from) + (
        if from <= axis {
            (to - idx[axis]) * strides[axis]
        } else {
            0
        }),
    decreases idx.len() - from,
{
    if from < idx.len() {
        lemma_offset_along_axis(idx, strides, axis, to, from + 1);
        if from == axis {
            let s = strides[axis] as int;
            let a = idx[axis] as int;
            assert(to * s == a * s + (to - a) * s) by (nonlinear_arith);
        }
    }
}

impl TensorStrider {
    /// Offset of the element at index `idx`.
    pub open spec fn spec_at(&self, idx: Seq<usize>) -> int {
        offset_from(idx, self.spec_strides(), 0)
    }

    /// Offset of the element at index `idx`.
    ///
    /// Fails when the index has another rank than the view or lies outside
    /// its shape.
    pub fn at(&self, idx: &[usize]) -> (r: Result<usize>)
        requires
            self.wf(),
        ensures
            r is Ok <==> index_in_shape(idx@, self.spec_shape()),
            r matches Ok(off) ==> off == self.spec_at(idx@) && off <= self.spec_span(),
            r matches Err(e) ==> e.kind == ErrorKind::TensorShape && e.left@ == self.spec_shape()
                && e.right@.len() == 0,
    {
        let n = self.shape.len();
        if idx.len() != n {
            return Err(Error::of_shape(ErrorKind::TensorShape, &self.shape));
        }
        let mut off: usize = 0;
        let mut k: usize = n;
        while k > 0
            invariant
                self.wf(),
                n == self.shape@.len(),
                n == idx@.len(),
                k <= n,
                forall|j: int| k <= j < n ==> #[trigger] idx@[j] < self.shape@[j],
                off == offset_from(idx@, self.strides@, k as int),
                off <= span_from(self.shape@, self.strides@, k as int),
            decreases k,
        {
            if idx[k - 1] >= self.shape[k - 1] {
                return Err(Error::of_shape(ErrorKind::TensorShape, &self.shape));
            }
            proof {
                lemma_span_monotone(self.shape@, self.strides@, k - 1);
                let i = idx@[k - 1] as int;
                let e = self.shape@[k - 1] as int;
                let s = self.strides@[k - 1] as int;
                assert(0 <= i * s <= (e - 1) * s) by (nonlinear_arith)
                    requires
                        0 <= i < e,
                        0 <= s,
                ;
            }
            off = off + idx[k - 1] * self.strides[k - 1];
            k = k - 1;
        }
        Ok(off)
    }
}

} // verus!
