//! Left-to-right accumulation with a caller-supplied step.
//!
//! The kernels of this crate never interpret the scalars they move. Whatever
//! arithmetic combines them is handed in as a function value, and a contract
//! says which operands reach that function and in which order.
use vstd::prelude::*;

verus! {

/// The step function accepts every triple of arguments.
pub open spec fn total3<A, L, R, F: Fn(A, L, R) -> A>(step: F) -> bool {
    forall|acc: A, l: L, r: R| call_requires(step, (acc, l, r))
}

/// `n` items of `s`, the first at `off`, each `stride` after the one before.
pub open spec fn strided<T>(s: Seq<T>, off: int, stride: int, n: nat) -> Seq<T> {
    Seq::new(n, |k: int| s[off + k * stride])
}

/// `out` is a value that `step` can produce from `init` by consuming the pairs
/// `(ls[0], rs[0])`, `(ls[1], rs[1])`, ... in ascending order.
pub open spec fn mac_fold<A, L, R, F: Fn(A, L, R) -> A>(
    step: F,
    init: A,
    ls: Seq<L>,
    rs: Seq<R>,
    out: A,
) -> bool
    decreases ls.len(),
{
    if ls.len() == 0 {
        out == init
    } else {
        exists|prev: A|
            mac_fold(step, init, ls.drop_last(), rs.drop_last(), prev) && #[trigger] call_ensures(
                step,
                (prev, ls.last(), rs.last()),
                out,
            )
    }
}

/// Extending a fold by one pair.
pub proof fn lemma_mac_fold_push<A, L, R, F: Fn(A, L, R) -> A>(
    step: F,
    init: A,
    ls: Seq<L>,
    rs: Seq<R>,
    prev: A,
    l: L,
    r: R,
    out: A,
)
    requires
        mac_fold(step, init, ls, rs, prev),
        call_ensures(step, (prev, l, r), out),
    ensures
        mac_fold(step, init, ls.push(l), rs.push(r), out),
{
    let ls1 = ls.push(l);
    let rs1 = rs.push(r);
    assert(ls1.drop_last() =~= ls);
    assert(rs1.drop_last() =~= rs);
    assert(ls1.last() == l && rs1.last() == r);
    assert(mac_fold(step, init, ls1.drop_last(), rs1.drop_last(), prev) && call_ensures(
        step,
        (prev, ls1.last(), rs1.last()),
        out,
    ));
}

/// Accumulates `n` pairs taken at fixed strides from two slices.
pub fn mac_strided<A, L: Copy, R: Copy, F: Fn(A, L, R) -> A>(
    step: &F,
    init: A,
    a: &[L],
    a_off: usize,
    a_stride: usize,
    b: &[R],
    b_off: usize,
    b_stride: usize,
    n: usize,
) -> (out: A)
    requires
        total3(*step),
        n > 0 ==> a_off + (n - 1) * a_stride < a@.len(),
        n > 0 ==> b_off + (n - 1) * b_stride < b@.len(),
    ensures
        mac_fold(
            *step,
            init,
            strided(a@, a_off as int, a_stride as int, n as nat),
            strided(b@, b_off as int, b_stride as int, n as nat),
            out,
        ),
{
    let mut acc = init;
    let mut k: usize = 0;
    let mut ia: usize = a_off;
    let mut ib: usize = b_off;
    while k < n
        invariant
            total3(*step),
            k <= n,
            n > 0 ==> a_off + (n - 1) * a_stride < a@.len(),
            n > 0 ==> b_off + (n - 1) * b_stride < b@.len(),
            k < n ==> ia == a_off + k * a_stride,
            k < n ==> ib == b_off + k * b_stride,
            mac_fold(
                *step,
                init,
                strided(a@, a_off as int, a_stride as int, k as nat),
                strided(b@, b_off as int, b_stride as int, k as nat),
                acc,
            ),
        decreases n - k,
    {
        proof {
            lemma_strided_in_bounds(a_off as int, a_stride as int, n as int, k as int);
            lemma_strided_in_bounds(b_off as int, b_stride as int, n as int, k as int);
        }
        let l = a[ia];
        let r = b[ib];
        let ghost prev = acc;
        acc = step(acc, l, r);
        proof {
            let ls = strided(a@, a_off as int, a_stride as int, k as nat);
            let rs = strided(b@, b_off as int, b_stride as int, k as nat);
            lemma_mac_fold_push(*step, init, ls, rs, prev, l, r, acc);
            assert(ls.push(l) =~= strided(a@, a_off as int, a_stride as int, (k + 1) as nat));
            assert(rs.push(r) =~= strided(b@, b_off as int, b_stride as int, (k + 1) as nat));
        }
        k = k + 1;
        if k < n {
            proof {
                lemma_strided_in_bounds(a_off as int, a_stride as int, n as int, k as int);
                lemma_strided_in_bounds(b_off as int, b_stride as int, n as int, k as int);
            }
            ia = ia + a_stride;
            ib = ib + b_stride;
        }
    }
    acc
}

/// A slice holds no more elements than a machine integer counts.
pub proof fn lemma_len_fits<T>(s: &[T])
    ensures
        s@.len() <= usize::MAX,
{
    vstd::slice::axiom_spec_len(s);
}

/// Every position of a strided walk lies at or before its last one.
pub proof fn lemma_strided_in_bounds(off: int, stride: int, n: int, k: int)
    requires
        0 <= off,
        0 <= stride,
        0 <= k < n,
    ensures
        0 <= off + k * stride <= off + (n - 1) * stride,
        off + (k + 1) * stride == off + k * stride + stride,
{
    assert(0 <= k * stride <= (n - 1) * stride) by (nonlinear_arith)
        requires
            0 <= stride,
            0 <= k < n,
    ;
    assert((k + 1) * stride == k * stride + stride) by (nonlinear_arith);
}




/// The step function accepts every pair of arguments.
pub open spec fn total2<A, X, F: Fn(A, X) -> A>(step: F) -> bool {
    forall|acc: A, x: X| call_requires(step, (acc, x))
}

/// `out` is a value that `step` can produce from `init` by consuming
/// `xs[0]`, `xs[1]`, ... in ascending order.
pub open spec fn fold_reaches<A, X, F: Fn(A, X) -> A>(step: F, init: A, xs: Seq<X>, out: A) -> bool
    decreases xs.len(),
{
    if xs.len() == 0 {
        out == init
    } else {
        exists|prev: A|
            fold_reaches(step, init, xs.drop_last(), prev) && #[trigger] call_ensures(
                step,
                (prev, xs.last()),
                out,
            )
    }
}

/// Extending a fold by one item.
pub proof fn lemma_fold_push<A, X, F: Fn(A, X) -> A>(
    step: F,
    init: A,
    xs: Seq<X>,
    prev: A,
    x: X,
    out: A,
)
    requires
        fold_reaches(step, init, xs, prev),
        call_ensures(step, (prev, x), out),
    ensures
        fold_reaches(step, init, xs.push(x), out),
{
    let xs1 = xs.push(x);
    assert(xs1.drop_last() =~= xs);
    assert(xs1.last() == x);
    assert(fold_reaches(step, init, xs1.drop_last(), prev) && call_ensures(
        step,
        (prev, xs1.last()),
        out,
    ));
}

/// What a fold yields when each step is the function `g`.
pub open spec fn mac_value<A, L, R>(g: spec_fn(A, L, R) -> A, init: A, ls: Seq<L>, rs: Seq<R>) -> A
    decreases ls.len(),
{
    if ls.len() == 0 {
        init
    } else {
        g(mac_value(g, init, ls.drop_last(), rs.drop_last()), ls.last(), rs.last())
    }
}

/// A fold through a step that can only return `g` of its arguments has
/// exactly one outcome: the value of the fold of `g`.
pub proof fn lemma_mac_fold_value<A, L, R, F: Fn(A, L, R) -> A>(
    step: F,
    g: spec_fn(A, L, R) -> A,
    init: A,
    ls: Seq<L>,
    rs: Seq<R>,
    out: A,
)
    requires
        forall|acc: A, l: L, r: R, o: A| #[trigger]
            call_ensures(step, (acc, l, r), o) ==> o == g(acc, l, r),
        mac_fold(step, init, ls, rs, out),
    ensures
        out == mac_value(g, init, ls, rs),
    decreases ls.len(),
{
    if ls.len() > 0 {
        let prev = choose|prev: A|
            mac_fold(step, init, ls.drop_last(), rs.drop_last(), prev) && #[trigger] call_ensures(
                step,
                (prev, ls.last(), rs.last()),
                out,
            );
        lemma_mac_fold_value(step, g, init, ls.drop_last(), rs.drop_last(), prev);
    }
}

/// What a fold yields when each step is the function `g`.
pub open spec fn fold_value<A, X>(g: spec_fn(A, X) -> A, init: A, xs: Seq<X>) -> A
    decreases xs.len(),
{
    if xs.len() == 0 {
        init
    } else {
        g(fold_value(g, init, xs.drop_last()), xs.last())
    }
}

/// A fold through a step that can only return `g` of its arguments has
/// exactly one outcome: the value of the fold of `g`.
pub proof fn lemma_fold_value<A, X, F: Fn(A, X) -> A>(
    step: F,
    g: spec_fn(A, X) -> A,
    init: A,
    xs: Seq<X>,
    out: A,
)
    requires
        forall|acc: A, x: X, o: A| #[trigger] call_ensures(step, (acc, x), o) ==> o == g(acc, x),
        fold_reaches(step, init, xs, out),
    ensures
        out == fold_value(g, init, xs),
    decreases xs.len(),
{
    if xs.len() > 0 {
        let prev = choose|prev: A|
            fold_reaches(step, init, xs.drop_last(), prev) && #[trigger] call_ensures(
                step,
                (prev, xs.last()),
                out,
            );
        lemma_fold_value(step, g, init, xs.drop_last(), prev);
    }
}


/// Exchanging the operands of a dot product does not change what it can
/// yield, when the step treats its two operands alike: whatever the step can
/// return for a pair, it can return for the exchanged pair.
pub proof fn lemma_mac_fold_symmetric<A, X, F: Fn(A, X, X) -> A>(
    step: F,
    init: A,
    ls: Seq<X>,
    rs: Seq<X>,
    out: A,
)
    requires
        ls.len() == rs.len(),
        forall|acc: A, l: X, r: X, o: A| #[trigger]
            call_ensures(step, (acc, l, r), o) ==> call_ensures(step, (acc, r, l), o),
        mac_fold(step, init, ls, rs, out),
    ensures
        mac_fold(step, init, rs, ls, out),
    decreases ls.len(),
{
    if ls.len() > 0 {
        let prev = choose|prev: A|
            mac_fold(step, init, ls.drop_last(), rs.drop_last(), prev) && #[trigger] call_ensures(
                step,
                (prev, ls.last(), rs.last()),
                out,
            );
        lemma_mac_fold_symmetric(step, init, ls.drop_last(), rs.drop_last(), prev);
        assert(mac_fold(step, init, rs.drop_last(), ls.drop_last(), prev) && call_ensures(
            step,
            (prev, rs.last(), ls.last()),
            out,
        ));
    }
}

/// A row of `n` weights that is `one` at position `i` and `nil` elsewhere.
pub open spec fn unit_row<L>(n: nat, i: int, one: L, nil: L) -> Seq<L> {
    Seq::new(
        n,
        |k: int|
            if k == i {
                one
            } else {
                nil
            },
    )
}

/// A dot product with a unit row picks out one operand.
///
/// This holds for a step `g` that leaves the sum alone under the weight
/// `nil`, and turns the initial sum into the operand under the weight
/// `one`, for the operands at hand.
pub proof fn lemma_unit_row_picks<T>(
    g: spec_fn(T, T, T) -> T,
    zero: T,
    one: T,
    nil: T,
    xs: Seq<T>,
    i: int,
)
    requires
        forall|acc: T, k: int| 0 <= k < xs.len() ==> #[trigger] g(acc, nil, xs[k]) == acc,
        0 <= i < xs.len(),
        g(zero, one, xs[i]) == xs[i],
    ensures
        mac_value(g, zero, unit_row(xs.len(), i, one, nil), xs) == xs[i],
{
    lemma_unit_row_prefix(g, zero, one, nil, xs, i, xs.len());
    assert(xs.take(xs.len() as int) =~= xs);
}

/// Value of a dot product of the first `n` operands with the first `n`
/// weights of a unit row: the initial sum as long as the row's `one` has
/// not been reached, the picked operand after that.
proof fn lemma_unit_row_prefix<T>(
    g: spec_fn(T, T, T) -> T,
    zero: T,
    one: T,
    nil: T,
    xs: Seq<T>,
    i: int,
    n: nat,
)
    requires
        forall|acc: T, k: int| 0 <= k < xs.len() ==> #[trigger] g(acc, nil, xs[k]) == acc,
        0 <= i < xs.len(),
        g(zero, one, xs[i]) == xs[i],
        n <= xs.len(),
    ensures
        mac_value(g, zero, unit_row(n, i, one, nil), xs.take(n as int)) == if i < n {
            xs[i]
        } else {
            zero
        },
    decreases n,
{
    if n > 0 {
        let m = (n - 1) as nat;
        lemma_unit_row_prefix(g, zero, one, nil, xs, i, m);
        let row = unit_row(n, i, one, nil);
        assert(row.drop_last() =~= unit_row(m, i, one, nil));
        assert(xs.take(n as int).drop_last() =~= xs.take(m as int));
        assert(xs.take(n as int).last() == xs[m as int]);
        assert(row.last() == if m == i {
            one
        } else {
            nil
        });
    }
}

} // verus!
