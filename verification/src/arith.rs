//! Index arithmetic for row-major storage, and the meaning of a left fold
//! carried out by caller-supplied closures.

use vstd::prelude::*;
use vstd::arithmetic::div_mod::lemma_fundamental_div_mod_converse;
use vstd::arithmetic::div_mod::lemma_fundamental_div_mod;
use vstd::arithmetic::mul::lemma_mul_is_commutative;

verus! {

/// Position `(r, c)` of a row-major `rows x cols` layout lies inside it.
pub proof fn lemma_index_in_bounds(r: int, c: int, rows: int, cols: int)
    requires
        0 <= r < rows,
        0 <= c < cols,
    ensures
        0 <= r * cols + c < rows * cols,
        r * cols + c + 1 <= rows * cols,
{
    assert(0 <= r * cols) by (nonlinear_arith)
        requires
            0 <= r,
            0 <= cols,
    ;
    assert((r + 1) * cols <= rows * cols) by (nonlinear_arith)
        requires
            r + 1 <= rows,
            0 <= cols,
    ;
    assert((r + 1) * cols == r * cols + cols) by (nonlinear_arith);
}

/// Splitting a flat index into its row and column recovers them.
pub proof fn lemma_split_index(r: int, c: int, cols: int)
    requires
        0 <= c < cols,
        0 <= r,
    ensures
        (r * cols + c) / cols == r,
        (r * cols + c) % cols == c,
{
    lemma_fundamental_div_mod_converse(r * cols + c, cols, r, c);
}

/// A flat index below `rows * cols` has its row below `rows` and its
/// column below `cols`.
pub proof fn lemma_flat_index(k: int, rows: int, cols: int)
    requires
        0 <= k < rows * cols,
        0 < cols,
    ensures
        0 <= k / cols < rows,
        0 <= k % cols < cols,
        k == (k / cols) * cols + k % cols,
{
    lemma_fundamental_div_mod(k, cols);
    lemma_mul_is_commutative(cols, k / cols);
    assert(0 <= k / cols) by (nonlinear_arith)
        requires
            0 <= k,
            0 < cols,
    ;
    if k / cols >= rows {
        assert((k / cols) * cols >= rows * cols) by (nonlinear_arith)
            requires
                k / cols >= rows,
                0 < cols,
        ;
    }
}

/// `steps` records a left fold of `plus` over `s` started at `init`:
/// `steps[0] == init` and `steps[i + 1]` is what `plus(&steps[i], &s[i])`
/// returned.
pub open spec fn fold_steps<T, A: Fn(&T, &T) -> T>(plus: A, init: T, s: Seq<T>, steps: Seq<T>) -> bool {
    &&& steps.len() == s.len() + 1
    &&& steps[0] == init
    &&& forall|i: int|
        0 <= i < s.len() ==> call_ensures(plus, (&steps[i], &s[i]), #[trigger] steps[i + 1])
}

/// `r` is what a left fold of `plus` over `s`, started at `init`, returns.
pub open spec fn is_fold<T, A: Fn(&T, &T) -> T>(plus: A, init: T, s: Seq<T>, r: T) -> bool {
    exists|steps: Seq<T>|
        #![trigger fold_steps(plus, init, s, steps)]
        fold_steps(plus, init, s, steps) && steps.last() == r
}

/// `products[i]` is what `times(&a[i], &b[i])` returned, for each `i`.
pub open spec fn pairwise_products<T, M: Fn(&T, &T) -> T>(
    times: M,
    a: Seq<T>,
    b: Seq<T>,
    products: Seq<T>,
) -> bool {
    &&& a.len() == b.len()
    &&& products.len() == a.len()
    &&& forall|i: int|
        0 <= i < a.len() ==> call_ensures(times, (&a[i], &b[i]), #[trigger] products[i])
}

/// `r` is the inner product of `a` and `b`: the products `times(&a[i], &b[i])`
/// summed by a left fold of `plus` started at `zero`.
pub open spec fn is_dot<T, M: Fn(&T, &T) -> T, A: Fn(&T, &T) -> T>(
    times: M,
    plus: A,
    zero: T,
    a: Seq<T>,
    b: Seq<T>,
    r: T,
) -> bool {
    exists|products: Seq<T>|
        #![trigger pairwise_products(times, a, b, products)]
        pairwise_products(times, a, b, products) && is_fold(plus, zero, products, r)
}

/// `f` gives one result for each pair of arguments.
pub open spec fn deterministic<T, F: Fn(&T, &T) -> T>(f: F) -> bool {
    forall|x: T, y: T, r: T, s: T|
        #[trigger] call_ensures(f, (&x, &y), r) && #[trigger] call_ensures(f, (&x, &y), s) ==> r == s
}

/// Two records of the same fold agree up to step `i`.
proof fn lemma_steps_agree<T, A: Fn(&T, &T) -> T>(plus: A, init: T, s: Seq<T>, st1: Seq<T>, st2: Seq<T>, i: int)
    requires
        deterministic(plus),
        fold_steps(plus, init, s, st1),
        fold_steps(plus, init, s, st2),
        0 <= i <= s.len(),
    ensures
        st1[i] == st2[i],
    decreases i,
{
    if i > 0 {
        let j = i - 1;
        lemma_steps_agree(plus, init, s, st1, st2, j);
        assert(call_ensures(plus, (&st1[j], &s[j]), st1[j + 1]));
        assert(call_ensures(plus, (&st2[j], &s[j]), st2[j + 1]));
    }
}

/// With a deterministic `plus`, a fold has one result.
pub proof fn lemma_fold_unique<T, A: Fn(&T, &T) -> T>(plus: A, init: T, s: Seq<T>, r1: T, r2: T)
    requires
        deterministic(plus),
        is_fold(plus, init, s, r1),
        is_fold(plus, init, s, r2),
    ensures
        r1 == r2,
{
    let st1 = choose|st: Seq<T>| fold_steps(plus, init, s, st) && st.last() == r1;
    let st2 = choose|st: Seq<T>| fold_steps(plus, init, s, st) && st.last() == r2;
    lemma_steps_agree(plus, init, s, st1, st2, s.len() as int);
}

/// With deterministic `times` and `plus`, an inner product has one result.
pub proof fn lemma_dot_unique<T, M: Fn(&T, &T) -> T, A: Fn(&T, &T) -> T>(
    times: M,
    plus: A,
    zero: T,
    a: Seq<T>,
    b: Seq<T>,
    r1: T,
    r2: T,
)
    requires
        deterministic(times),
        deterministic(plus),
        is_dot(times, plus, zero, a, b, r1),
        is_dot(times, plus, zero, a, b, r2),
    ensures
        r1 == r2,
{
    let p1 = choose|p: Seq<T>| pairwise_products(times, a, b, p) && is_fold(plus, zero, p, r1);
    let p2 = choose|p: Seq<T>| pairwise_products(times, a, b, p) && is_fold(plus, zero, p, r2);
    assert forall|i: int| 0 <= i < p1.len() implies p1[i] == p2[i] by {
        assert(call_ensures(times, (&a[i], &b[i]), p1[i]));
        assert(call_ensures(times, (&a[i], &b[i]), p2[i]));
    }
    assert(p1 =~= p2);
    lemma_fold_unique(plus, zero, p1, r1, r2);
}

} // verus!
