//! The two next-prime searches: `short_next_prime` on `i64`, whose candidate
//! test stops one below the square root taken in `f64`, and
//! `long_next_prime` on big integers, which tests every divisor up to the
//! square root.
use crate::bignum::{big_add, big_eq, big_le, big_rem, big_sqrt, trunc_rem, BigNum};
use crate::double_sqrt::{
    double_sqrt_trunc, double_sqrt_trunc_exec, lemma_to_double_bounds, to_double,
};
use vstd::arithmetic::div_mod::{
    lemma_add_mod_noop, lemma_fundamental_div_mod, lemma_mod_multiples_basic, lemma_mod_self_0,
    lemma_mul_mod_noop_right, lemma_small_mod,
};
use vstd::arithmetic::mul::{lemma_mul_is_associative, lemma_mul_is_commutative};
use vstd::prelude::*;

verus! {

/// `d` divides `n`.
pub open spec fn divides(d: int, n: int) -> bool {
    n % d == 0
}

/// The truncated square root of `n` (0 for `n <= 0`).
pub open spec fn isqrt(n: int) -> int
    decreases n,
{
    if n <= 0 {
        0
    } else {
        let r = isqrt(n - 1);
        if (r + 1) * (r + 1) <= n {
            r + 1
        } else {
            r
        }
    }
}

/// `n` is a prime number.
pub open spec fn is_prime(n: int) -> bool {
    &&& n >= 2
    &&& forall|d: int| 2 <= d < n ==> !#[trigger] divides(d, n)
}

/// The candidate test of `short_next_prime`: no `j` with
/// `2 <= j < (k as f64).sqrt() as i64` divides `k` (so every `k <= 8`
/// passes, and so do the negative ones, whose root is NaN and gives 0).
pub open spec fn passes_short(k: int) -> bool {
    forall|j: int| 2 <= j < double_sqrt_trunc(k) ==> !#[trigger] divides(j, k)
}

/// The candidate test of `long_next_prime`: `k >= 1` and no `d` with
/// `2 <= d <= isqrt(k)` divides it.
pub open spec fn passes_long(k: int) -> bool {
    &&& k >= 1
    &&& forall|d: int| 2 <= d <= isqrt(k) ==> !#[trigger] divides(d, k)
}

/// `n!`
pub open spec fn factorial(n: nat) -> nat
    decreases n,
{
    if n == 0 {
        1
    } else {
        n * factorial((n - 1) as nat)
    }
}

/// The least divisor of `m` that is at least `k` (and at most `m`).
pub open spec fn least_divisor_from(m: int, k: int) -> int
    decreases m - k,
{
    if k >= m {
        m
    } else if m % k == 0 {
        k
    } else {
        least_divisor_from(m, k + 1)
    }
}

/// `isqrt(n)` is the `r >= 0` with `r*r <= n < (r+1)*(r+1)`.
pub proof fn lemma_isqrt_bounds(n: int)
    requires
        n >= 0,
    ensures
        isqrt(n) >= 0,
        isqrt(n) * isqrt(n) <= n < (isqrt(n) + 1) * (isqrt(n) + 1),
    decreases n,
{
    if n > 0 {
        lemma_isqrt_bounds(n - 1);
        let r = isqrt(n - 1);
        assert((r + 2) * (r + 2) == (r + 1) * (r + 1) + 2 * r + 3) by (nonlinear_arith);
    }
}

/// The bounds `r*r <= n < (r+1)*(r+1)` fix `r` as `isqrt(n)`.
pub proof fn lemma_isqrt_unique(n: int, r: int)
    requires
        r >= 0,
        r * r <= n < (r + 1) * (r + 1),
    ensures
        isqrt(n) == r,
{
    lemma_isqrt_bounds(n);
    let s = isqrt(n);
    if r < s {
        assert((r + 1) * (r + 1) <= s * s) by (nonlinear_arith)
            requires
                0 <= r + 1 <= s,
        ;
    }
    if s < r {
        assert((s + 1) * (s + 1) <= r * r) by (nonlinear_arith)
            requires
                0 <= s + 1 <= r,
        ;
    }
}

proof fn lemma_square_below(d: int, s: int)
    requires
        d >= 0,
        s >= 0,
        d * d < (s + 1) * (s + 1),
    ensures
        d <= s,
{
    if d > s {
        assert((s + 1) * (s + 1) <= d * d) by (nonlinear_arith)
            requires
                0 <= s + 1 <= d,
        ;
    }
}

proof fn lemma_small_square_is_below(d: int, n: int)
    requires
        d >= 2,
        d * d <= n,
    ensures
        d < n,
{
    assert(d < d * d) by (nonlinear_arith)
        requires
            d >= 2,
    ;
}

/// A divisor up to the square root is at most `isqrt(n)`, and back.
proof fn lemma_le_isqrt(d: int, n: int)
    requires
        d >= 0,
        n >= 0,
    ensures
        (d <= isqrt(n)) <==> (d * d <= n),
{
    lemma_isqrt_bounds(n);
    let s = isqrt(n);
    if d <= s {
        assert(d * d <= s * s) by (nonlinear_arith)
            requires
                0 <= d <= s,
        ;
    }
    if d * d <= n {
        lemma_square_below(d, s);
    }
}

/// Law: a number of at least 2 passes the test of `long_next_prime`
/// exactly when it is prime.
pub proof fn lemma_passes_long_iff_prime(n: int)
    requires
        n >= 2,
    ensures
        passes_long(n) <==> is_prime(n),
{
    lemma_isqrt_bounds(n);
    if is_prime(n) {
        assert forall|d: int| 2 <= d <= isqrt(n) implies !#[trigger] divides(d, n) by {
            lemma_le_isqrt(d, n);
            lemma_small_square_is_below(d, n);
        }
    }
    if passes_long(n) {
        assert forall|d: int| 2 <= d < n implies !#[trigger] divides(d, n) by {
            if divides(d, n) {
                lemma_fundamental_div_mod(n, d);
                let e = n / d;
                assert(n == d * e);
                assert(e >= 2) by (nonlinear_arith)
                    requires
                        n == d * e,
                        2 <= d < n,
                ;
                if d <= e {
                    assert(d * d <= d * e) by (nonlinear_arith)
                        requires
                            0 <= d <= e,
                    ;
                    lemma_le_isqrt(d, n);
                } else {
                    assert(e * e <= d * e) by (nonlinear_arith)
                        requires
                            0 <= e <= d,
                    ;
                    lemma_mod_multiples_basic(d, e);
                    lemma_le_isqrt(e, n);
                    assert(divides(e, n));
                }
            }
        }
    }
}

/// Law: for `x >= 1`, the first number above `x` that passes the test of
/// `long_next_prime` is the first prime above `x`.
pub proof fn lemma_next_passing_long_is_next_prime(x: int, r: int)
    requires
        x >= 1,
        x < r,
        passes_long(r),
        forall|k: int| x < k < r ==> !passes_long(k),
    ensures
        is_prime(r),
        forall|k: int| x < k < r ==> !is_prime(k),
{
    lemma_passes_long_iff_prime(r);
    assert forall|k: int| x < k < r implies !is_prime(k) by {
        lemma_passes_long_iff_prime(k);
    }
}

/// Law: 1 passes the test of `long_next_prime`, so the search from 0 or -1
/// ends at 1.
pub proof fn lemma_one_passes_long()
    ensures
        passes_long(1),
{
    lemma_isqrt_unique(1, 1);
}

/// Law: every prime passes the test of `short_next_prime`.
pub proof fn lemma_prime_passes_short(n: int)
    requires
        is_prime(n),
    ensures
        passes_short(n),
{
    let d = to_double(n as nat) as int;
    lemma_to_double_bounds(n as nat);
    lemma_isqrt_bounds(d);
    assert forall|j: int| 2 <= j < double_sqrt_trunc(n) implies !#[trigger] divides(j, n) by {
        let q = isqrt(d);
        assert(j <= q);
        assert(j * j <= d) by (nonlinear_arith)
            requires
                0 <= j <= q,
                q * q <= d,
        ;
        if n < 0x20_0000_0000_0000 {
            lemma_small_square_is_below(j, n);
        } else {
            assert(j < n) by (nonlinear_arith)
                requires
                    j >= 2,
                    j * j <= d,
                    d <= 2 * n,
                    n >= 0x20_0000_0000_0000,
            ;
        }
    }
}

proof fn lemma_factorial_positive(n: nat)
    ensures
        factorial(n) >= 1,
    decreases n,
{
    if n > 0 {
        lemma_factorial_positive((n - 1) as nat);
        let f = factorial((n - 1) as nat);
        assert(n * f >= 1) by (nonlinear_arith)
            requires
                n >= 1,
                f >= 1,
        ;
    }
}

proof fn lemma_factorial_divisible(n: nat, k: nat)
    requires
        1 <= k <= n,
    ensures
        (factorial(n) as int) % (k as int) == 0,
    decreases n,
{
    let f = factorial((n - 1) as nat);
    if k == n {
        lemma_mul_is_commutative(n as int, f as int);
        lemma_mod_multiples_basic(f as int, n as int);
    } else {
        lemma_factorial_divisible((n - 1) as nat, k);
        lemma_mul_mod_noop_right(n as int, f as int, k as int);
        assert((n as int) * 0 == 0);
        lemma_small_mod(0, k);
    }
}

proof fn lemma_least_divisor(m: int, k: int)
    requires
        2 <= k <= m,
    ensures
        k <= least_divisor_from(m, k) <= m,
        m % least_divisor_from(m, k) == 0,
        forall|e: int| k <= e < least_divisor_from(m, k) ==> #[trigger] (m % e) != 0,
    decreases m - k,
{
    if k >= m {
        lemma_mod_self_0(m);
    } else if m % k != 0 {
        lemma_least_divisor(m, k + 1);
    }
}

/// A divisor of a divisor of `m` divides `m`.
proof fn lemma_divides_trans(e: int, d: int, m: int)
    requires
        e > 0,
        d > 0,
        d % e == 0,
        m % d == 0,
    ensures
        m % e == 0,
{
    lemma_fundamental_div_mod(m, d);
    lemma_fundamental_div_mod(d, e);
    let q = m / d;
    let r = d / e;
    assert(m == d * q);
    assert(d == e * r);
    lemma_mul_is_associative(e, r, q);
    assert(m == e * (r * q));
    lemma_mod_multiples_basic(r * q, e);
    lemma_mul_is_commutative(e, r * q);
}

/// Law: above every integer there is a prime.
pub proof fn lemma_prime_above(n: int)
    ensures
        exists|p: int| p > n && is_prime(p),
{
    let big: nat = if n < 1 { 1 } else { n as nat };
    lemma_factorial_positive(big);
    let m: int = factorial(big) as int + 1;
    lemma_least_divisor(m, 2);
    let d = least_divisor_from(m, 2);
    assert forall|e: int| 2 <= e < d implies !#[trigger] divides(e, d) by {
        if divides(e, d) {
            lemma_divides_trans(e, d, m);
        }
    }
    if d <= big {
        lemma_factorial_divisible(big, d as nat);
        lemma_add_mod_noop(factorial(big) as int, 1, d);
        lemma_small_mod(1, d as nat);
        lemma_small_mod(0, d as nat);
    }
    assert(d > n && is_prime(d));
}

/// The candidate test of `short_next_prime`.
fn short_candidate_passes(i: i64) -> (r: bool)
    ensures
        r == passes_short(i as int),
{
    let lim = double_sqrt_trunc_exec(i);
    let mut j: i64 = 2;
    while j < lim
        invariant
            2 <= j,
            j == 2 || j <= lim,
            lim == double_sqrt_trunc(i as int),
            forall|d: int| 2 <= d < j ==> !#[trigger] divides(d, i as int),
        decreases lim - j,
    {
        if i % j == 0 {
            proof {
                assert(divides(j as int, i as int));
            }
            return false;
        }
        j = j + 1;
    }
    true
}

/// The first `i > x` that passes the test of `short_next_prime`, or `None`
/// where no such `i` fits in an `i64`.
pub fn short_next_prime_checked(x: i64) -> (r: Option<i64>)
    ensures
        r matches Some(v) ==> {
            &&& x < v
            &&& passes_short(v as int)
            &&& forall|k: int| x < k < v ==> !passes_short(k)
        },
        r is None ==> forall|k: int| x < k <= i64::MAX ==> !passes_short(k),
{
    if x == i64::MAX {
        return None;
    }
    let mut i: i64 = x + 1;
    loop
        invariant
            x < i,
            forall|k: int| x < k < i ==> !passes_short(k),
        decreases i64::MAX - i,
    {
        if short_candidate_passes(i) {
            return Some(i);
        }
        if i == i64::MAX {
            return None;
        }
        i = i + 1;
    }
}

/// The first `i > x` that passes the test of `short_next_prime`; `i` is
/// tested against every `j` with `2 <= j < (i as f64).sqrt() as i64`, so
/// for instance 4 and 9 pass.  Where no such `i` fits in an `i64` the search
/// overflows, hence the precondition; `short_next_prime_checked` has none.
pub fn short_next_prime(x: i64) -> (r: i64)
    requires
        exists|k: int| x < k <= i64::MAX && passes_short(k),
    ensures
        x < r,
        passes_short(r as int),
        forall|k: int| x < k < r ==> !passes_short(k),
        forall|p: int| x < p && is_prime(p) ==> r <= p,
{
    match short_next_prime_checked(x) {
        Some(r) => {
            proof {
                assert forall|p: int| x < p && is_prime(p) implies r <= p by {
                    lemma_prime_passes_short(p);
                }
            }
            r
        },
        None => {
            proof {
                let w = choose|k: int| x < k <= i64::MAX && passes_short(k);
                assert(!passes_short(w));
            }
            x
        },
    }
}

/// The first `i > x` that passes the test of `long_next_prime`, that is,
/// `i >= 1` and no `d` with `2 <= d <= isqrt(i)` divides `i`.  `BigInt::sqrt`
/// panics on a negative candidate, hence `x >= -1`.
pub fn long_next_prime(x: &BigNum) -> (r: BigNum)
    requires
        x.value() >= -1,
    ensures
        x.value() < r.value(),
        passes_long(r.value()),
        forall|k: int| x.value() < k < r.value() ==> !passes_long(k),
        x.value() >= 1 ==> is_prime(r.value()),
        x.value() >= 1 ==> forall|k: int| x.value() < k < r.value() ==> !is_prime(k),
        x.value() <= 0 ==> r.value() == 1,
{
    let zero = BigNum::small(0);
    let one = BigNum::small(1);
    proof {
        lemma_prime_above(x.value());
    }
    let ghost p = choose|p: int| p > x.value() && is_prime(p);
    proof {
        lemma_passes_long_iff_prime(p);
    }
    let mut i = big_add(x, &one);
    loop
        invariant
            x.value() < i.value() <= p,
            i.value() >= 0,
            passes_long(p),
            zero.value() == 0,
            one.value() == 1,
            forall|k: int| x.value() < k < i.value() ==> !passes_long(k),
        decreases p - i.value(),
    {
        let root = big_sqrt(&i);
        let lim = big_add(&root, &one);
        proof {
            lemma_isqrt_unique(i.value(), root.value());
        }
        proof {
            lemma_isqrt_bounds(i.value());
            if isqrt(i.value()) == 0 {
                let s0 = isqrt(i.value());
                assert((s0 + 1) * (s0 + 1) == 1) by (nonlinear_arith)
                    requires
                        s0 == 0,
                ;
            }
        }
        let mut j = BigNum::small(2);
        while big_le(&j, &lim)
            invariant_except_break
                2 <= j.value() <= lim.value() + 1,
                j.value() == 2 || j.value() <= lim.value(),
            invariant
                lim.value() <= 1 ==> i.value() == 0,
                i.value() >= 0,
                lim.value() == isqrt(i.value()) + 1,
                zero.value() == 0,
                one.value() == 1,
                x.value() < i.value() <= p,
                passes_long(p),
                forall|k: int| x.value() < k < i.value() ==> !passes_long(k),
                forall|d: int| 2 <= d < j.value() ==> !#[trigger] divides(d, i.value()),
            ensures
                !passes_long(i.value()),
            decreases lim.value() + 1 - j.value(),
        {
            if big_eq(&j, &lim) {
                proof {
                    assert(i.value() >= 1) by {
                        lemma_isqrt_bounds(i.value());
                        if i.value() == 0 {
                            assert(isqrt(0) == 0);
                        }
                    }
                    if x.value() >= 1 {
                        lemma_next_passing_long_is_next_prime(x.value(), i.value());
                    } else {
                        lemma_one_passes_long();
                    }
                }
                return i;
            }
            let rem = big_rem(&i, &j);
            if big_eq(&rem, &zero) {
                proof {
                    assert(trunc_rem(i.value(), j.value()) == i.value() % j.value());
                    assert(divides(j.value(), i.value()));
                }
                break;
            }
            j = big_add(&j, &one);
        }
        i = big_add(&i, &one);
    }
}

} // verus!
