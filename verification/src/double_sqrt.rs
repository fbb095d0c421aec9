//! `(i as f64).sqrt() as i64`, computed exactly with integers.
//!
//! `i as f64` rounds to the nearest double (ties to the even one), `sqrt` is
//! correctly rounded, and `as i64` truncates (a negative argument gives NaN,
//! which becomes 0).  Below 2^53 every integer is a double; above, the
//! doubles are the multiples of a power of two `double_unit(n)`.
use crate::primes::{isqrt, lemma_isqrt_bounds, lemma_isqrt_unique};
use vstd::arithmetic::div_mod::{
    lemma_div_basics, lemma_div_denominator, lemma_fundamental_div_mod, lemma_mod_bound,
};
use vstd::arithmetic::power2::{
    lemma2_to64, lemma2_to64_rest, lemma_pow2_adds, lemma_pow2_strictly_increases, lemma_pow2_unfold, pow2,
};
use vstd::prelude::*;

verus! {

/// The spacing of the doubles around `n`: 1 below 2^53, and doubling with
/// each further bit.
pub open spec fn double_unit(n: nat) -> nat
    decreases n,
{
    if n < 0x20_0000_0000_0000 {
        1
    } else {
        2 * double_unit(n / 2)
    }
}

/// `n as f64` for `n >= 0`: the nearest multiple of `double_unit(n)`, the
/// even multiple on a tie.
pub open spec fn to_double(n: nat) -> nat {
    let u = double_unit(n);
    let q = n / u;
    let r = n % u;
    if 2 * r < u || (2 * r == u && q % 2 == 0) {
        q * u
    } else {
        (q + 1) * u
    }
}

/// The number of binary digits of `n`.
pub open spec fn bit_length(n: nat) -> nat
    decreases n,
{
    if n == 0 {
        0
    } else {
        1 + bit_length(n / 2)
    }
}

/// For an integer `d` with `(k-1)^2 <= d < k^2` (`k >= 2`): the correctly
/// rounded square root of `d` is `k`, that is, `sqrt(d)` lies above the
/// midpoint of `k` and the double below it, `k - 2^-p` with
/// `p = 53 - bit_length(k - 1)`.
pub open spec fn sqrt_rounds_up(d: int, k: int) -> bool {
    let p = (53 - bit_length((k - 1) as nat)) as nat;
    (k * k - d) * pow2(2 * p + 2) < k * pow2(p + 2) - 1
}

/// `(i as f64).sqrt() as i64`.
pub open spec fn double_sqrt_trunc(i: int) -> int {
    if i <= 0 {
        0
    } else {
        let d = to_double(i as nat) as int;
        let q = isqrt(d);
        if sqrt_rounds_up(d, q + 1) {
            q + 1
        } else {
            q
        }
    }
}

proof fn lemma_double_unit_small(n: nat)
    requires
        n >= 0x20_0000_0000_0000,
    ensures
        double_unit(n) * 0x10_0000_0000_0000 <= n,
        double_unit(n) >= 1,
    decreases n,
{
    assert(double_unit(n) == 2 * double_unit(n / 2));
    if n / 2 >= 0x20_0000_0000_0000 {
        lemma_double_unit_small(n / 2);
    } else {
        assert(double_unit(n / 2) == 1);
    }
}

proof fn lemma_double_unit_pos(n: nat)
    ensures
        double_unit(n) >= 1,
    decreases n,
{
    if n >= 0x20_0000_0000_0000 {
        lemma_double_unit_pos(n / 2);
        assert(double_unit(n) == 2 * double_unit(n / 2));
    }
}

/// `n as f64` is `n` below 2^53, and at most `2n` for `n >= 1`.
pub proof fn lemma_to_double_bounds(n: nat)
    ensures
        n < 0x20_0000_0000_0000 ==> to_double(n) == n,
        n >= 1 ==> to_double(n) <= 2 * n,
{
    lemma_double_unit_pos(n);
    let u = double_unit(n);
    lemma_fundamental_div_mod(n as int, u as int);
    lemma_mod_bound(n as int, u as int);
    let q = n / u;
    let r = n % u;
    if n < 0x20_0000_0000_0000 {
        assert(u == 1);
        lemma_div_basics(n as int);
        assert(q == n);
        assert(r == 0);
    } else {
        lemma_double_unit_small(n);
        assert((q + 1) * u == q * u + u) by (nonlinear_arith);
        assert(u <= n);
    }
}

proof fn lemma_bit_length_bound(n: nat)
    ensures
        n < pow2(bit_length(n)),
    decreases n,
{
    if n == 0 {
        lemma2_to64();
    } else {
        lemma_bit_length_bound(n / 2);
        lemma_pow2_unfold(bit_length(n));
    }
}

proof fn lemma_bit_length_lower(n: nat)
    requires
        n >= 1,
    ensures
        pow2((bit_length(n) - 1) as nat) <= n,
        bit_length(n) >= 1,
    decreases n,
{
    if n == 1 {
        lemma2_to64();
        assert(bit_length(0) == 0);
    } else {
        lemma_bit_length_lower(n / 2);
        lemma_pow2_unfold((bit_length(n) - 1) as nat);
    }
}

/// With `k <= 2^p`, the square root never rounds up.
proof fn lemma_no_round_up(d: int, k: int, p: nat)
    requires
        d < k * k,
        0 < k <= pow2(p),
    ensures
        !((k * k - d) * pow2(2 * p + 2) < k * pow2(p + 2) - 1),
{
    lemma_pow2_adds(p, p + 2);
    assert(p + (p + 2) == 2 * p + 2);
    let a = pow2(p) as int;
    let b = pow2(p + 2) as int;
    assert(k * b <= a * b) by (nonlinear_arith)
        requires
            0 < k <= a,
            b >= 0,
    ;
    assert((k * k - d) * (a * b) >= a * b) by (nonlinear_arith)
        requires
            k * k - d >= 1,
            a * b >= 0,
    ;
}

/// `pow2(e)` for small `e`.
fn pow2_u128(e: u32) -> (r: u128)
    requires
        e <= 64,
    ensures
        r == pow2(e as nat),
{
    let mut r: u128 = 1;
    let mut j: u32 = 0;
    proof {
        lemma2_to64();
    }
    while j < e
        invariant
            j <= e <= 64,
            r == pow2(j as nat),
        decreases e - j,
    {
        proof {
            lemma_pow2_unfold((j + 1) as nat);
            if j < 64 {
                lemma_pow2_strictly_increases(j as nat, 64);
            }
            lemma2_to64();
        }
        r = r * 2;
        j = j + 1;
    }
    r
}

/// `n as f64` for `1 <= n`.
fn to_double_exec(n: u64) -> (d: u128)
    requires
        1 <= n < 0x8000_0000_0000_0000,
    ensures
        d == to_double(n as nat),
        d <= 2 * n,
{
    let mut m: u128 = n as u128;
    let mut u: u128 = 1;
    while m >= 0x20_0000_0000_0000
        invariant
            u >= 1,
            u * double_unit(m as nat) == double_unit(n as nat),
            m == (n as int) / (u as int),
            u * 0x10_0000_0000_0000 <= n || u == 1,
        decreases m,
    {
        proof {
            assert(double_unit(m as nat) == 2 * double_unit((m / 2) as nat));
            let dm = double_unit((m / 2) as nat);
            assert(u * (2 * dm) == (u * 2) * dm) by (nonlinear_arith);
            lemma_div_denominator(n as int, u as int, 2);
            lemma_fundamental_div_mod(n as int, u as int);
            assert(u * m <= n) by (nonlinear_arith)
                requires
                    u * m + (n as int) % (u as int) == n,
                    (n as int) % (u as int) >= 0,
            ;
            assert(u * 2 * 0x10_0000_0000_0000 <= n) by (nonlinear_arith)
                requires
                    u * m <= n,
                    m >= 0x20_0000_0000_0000,
                    u >= 1,
            ;
        }
        m = m / 2;
        u = u * 2;
    }
    proof {
        lemma_fundamental_div_mod(n as int, u as int);
        lemma_to_double_bounds(n as nat);
    }
    let r: u128 = n as u128 - m * u;
    proof {
        lemma_mod_bound(n as int, u as int);
        assert(r == (n as int) % (u as int));
        assert(u < 0x800);
        assert((m + 1) * u <= 0x20_0000_0000_0000 * 0x800) by (nonlinear_arith)
            requires
                m < 0x20_0000_0000_0000,
                u < 0x800,
        ;
        assert(double_unit(m as nat) == 1);
        let dm = double_unit(m as nat);
        let dn = double_unit(n as nat);
        assert(u == dn) by (nonlinear_arith)
            requires
                u * dm == dn,
                dm == 1,
        ;
    }
    if 2 * r < u || (2 * r == u && m % 2 == 0) {
        m * u
    } else {
        (m + 1) * u
    }
}

/// The truncated square root of a number below 2^64, by bisection.
fn floor_sqrt_u128(n: u128) -> (r: u128)
    requires
        n < 0x1_0000_0000_0000_0000,
    ensures
        r == isqrt(n as int),
        r < 0x1_0000_0000,
{
    let mut lo: u128 = 0;
    let mut hi: u128 = 0x1_0000_0000;
    assert(0x1_0000_0000 * 0x1_0000_0000 == 0x1_0000_0000_0000_0000) by (nonlinear_arith);
    while hi - lo > 1
        invariant
            lo < hi <= 0x1_0000_0000,
            lo * lo <= n,
            n < hi * hi,
        decreases hi - lo,
    {
        let mid: u128 = lo + (hi - lo) / 2;
        assert(mid * mid <= 0x1_0000_0000 * 0x1_0000_0000) by (nonlinear_arith)
            requires
                mid <= 0x1_0000_0000,
        ;
        if mid * mid <= n {
            lo = mid;
        } else {
            hi = mid;
        }
    }
    proof {
        lemma_isqrt_unique(n as int, lo as int);
    }
    lo
}

/// `(i as f64).sqrt() as i64`: 0 for `i <= 0`.
pub fn double_sqrt_trunc_exec(i: i64) -> (r: i64)
    ensures
        r == double_sqrt_trunc(i as int),
        r >= 0,
{
    if i <= 0 {
        return 0;
    }
    let d = to_double_exec(i as u64);
    let q = floor_sqrt_u128(d);
    proof {
        lemma_isqrt_bounds(d as int);
    }
    let k: u128 = q + 1;
    // the number of binary digits of k - 1
    proof {
        lemma_bit_length_bound(q as nat);
        lemma2_to64();
        if q >= 1 {
            lemma_bit_length_lower(q as nat);
        }
        if bit_length(q as nat) > 32 {
            lemma_pow2_strictly_increases(32, (bit_length(q as nat) - 1) as nat);
        }
    }
    let mut t: u128 = q;
    let mut b: u32 = 0;
    while t > 0
        invariant
            bit_length(q as nat) == b + bit_length(t as nat),
            bit_length(q as nat) <= 32,
        decreases t,
    {
        t = t / 2;
        b = b + 1;
    }
    let p: u32 = 53 - b;
    let up = if b <= 26 {
        proof {
            assert(k <= pow2(p as nat)) by {
                lemma_bit_length_bound(q as nat);
                if b < p {
                    lemma_pow2_strictly_increases(b as nat, p as nat);
                }
            }
            lemma_no_round_up(d as int, k as int, p as nat);
        }
        false
    } else {
        proof {
            assert(pow2((2 * p + 2) as nat) <= pow2(54)) by {
                if 2 * p + 2 < 54 {
                    lemma_pow2_strictly_increases((2 * p + 2) as nat, 54);
                }
            }
            assert(pow2((p + 2) as nat) <= pow2(28)) by {
                if p + 2 < 28 {
                    lemma_pow2_strictly_increases((p + 2) as nat, 28);
                }
            }
            lemma2_to64();
            lemma2_to64_rest();
            assert(d >= q * q);
            assert(k * k - d <= 2 * k) by (nonlinear_arith)
                requires
                    d >= q * q,
                    k == q + 1,
            ;
            assert(k * k - d >= 1);
        }
        let lhs_pow = pow2_u128(2 * p + 2);
        let rhs_pow = pow2_u128(p + 2);
        let diff: u128 = k * k - d;
        assert(diff * lhs_pow <= 2 * 0x1_0000_0000 * pow2(54)) by (nonlinear_arith)
            requires
                diff <= 2 * k,
                k <= 0x1_0000_0000,
                lhs_pow <= pow2(54),
        ;
        assert(k * rhs_pow <= 0x1_0000_0000 * pow2(28)) by (nonlinear_arith)
            requires
                k <= 0x1_0000_0000,
                rhs_pow <= pow2(28),
        ;
        proof {
            lemma2_to64_rest();
        }
        assert(k * rhs_pow >= 1) by (nonlinear_arith)
            requires
                k >= 1,
                rhs_pow >= 1,
        ;
        diff * lhs_pow < k * rhs_pow - 1
    };
    if up {
        (q + 1) as i64
    } else {
        q as i64
    }
}

/// Law: below 2^52 the square root taken in `f64` and truncated is the
/// exact truncated square root.
pub proof fn lemma_double_sqrt_exact_below(i: int)
    requires
        0 <= i < 0x10_0000_0000_0000,
    ensures
        double_sqrt_trunc(i) == isqrt(i),
{
    if i > 0 {
        lemma_to_double_bounds(i as nat);
        let d = i;
        lemma_isqrt_bounds(d);
        let q = isqrt(d);
        let k = q + 1;
        lemma2_to64();
        lemma2_to64_rest();
        assert(q < 0x400_0000) by {
            if q >= 0x400_0000 {
                assert(q * q >= 0x400_0000 * 0x400_0000) by (nonlinear_arith)
                    requires
                        q >= 0x400_0000,
                ;
            }
        }
        lemma_bit_length_bound(q as nat);
        let b = bit_length(q as nat);
        if q >= 1 {
            lemma_bit_length_lower(q as nat);
            if b > 26 {
                lemma_pow2_strictly_increases(26, (b - 1) as nat);
            }
        }
        let p = (53 - b) as nat;
        assert(k <= pow2(p)) by {
            if q >= 1 {
                assert(pow2(26) <= pow2(p)) by {
                    if 26 < p {
                        lemma_pow2_strictly_increases(26, p);
                    }
                }
            } else {
                lemma_pow2_strictly_increases(0, p);
            }
        }
        lemma_no_round_up(d, k, p);
    }
}

} // verus!
