use pyrwa::bignum::{BigNum, BigSign};
use pyrwa::primes::{long_next_prime, short_next_prime, short_next_prime_checked};

fn num(v: u64) -> BigNum {
    let lo = (v & 0xffff_ffff) as u32;
    let hi = (v >> 32) as u32;
    let digits = if hi != 0 { vec![lo, hi] } else if lo != 0 { vec![lo] } else { vec![] };
    BigNum { sign: if v == 0 { BigSign::NoSign } else { BigSign::Plus }, digits }
}

fn value(b: &BigNum) -> i128 {
    let mut v: i128 = 0;
    for d in b.digits.iter().rev() {
        v = v * 4294967296 + *d as i128;
    }
    match b.sign {
        BigSign::Minus => -v,
        BigSign::NoSign => 0,
        BigSign::Plus => v,
    }
}

#[test]
fn short_next_prime_small_inputs_pass_trivially() {
    assert_eq!(short_next_prime(-5), -4);
    assert_eq!(short_next_prime(-1), 0);
    assert_eq!(short_next_prime(0), 1);
    assert_eq!(short_next_prime(1), 2);
    assert_eq!(short_next_prime(3), 4);
    assert_eq!(short_next_prime(8), 9);
}

#[test]
fn short_next_prime_skips_candidates_with_small_divisors() {
    assert_eq!(short_next_prime(9), 11);
    assert_eq!(short_next_prime(13), 15);
    assert_eq!(short_next_prime(24), 25);
    assert_eq!(short_next_prime(1_000_000), 1_000_003);
}

#[test]
fn short_next_prime_above_a_billion() {
    assert_eq!(short_next_prime(1_000_000_000), 1_000_000_007);
}

#[test]
fn long_next_prime_from_minus_one_and_zero() {
    let minus_one = BigNum { sign: BigSign::Minus, digits: vec![1] };
    assert_eq!(value(&long_next_prime(&minus_one)), 1);
    assert_eq!(value(&long_next_prime(&num(0))), 1);
}

#[test]
fn long_next_prime_gives_the_next_prime() {
    assert_eq!(value(&long_next_prime(&num(1))), 2);
    assert_eq!(value(&long_next_prime(&num(2))), 3);
    assert_eq!(value(&long_next_prime(&num(3))), 5);
    assert_eq!(value(&long_next_prime(&num(13))), 17);
    assert_eq!(value(&long_next_prime(&num(24))), 29);
    assert_eq!(value(&long_next_prime(&num(90))), 97);
}

#[test]
fn long_next_prime_past_one_digit_word() {
    assert_eq!(value(&long_next_prime(&num(4294967296))), 4294967311);
    assert_eq!(value(&long_next_prime(&num(10_000_000_000))), 10_000_000_019);
}

#[test]
fn small_constructs_the_number() {
    assert_eq!(value(&BigNum::small(0)), 0);
    assert_eq!(value(&BigNum::small(7)), 7);
}

#[test]
fn short_next_prime_takes_its_bound_from_the_f64_square_root() {
    // 100000037 and 100000039 are twin primes around k = 100000038.  In f64,
    // k*k - 1 rounds to k*k, so its bound is k and 100000037 is tried.
    assert_eq!(short_next_prime(10000007600001442), 10000007600001479);
}

#[test]
fn short_next_prime_checked_finds_or_reports_none() {
    assert_eq!(short_next_prime_checked(3), Some(4));
    assert_eq!(short_next_prime_checked(13), Some(15));
    assert_eq!(short_next_prime_checked(-9), Some(-8));
    assert_eq!(short_next_prime_checked(i64::MAX), None);
}
