//! `collect(n)`: the items `0 .. n`, each with its number as a big integer,
//! as decimal text, and whether it is odd.
use crate::bignum::{big_from_i64, BigNum};
use vstd::prelude::*;

verus! {

/// The decimal digit `d` (`0 <= d < 10`).
pub open spec fn digit_char(d: int) -> char {
    (48 + d) as char
}

/// The decimal digits of `n`, most significant first, without leading zeros.
pub open spec fn decimal_nat(n: nat) -> Seq<char>
    decreases n,
{
    if n < 10 {
        seq![digit_char(n as int)]
    } else {
        decimal_nat(n / 10).push(digit_char((n % 10) as int))
    }
}

/// The decimal text of `i`, with a leading `-` when it is negative.
pub open spec fn decimal(i: int) -> Seq<char> {
    if i < 0 {
        seq!['-'] + decimal_nat((-i) as nat)
    } else {
        decimal_nat(i as nat)
    }
}

/// The text of one decimal digit.
fn digit_text(d: u64) -> (r: &'static str)
    requires
        d < 10,
    ensures
        r@ == seq![digit_char(d as int)],
{
    proof {
        reveal_strlit("0");
        reveal_strlit("1");
        reveal_strlit("2");
        reveal_strlit("3");
        reveal_strlit("4");
        reveal_strlit("5");
        reveal_strlit("6");
        reveal_strlit("7");
        reveal_strlit("8");
        reveal_strlit("9");
    }
    let r = if d == 0 {
        "0"
    } else if d == 1 {
        "1"
    } else if d == 2 {
        "2"
    } else if d == 3 {
        "3"
    } else if d == 4 {
        "4"
    } else if d == 5 {
        "5"
    } else if d == 6 {
        "6"
    } else if d == 7 {
        "7"
    } else if d == 8 {
        "8"
    } else {
        "9"
    };
    assert(r@ =~= seq![digit_char(d as int)]);
    r
}

/// Appends the decimal digits of `n`.
fn append_decimal(s: &mut String, n: u64)
    ensures
        final(s)@ == old(s)@ + decimal_nat(n as nat),
    decreases n,
{
    if n >= 10 {
        append_decimal(s, n / 10);
    }
    s.append(digit_text(n % 10));
    proof {
        if n < 10 {
            assert(n % 10 == n);
        }
        assert(s@ =~= old(s)@ + decimal_nat(n as nat));
    }
}

/// The decimal text of `i`, as `i.to_string()` gives it.
fn i64_to_string(i: i64) -> (r: String)
    ensures
        r@ == decimal(i as int),
{
    let mut r = String::new();
    if i < 0 {
        r.append("-");
        proof {
            reveal_strlit("-");
        }
        let magnitude: u64 = (-(i + 1)) as u64 + 1;
        append_decimal(&mut r, magnitude);
        assert(r@ =~= decimal(i as int));
    } else {
        append_decimal(&mut r, i as u64);
        assert(r@ =~= decimal(i as int));
    }
    r
}

/// One item of `collect`.
#[derive(Debug)]
pub struct Item {
    pub a: BigNum,
    pub b: String,
    pub c: bool,
}

/// Item `i` of `collect`: `i` as a big integer, its decimal text, and
/// whether it is odd.
pub open spec fn is_item_of(item: Item, i: int) -> bool {
    &&& item.a.value() == i
    &&& item.b@ == decimal(i)
    &&& item.c == (i % 2 == 1)
}

/// The items `0 .. n` (none when `n <= 0`): item `i` holds `i` as a big
/// integer, its decimal text, and whether it is odd (`i & 1 == 1`).
pub fn collect(n: i64) -> (r: Vec<Item>)
    ensures
        r.len() == (if n > 0 { n as int } else { 0 }),
        forall|i: int| 0 <= i < r.len() ==> is_item_of(#[trigger] r[i], i),
{
    let mut r: Vec<Item> = Vec::new();
    let mut i: i64 = 0;
    while i < n
        invariant
            0 <= i,
            n > 0 ==> i <= n,
            n <= 0 ==> i == 0,
            r.len() == i,
            forall|k: int| 0 <= k < r.len() ==> is_item_of(#[trigger] r[k], k),
        decreases n - i,
    {
        let odd = (i & 1) == 1;
        assert(((i & 1) == 1) == (i % 2 == 1)) by (bit_vector)
            requires
                i >= 0,
        ;
        let item = Item { a: big_from_i64(i), b: i64_to_string(i), c: odd };
        let ghost old_r = r@;
        r.push(item);
        proof {
            assert(is_item_of(item, i as int));
            assert forall|k: int| 0 <= k < r.len() implies is_item_of(#[trigger] r[k], k) by {
                if k < i {
                    assert(r[k] == old_r[k]);
                } else {
                    assert(r[k] == item);
                }
            }
        }
        i = i + 1;
    }
    r
}

/// The number that a text of decimal digits stands for, read from the left.
pub open spec fn decimal_value(s: Seq<char>) -> int
    decreases s.len(),
{
    if s.len() == 0 {
        0
    } else {
        decimal_value(s.drop_last()) * 10 + (s.last() as int - 48)
    }
}

/// Every character is one of `0` to `9`.
pub open spec fn all_digits(s: Seq<char>) -> bool {
    forall|k: int| 0 <= k < s.len() ==> 48 <= #[trigger] (s[k] as int) <= 57
}

/// Law: the decimal text of `n` is made of digits, has no leading zero
/// (unless it is `0`), and read back in base 10 gives `n`; its last digit is
/// `n % 10`, preceded by the text of `n / 10`.
pub proof fn lemma_decimal_reads_back(n: nat)
    ensures
        all_digits(decimal_nat(n)),
        decimal_nat(n).len() >= 1,
        decimal_value(decimal_nat(n)) == n,
        n >= 10 ==> decimal_nat(n)[0] != '0',
        decimal_nat(n).last() as int == 48 + n % 10,
        n >= 10 ==> decimal_nat(n).drop_last() == decimal_nat(n / 10),
        n < 10 ==> decimal_nat(n).len() == 1,
    decreases n,
{
    if n < 10 {
        let s = decimal_nat(n);
        assert(s.drop_last() =~= Seq::<char>::empty());
        assert(s.last() as int == 48 + n);
        assert(decimal_value(s.drop_last()) == 0);
        assert(decimal_value(s) == n);
    } else {
        lemma_decimal_reads_back(n / 10);
        let s = decimal_nat(n);
        let t = decimal_nat(n / 10);
        assert(s.drop_last() =~= t);
        assert(s.last() as int == 48 + n % 10);
        assert(s[0] == t[0]);
        if n / 10 >= 10 {
        } else {
            assert(t[0] as int == 48 + (n / 10) % 10);
            assert((n / 10) % 10 == n / 10);
        }
        assert forall|k: int| 0 <= k < s.len() implies 48 <= #[trigger] (s[k] as int) <= 57 by {
            if k < t.len() {
                assert(s[k] == t[k]);
            }
        }
        assert(n == (n / 10) * 10 + n % 10);
        assert(decimal_value(s) == decimal_value(t) * 10 + (s.last() as int - 48));
    }
}

/// Law: the text of a negative number is `-` followed by the text of its
/// magnitude; the text of any other number is its digits.
pub proof fn lemma_decimal_sign(i: int)
    ensures
        i < 0 ==> decimal(i)[0] == '-' && decimal(i).drop_first() == decimal_nat((-i) as nat),
        i >= 0 ==> decimal(i) == decimal_nat(i as nat),
{
    if i < 0 {
        assert(decimal(i).drop_first() =~= decimal_nat((-i) as nat));
    }
}

} // verus!
