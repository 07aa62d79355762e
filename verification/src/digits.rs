//! Numbers written in decimal.

use vstd::prelude::*;

verus! {

/// The decimal digit `d`.
pub open spec fn digit_char(d: int) -> char {
    if d == 0 {
        '0'
    } else if d == 1 {
        '1'
    } else if d == 2 {
        '2'
    } else if d == 3 {
        '3'
    } else if d == 4 {
        '4'
    } else if d == 5 {
        '5'
    } else if d == 6 {
        '6'
    } else if d == 7 {
        '7'
    } else if d == 8 {
        '8'
    } else {
        '9'
    }
}

/// The decimal digits of a natural number, most significant first.
pub open spec fn decimal_digits(n: nat) -> Seq<char>
    decreases n,
{
    if n < 10 {
        seq![digit_char(n as int)]
    } else {
        decimal_digits(n / 10).push(digit_char((n % 10) as int))
    }
}

/// An integer written in decimal, with a leading `-` when it is negative.
pub open spec fn decimal(n: int) -> Seq<char> {
    if n < 0 {
        seq!['-'] + decimal_digits((-n) as nat)
    } else {
        decimal_digits(n as nat)
    }
}

/// `c` is one of the digits `0` to `9`.
pub open spec fn is_digit(c: char) -> bool {
    '0' <= c <= '9'
}

/// The number that a digit stands for.
pub open spec fn digit_value(c: char) -> int {
    c as int - '0' as int
}

/// The number that a string of digits reads as, most significant first.
pub open spec fn digits_value(s: Seq<char>) -> int
    decreases s.len(),
{
    if s.len() == 0 {
        0
    } else {
        digits_value(s.drop_last()) * 10 + digit_value(s.last())
    }
}

/// The digit of `d` stands for `d`.
pub proof fn lemma_digit_char(d: int)
    requires
        0 <= d < 10,
    ensures
        is_digit(digit_char(d)),
        digit_value(digit_char(d)) == d,
        (digit_char(d) == '0') == (d == 0),
{
    assert('0' as int == 48);
    assert('9' as int == 57);
    assert('5' as int == 53);
    assert('1' as int == 49);
    assert('2' as int == 50);
    assert('3' as int == 51);
    assert('4' as int == 52);
    assert('6' as int == 54);
    assert('7' as int == 55);
    assert('8' as int == 56);
}

/// The digits of a natural number are digits, read back as the number, and
/// start with `0` only when the number is zero (then they are just `0`).
pub proof fn lemma_decimal_digits_read_back(n: nat)
    ensures
        decimal_digits(n).len() >= 1,
        forall|i: int| 0 <= i < decimal_digits(n).len() ==> is_digit(#[trigger] decimal_digits(n)[i]),
        digits_value(decimal_digits(n)) == n,
        decimal_digits(n)[0] == '0' ==> n == 0 && decimal_digits(n).len() == 1,
    decreases n,
{
    lemma_digit_char((n % 10) as int);
    let d = decimal_digits(n);
    if n < 10 {
        lemma_digit_char(n as int);
        assert(d.drop_last() =~= Seq::<char>::empty());
        assert(digits_value(d.drop_last()) == 0);
    } else {
        lemma_decimal_digits_read_back(n / 10);
        assert(d.drop_last() =~= decimal_digits(n / 10));
        assert(d[0] == decimal_digits(n / 10)[0]);
        assert(digits_value(d) == digits_value(decimal_digits(n / 10)) * 10 + (n % 10) as int);
    }
}

/// An integer in decimal reads back as the integer: a leading `-` exactly
/// when it is negative, then the digits of its magnitude, with no leading
/// zero except for the number zero itself.
pub proof fn law_decimal_reads_back(n: int)
    ensures
        decimal(n).len() >= 1,
        (decimal(n)[0] == '-') == (n < 0),
        ({
            let digits = if n < 0 {
                decimal(n).drop_first()
            } else {
                decimal(n)
            };
            &&& digits.len() >= 1
            &&& forall|i: int| 0 <= i < digits.len() ==> is_digit(#[trigger] digits[i])
            &&& digits_value(digits) == if n < 0 {
                -n
            } else {
                n
            }
            &&& digits[0] == '0' ==> n == 0 && digits.len() == 1
        }),
{
    if n < 0 {
        lemma_decimal_digits_read_back((-n) as nat);
        assert(decimal(n).drop_first() =~= decimal_digits((-n) as nat));
    } else {
        lemma_decimal_digits_read_back(n as nat);
    }
}

/// Text joined from two pieces.
pub(crate) fn join(a: &str, b: &str) -> (s: String)
    ensures
        s@ == a@ + b@,
{
    a.to_owned().concat(b)
}

/// The decimal digit `d` as text.
pub fn digit_text(d: u64) -> (s: &'static str)
    requires
        d < 10,
    ensures
        s@ == seq![digit_char(d as int)],
{
    if d == 0 {
        proof { reveal_strlit("0"); }
        "0"
    } else if d == 1 {
        proof { reveal_strlit("1"); }
        "1"
    } else if d == 2 {
        proof { reveal_strlit("2"); }
        "2"
    } else if d == 3 {
        proof { reveal_strlit("3"); }
        "3"
    } else if d == 4 {
        proof { reveal_strlit("4"); }
        "4"
    } else if d == 5 {
        proof { reveal_strlit("5"); }
        "5"
    } else if d == 6 {
        proof { reveal_strlit("6"); }
        "6"
    } else if d == 7 {
        proof { reveal_strlit("7"); }
        "7"
    } else if d == 8 {
        proof { reveal_strlit("8"); }
        "8"
    } else {
        proof { reveal_strlit("9"); }
        "9"
    }
}

/// A natural number in decimal, without leading zeros.
pub fn nat_text(n: u64) -> (s: String)
    ensures
        s@ == decimal_digits(n as nat),
{
    let mut s = digit_text(n % 10).to_owned();
    let mut m: u64 = n / 10;
    while m > 0
        invariant
            m == 0 ==> s@ == decimal_digits(n as nat),
            m > 0 ==> decimal_digits(n as nat) == decimal_digits(m as nat) + s@,
        decreases m,
    {
        let d = digit_text(m % 10);
        proof {
            if m >= 10 {
                // The digits of `m` are those of `m / 10`, then its last digit.
                assert(decimal_digits((m / 10) as nat) + d@ + s@ =~= decimal_digits((m / 10) as nat)
                    + (d@ + s@));
            }
        }
        s = join(d, s.as_str());
        m = m / 10;
    }
    s
}

/// An integer in decimal, with a leading `-` when it is negative.
pub fn int_text(n: i64) -> (s: String)
    ensures
        s@ == decimal(n as int),
{
    if n < 0 {
        let magnitude: u64 = (0i128 - (n as i128)) as u64;
        let digits = nat_text(magnitude);
        proof { reveal_strlit("-"); }
        join("-", digits.as_str())
    } else {
        nat_text(n as u64)
    }
}

} // verus!
