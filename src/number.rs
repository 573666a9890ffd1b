//! Decimal integers: formatting, parsing, and their agreement.
use vstd::prelude::*;
use vstd::string::*;

use crate::text::chars_of;

verus! {

/// Decimal digits of `n`, most significant first, without leading zeros.
pub open spec fn decimal(n: nat) -> Seq<char>
    decreases n,
{
    if n < 10 {
        seq![digit_char(n)]
    } else {
        decimal(n / 10).push(digit_char(n % 10))
    }
}

/// The ASCII digit for `d < 10`.
pub open spec fn digit_char(d: nat) -> char {
    ((d + 48) as u32) as char
}

/// Decimal representation of `n`.
pub fn format_u64(n: u64) -> (r: String)
    ensures
        r@ == decimal(n as nat),
    decreases n,
{
    if n < 10 {
        String::from_str(digit_str(n))
    } else {
        let mut s = format_u64(n / 10);
        s.append(digit_str(n % 10));
        s
    }
}

/// One-character string holding the digit `d`.
fn digit_str(d: u64) -> (r: &'static str)
    requires
        d < 10,
    ensures
        r@ == seq![digit_char(d as nat)],
{
    proof {
        reveal_strlit("0");
        reveal_strlit("1");
        reveal_strlit("2");
        reveal_strlit("3");
        reveal_strlit("4");
        reveal_strlit("5");
        reveal_strlit("6");
        reveal_strlit("7");
        reveal_strlit("8");
        reveal_strlit("9");
    }
    match d {
        0 => "0",
        1 => "1",
        2 => "2",
        3 => "3",
        4 => "4",
        5 => "5",
        6 => "6",
        7 => "7",
        8 => "8",
        _ => "9",
    }
}

/// A decimal digit character.
pub open spec fn is_digit(c: char) -> bool {
    '0' <= c && c <= '9'
}

/// Every character of `s` is a decimal digit.
pub open spec fn all_digits(s: Seq<char>) -> bool {
    forall|i: int| 0 <= i < s.len() ==> is_digit(#[trigger] s[i])
}

/// The number spelled by decimal digits `s`.
pub open spec fn digits_value(s: Seq<char>) -> nat
    decreases s.len(),
{
    if s.len() == 0 {
        0
    } else {
        digits_value(s.drop_last()) * 10 + ((s.last() as u32 - 48) as nat)
    }
}

/// The integer that `s` spells: an optional `+` or `-` followed by one or
/// more decimal digits, and nothing else.
pub open spec fn int_value(s: Seq<char>) -> Option<int> {
    if s.len() > 0 && (s[0] == '-' || s[0] == '+') {
        let d = s.drop_first();
        if d.len() > 0 && all_digits(d) {
            if s[0] == '-' {
                Some(-(digits_value(d) as int))
            } else {
                Some(digits_value(d) as int)
            }
        } else {
            None
        }
    } else if s.len() > 0 && all_digits(s) {
        Some(digits_value(s) as int)
    } else {
        None
    }
}

/// `int_value(s)` when it lies in `[lo, hi]`.
pub open spec fn int_in_range(s: Seq<char>, lo: int, hi: int) -> Option<int> {
    match int_value(s) {
        Some(v) => if lo <= v && v <= hi {
            Some(v)
        } else {
            None
        },
        None => None,
    }
}

/// Decimal representation of an integer: a `-` for negatives, then the digits.
pub open spec fn int_decimal(v: int) -> Seq<char> {
    if v < 0 {
        seq!['-'] + decimal((-v) as nat)
    } else {
        decimal(v as nat)
    }
}

proof fn lemma_digits_prefix(s: Seq<char>, k: int)
    requires
        0 <= k <= s.len(),
    ensures
        digits_value(s.take(k)) <= digits_value(s),
    decreases s.len() - k,
{
    if k < s.len() {
        lemma_digits_prefix(s, k + 1);
        assert(s.take(k + 1).drop_last() =~= s.take(k));
        let x = digits_value(s.take(k));
        assert(digits_value(s.take(k + 1)) == x * 10 + ((s.take(k + 1).last() as u32 - 48) as nat));
        assert(x * 10 + ((s.take(k + 1).last() as u32 - 48) as nat) >= x) by (nonlinear_arith);
    } else {
        assert(s.take(k) =~= s);
    }
}

proof fn lemma_digit_char(d: nat)
    requires
        d < 10,
    ensures
        digit_char(d) as u32 == d + 48,
        is_digit(digit_char(d)),
{
}

proof fn lemma_decimal(n: nat)
    ensures
        decimal(n).len() > 0,
        all_digits(decimal(n)),
        digits_value(decimal(n)) == n,
        is_digit(decimal(n)[0]),
    decreases n,
{
    lemma_digit_char(n % 10);
    if n < 10 {
        lemma_digit_char(n);
        assert(seq![digit_char(n)].drop_last() =~= Seq::<char>::empty());
        assert(digits_value(Seq::<char>::empty()) == 0);
        assert(digits_value(decimal(n)) == 0 * 10 + ((digit_char(n) as u32 - 48) as nat));
    }
    if n >= 10 {
        lemma_decimal(n / 10);
        assert(decimal(n).drop_last() =~= decimal(n / 10));
        assert(decimal(n).last() == digit_char(n % 10));
        assert((n / 10) * 10 + n % 10 == n) by (nonlinear_arith);
        assert(digits_value(decimal(n)) == digits_value(decimal(n / 10)) * 10 + ((digit_char(n % 10) as u32 - 48) as nat));
    }
}

/// Reading back the decimal representation of `v` gives `v`.
pub proof fn lemma_int_decimal_round_trip(v: int)
    ensures
        int_value(int_decimal(v)) == Some(v),
{
    if v < 0 {
        lemma_decimal((-v) as nat);
        assert((seq!['-'] + decimal((-v) as nat)).drop_first() =~= decimal((-v) as nat));
    } else {
        lemma_decimal(v as nat);
    }
}

/// The magnitude spelled by `cs[start..]`, if those are one or more digits
/// whose value fits in a `u64`.
fn parse_magnitude(cs: &Vec<char>, start: usize) -> (r: Option<u64>)
    requires
        start <= cs@.len(),
    ensures
        ({
            let d = cs@.skip(start as int);
            match r {
                Some(m) => d.len() > 0 && all_digits(d) && m == digits_value(d),
                None => !(d.len() > 0 && all_digits(d) && digits_value(d) <= u64::MAX),
            }
        }),
{
    let n = cs.len();
    if start == n {
        return None;
    }
    let ghost d = cs@.skip(start as int);
    let mut m: u64 = 0;
    let mut i: usize = start;
    while i < n
        invariant
            start <= i <= n,
            n == cs@.len(),
            d == cs@.skip(start as int),
            all_digits(d.take(i - start)),
            m == digits_value(d.take(i - start)),
        decreases n - i,
    {
        let c = cs[i];
        assert(d[i - start] == c);
        if !('0' <= c && c <= '9') {
            return None;
        }
        let dig = (c as u32 - 48) as u64;
        assert(d.take(i - start + 1).drop_last() =~= d.take(i - start));
        if m > (u64::MAX - dig) / 10 {
            proof {
                assert(m * 10 + dig > u64::MAX) by (nonlinear_arith)
                    requires
                        m > (u64::MAX - dig) / 10,
                        dig <= 9,
                ;
                lemma_digits_prefix(d, i - start + 1);
            }
            return None;
        }
        m = m * 10 + dig;
        i = i + 1;
    }
    assert(d.take(n - start) =~= d);
    Some(m)
}

/// The integer that `s` spells, if it lies in `[lo, hi]`.
pub fn parse_integer(s: &str, lo: i64, hi: i64) -> (r: Option<i64>)
    ensures
        match int_in_range(s@, lo as int, hi as int) {
            Some(v) => r == Some(v as i64),
            None => r is None,
        },
{
    let cs = chars_of(s);
    if cs.len() == 0 {
        return None;
    }
    let neg = cs[0] == '-';
    let start: usize = if cs[0] == '-' || cs[0] == '+' { 1 } else { 0 };
    assert(cs@.skip(1) =~= cs@.drop_first());
    assert(cs@.skip(0) =~= cs@);
    let mag = match parse_magnitude(&cs, start) {
        Some(m) => m,
        None => {
            return None;
        },
    };
    let v: i64 = if neg {
        if mag > 9223372036854775808u64 {
            return None;
        } else if mag == 9223372036854775808u64 {
            i64::MIN
        } else {
            -(mag as i64)
        }
    } else {
        if mag > 9223372036854775807u64 {
            return None;
        }
        mag as i64
    };
    if v < lo || v > hi {
        return None;
    }
    Some(v)
}

/// Decimal representation of `v`.
pub fn format_i64(v: i64) -> (r: String)
    ensures
        r@ == int_decimal(v as int),
{
    if v < 0 {
        let mag: u64 = if v == i64::MIN {
            9223372036854775808u64
        } else {
            (-v) as u64
        };
        let mut r = String::from_str("-");
        proof {
            reveal_strlit("-");
        }
        let digits = format_u64(mag);
        r.append(digits.as_str());
        r
    } else {
        format_u64(v as u64)
    }
}

} // verus!
