//! Decimal literals of integers: their reading and their writing.

use crate::numeric::{option_as_int, Numeric, Wide};
use vstd::prelude::*;

verus! {

/// Whether `c` is one of the digits `0` to `9`.
pub open spec fn spec_is_digit(c: char) -> bool {
    0x30 <= c as u32 <= 0x39
}

/// The value of the digit `c`.
pub open spec fn digit_value(c: char) -> nat {
    (c as u32 - 0x30) as nat
}

/// The digit that stands for `d`, for `d` from 0 to 9.
pub open spec fn digit_char(d: nat) -> char {
    (d + 0x30) as char
}

/// Whether `s` holds digits only.
pub open spec fn all_digits(s: Seq<char>) -> bool {
    forall|i: int| 0 <= i < s.len() ==> spec_is_digit(#[trigger] s[i])
}

/// The number that the digits of `s` write in base ten.
pub open spec fn digits_value(s: Seq<char>) -> nat
    decreases s.len(),
{
    if s.len() == 0 {
        0
    } else {
        digits_value(s.drop_last()) * 10 + digit_value(s.last())
    }
}

/// The number written by `s`, which must be one digit or more.
pub open spec fn spec_parse_digits(s: Seq<char>) -> Option<int> {
    if s.len() > 0 && all_digits(s) {
        Some(digits_value(s) as int)
    } else {
        None
    }
}

/// The integer written by `s`: an optional sign, then one digit or more and
/// nothing else. `+` is always a sign; `-` is one only where `signed` holds.
pub open spec fn spec_parse_decimal(s: Seq<char>, signed: bool) -> Option<int> {
    if s.len() > 0 && s[0] == '+' {
        spec_parse_digits(s.drop_first())
    } else if s.len() > 0 && s[0] == '-' && signed {
        match spec_parse_digits(s.drop_first()) {
            Some(v) => Some(-v),
            None => None,
        }
    } else {
        spec_parse_digits(s)
    }
}

/// The integer written by `s`, if `s` is a decimal literal of a type whose
/// values run from `lower` to `upper`. A type without negative values takes
/// no `-` sign, not even before a zero.
pub open spec fn spec_parse_int(s: Seq<char>, lower: int, upper: int) -> Option<int> {
    match spec_parse_decimal(s, lower < 0) {
        Some(v) => if lower <= v <= upper {
            Some(v)
        } else {
            None
        },
        None => None,
    }
}

/// The digits of `n` in base ten, without leading zeros.
pub open spec fn spec_digits(n: nat) -> Seq<char>
    decreases n,
{
    if n < 10 {
        seq![digit_char(n)]
    } else {
        spec_digits(n / 10).push(digit_char(n % 10))
    }
}

/// The decimal literal of `v`: a `-` if `v` is negative, then the digits.
pub open spec fn spec_decimal(v: int) -> Seq<char> {
    if v < 0 {
        seq!['-'] + spec_digits((-v) as nat)
    } else {
        spec_digits(v as nat)
    }
}

/// Whether `c` can stand in the decimal literal of an integer.
pub open spec fn is_literal_char(c: char) -> bool {
    spec_is_digit(c) || c == '-'
}

/// Whether `s` holds nothing but digits and `-`.
pub open spec fn is_literal_text(s: Seq<char>) -> bool {
    forall|i: int| 0 <= i < s.len() ==> is_literal_char(#[trigger] s[i])
}

/// The character of a digit is a digit, and has that digit's value.
pub proof fn lemma_digit_char(d: nat)
    requires
        d < 10,
    ensures
        spec_is_digit(digit_char(d)),
        digit_value(digit_char(d)) == d,
{
}

/// A longer run of digits writes a number that is no smaller.
pub proof fn lemma_digits_value_grows(s: Seq<char>, k: int)
    requires
        0 <= k <= s.len(),
    ensures
        digits_value(s.take(k)) <= digits_value(s),
    decreases s.len() - k,
{
    if k < s.len() {
        lemma_digits_value_grows(s, k + 1);
        assert(s.take(k + 1).drop_last() == s.take(k));
    } else {
        assert(s.take(k) == s);
    }
}

/// The digits of a number are digits, and there is at least one.
pub proof fn lemma_digits_are_digits(n: nat)
    ensures
        spec_digits(n).len() > 0,
        all_digits(spec_digits(n)),
    decreases n,
{
    if n >= 10 {
        lemma_digits_are_digits(n / 10);
    }
}

/// The digits of a number write that number.
pub proof fn lemma_digits_round_trip(n: nat)
    ensures
        digits_value(spec_digits(n)) == n,
    decreases n,
{
    lemma_digit_char(n % 10);
    if n < 10 {
        assert(spec_digits(n).drop_last() == Seq::<char>::empty());
        assert(digits_value(spec_digits(n).drop_last()) == 0);
        assert(spec_digits(n).last() == digit_char(n));
    } else {
        lemma_digits_round_trip(n / 10);
        assert(spec_digits(n).drop_last() == spec_digits(n / 10));
        assert(spec_digits(n).last() == digit_char(n % 10));
    }
}

/// The decimal literal of an integer is read back as that integer, by every
/// type that holds it.
pub proof fn lemma_decimal_round_trip(v: int, lower: int, upper: int)
    requires
        lower <= v <= upper,
    ensures
        spec_parse_int(spec_decimal(v), lower, upper) == Some(v),
{
    if v < 0 {
        let n = (-v) as nat;
        lemma_digits_are_digits(n);
        lemma_digits_round_trip(n);
        assert(spec_decimal(v).drop_first() == spec_digits(n));
    } else {
        let n = v as nat;
        lemma_digits_are_digits(n);
        lemma_digits_round_trip(n);
        assert(spec_is_digit(spec_digits(n)[0]));
    }
}

/// A decimal literal holds digits and at most a `-`, and is not empty.
pub proof fn lemma_decimal_chars(v: int)
    ensures
        spec_decimal(v).len() > 0,
        forall|i: int|
            0 <= i < spec_decimal(v).len() ==> spec_is_digit(#[trigger] spec_decimal(v)[i])
                || spec_decimal(v)[i] == '-',
{
    if v < 0 {
        lemma_digits_are_digits((-v) as nat);
        assert forall|i: int| 0 <= i < spec_decimal(v).len() implies spec_is_digit(
            #[trigger] spec_decimal(v)[i],
        ) || spec_decimal(v)[i] == '-' by {
            if i > 0 {
                assert(spec_decimal(v)[i] == spec_digits((-v) as nat)[i - 1]);
            }
        }
    } else {
        lemma_digits_are_digits(v as nat);
    }
}

/// A literal is not empty, holds digits and `-` only, and so holds no
/// separator that cannot stand in a literal.
pub proof fn lemma_literal_free(v: int, sep: char)
    requires
        !is_literal_char(sep),
    ensures
        is_literal_text(spec_decimal(v)),
        !spec_decimal(v).contains(sep),
        spec_decimal(v).len() > 0,
        is_literal_char(spec_decimal(v)[0]),
{
    lemma_decimal_chars(v);
}

/// Whether `c` is one of the digits `0` to `9`.
pub fn is_digit(c: char) -> (b: bool)
    ensures
        b == spec_is_digit(c),
{
    let u: u32 = c as u32;
    0x30 <= u && u <= 0x39
}

/// Reads `s` as a decimal literal of the type `T`.
#[verifier::loop_isolation(false)]
pub fn parse_int<T: Numeric>(s: &Vec<char>) -> (r: Option<T>)
    ensures
        option_as_int(r) == spec_parse_int(s@, T::lower(), T::upper()),
{
    proof {
        T::lemma_limits();
    }
    let signed: bool = T::from_wide(Wide { negative: true, magnitude: 1 }).is_some();
    let n: usize = s.len();
    if n == 0 {
        return None;
    }
    let negative: bool = s[0] == '-' && signed;
    let start: usize = if s[0] == '+' || negative {
        1
    } else {
        0
    };
    if start == n {
        proof {
            assert(s@.drop_first().len() == 0);
        }
        return None;
    }
    let ghost digits = s@.skip(start as int);
    proof {
        assert(s@.drop_first() == s@.skip(1));
        assert(s@.skip(0) == s@);
        assert(spec_parse_decimal(s@, signed) == match spec_parse_digits(digits) {
            Some(v) => Some(
                if negative {
                    -v
                } else {
                    v
                },
            ),
            None => None,
        });
    }
    let mut acc: u128 = 0;
    let mut i: usize = start;
    proof {
        assert(digits.take(0) == Seq::<char>::empty());
    }
    while i < n
        invariant
            start <= i <= n,
            all_digits(digits.take(i - start)),
            acc == digits_value(digits.take(i - start)),
        decreases n - i,
    {
        let c: char = s[i];
        proof {
            assert(digits[i - start] == c);
            assert(digits.take(i - start + 1).drop_last() == digits.take(i - start));
            if all_digits(digits) {
                lemma_digits_value_grows(digits, i - start + 1);
            }
        }
        if !is_digit(c) {
            return None;
        }
        let digit: u128 = (c as u32 - 0x30) as u128;
        let shifted: u128 = match acc.checked_mul(10) {
            Some(m) => m,
            None => {
                return None;
            },
        };
        acc = match shifted.checked_add(digit) {
            Some(a) => a,
            None => {
                return None;
            },
        };
        proof {
            assert forall|k: int| 0 <= k < digits.take(i - start + 1).len() implies spec_is_digit(
                #[trigger] digits.take(i - start + 1)[k],
            ) by {
                if k < i - start {
                    assert(digits.take(i - start)[k] == digits.take(i - start + 1)[k]);
                }
            }
        }
        i += 1;
    }
    proof {
        assert(digits.take(n - start) == digits);
    }
    T::from_wide(Wide { negative, magnitude: acc })
}

/// The decimal literal of `v`.
pub fn format_int<T: Numeric>(v: T) -> (out: Vec<char>)
    ensures
        out@ == spec_decimal(v.as_int()),
{
    let wide: Wide = v.to_wide();
    let size: u128 = wide.magnitude;
    let mut rest: u128 = size;
    let mut low: Vec<char> = Vec::new();
    while rest >= 10
        invariant
            0 <= rest <= size,
            spec_digits(size as nat) == spec_digits(rest as nat) + low@.reverse(),
        decreases rest,
    {
        let d: u8 = (rest % 10) as u8;
        let ghost before = low@;
        low.push((d + 0x30) as char);
        proof {
            assert(low@.reverse() == seq![digit_char((rest % 10) as nat)] + before.reverse());
            assert(spec_digits(rest as nat) == spec_digits((rest / 10) as nat).push(
                digit_char((rest % 10) as nat),
            ));
        }
        rest = rest / 10;
    }
    let ghost before = low@;
    low.push((rest as u8 + 0x30) as char);
    proof {
        assert(low@.reverse() == seq![digit_char(rest as nat)] + before.reverse());
        assert(low@.reverse() == spec_digits(size as nat));
    }
    let mut out: Vec<char> = Vec::new();
    if wide.is_negative() {
        out.push('-');
    }
    let ghost sign = out@;
    let mut k: usize = low.len();
    while k > 0
        invariant
            k <= low.len(),
            out@ == sign + low@.reverse().take(low.len() - k),
        decreases k,
    {
        k -= 1;
        out.push(low[k]);
        proof {
            let turned = low@.reverse();
            assert(turned.take(low.len() - k) == turned.take(low.len() - k - 1).push(
                low@[k as int],
            ));
        }
    }
    proof {
        assert(low@.reverse().take(low.len() as int) == low@.reverse());
    }
    out
}

} // verus!
