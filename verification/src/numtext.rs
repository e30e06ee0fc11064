//! Decimal text: the specification of integer literals as Rust's `FromStr`
//! accepts them (an optional sign followed by one or more ASCII digits,
//! a minus sign admitted only by the signed targets, the value required to
//! lie in the target range), and verified parsing and formatting routines
//! over that specification.

use vstd::prelude::*;

verus! {

/// An ASCII decimal digit.
pub open spec fn is_dec_digit(c: char) -> bool {
    48 <= c as u32 && c as u32 <= 57
}

/// The numeric value of one decimal digit.
pub open spec fn digit_val(c: char) -> nat {
    (c as u32 - 48) as nat
}

/// Every character of `s` is a decimal digit.
pub open spec fn all_digits(s: Seq<char>) -> bool {
    forall|i: int| 0 <= i < s.len() ==> is_dec_digit(#[trigger] s[i])
}

/// The value of a digit string, most significant digit first.
pub open spec fn digits_val(s: Seq<char>) -> nat
    decreases s.len(),
{
    if s.len() == 0 {
        0
    } else {
        digits_val(s.drop_last()) * 10 + digit_val(s.last())
    }
}

/// Splits a leading `+` (sign `1`) or `-` (sign `-1`) off a literal;
/// without one the sign is `1` and the string is kept whole.
pub open spec fn strip_sign(s: Seq<char>) -> (int, Seq<char>) {
    if s.len() > 0 && s[0] == '+' {
        (1int, s.drop_first())
    } else if s.len() > 0 && s[0] == '-' {
        (-1int, s.drop_first())
    } else {
        (1int, s)
    }
}

/// `s` is an integer literal: an optional sign followed by at least one digit.
pub open spec fn int_literal_ok(s: Seq<char>) -> bool {
    let rest = strip_sign(s).1;
    rest.len() > 0 && all_digits(rest)
}

/// The signed value denoted by the literal `s`.
pub open spec fn int_literal_val(s: Seq<char>) -> int {
    strip_sign(s).0 * digits_val(strip_sign(s).1)
}

/// What parsing `s` into the range `lo ..= hi` yields: the denoted value
/// when `s` is a literal and the value fits, nothing otherwise.
pub open spec fn parse_int_in(s: Seq<char>, lo: int, hi: int) -> Option<int> {
    if int_literal_ok(s) && lo <= int_literal_val(s) <= hi {
        Some(int_literal_val(s))
    } else {
        None
    }
}

/// What parsing `s` as an unsigned value up to `hi` yields: an unsigned
/// target admits no minus sign at all, not even before zero.
pub open spec fn parse_uint_in(s: Seq<char>, hi: int) -> Option<int> {
    if strip_sign(s).0 == -1 {
        None
    } else {
        parse_int_in(s, 0, hi)
    }
}

/// The value of a digit string is at least the value of any of its prefixes.
proof fn lemma_digits_val_prefix_le(s: Seq<char>, k: int)
    requires
        0 <= k <= s.len(),
    ensures
        digits_val(s.take(k)) <= digits_val(s),
    decreases s.len() - k,
{
    if k < s.len() {
        assert(s.take(k + 1).drop_last() =~= s.take(k));
        assert(digits_val(s.take(k + 1)) == digits_val(s.take(k)) * 10 + digit_val(s.take(k + 1).last()));
        assert(digits_val(s.take(k)) * 10 >= digits_val(s.take(k))) by (nonlinear_arith);
        lemma_digits_val_prefix_le(s, k + 1);
    } else {
        assert(s.take(k) =~= s);
    }
}

/// Scans the digits of `s` from index `start` on, returning their value, or
/// `None` when a non-digit occurs, the digits are absent, or the value
/// exceeds `u128::MAX`.
fn scan_digits(s: &str, start: usize, n: usize) -> (r: Option<u128>)
    requires
        n == s@.len(),
        start <= n,
    ensures
        match r {
            Some(mag) => {
                let rest = s@.skip(start as int);
                rest.len() > 0 && all_digits(rest) && mag == digits_val(rest)
            },
            None => {
                let rest = s@.skip(start as int);
                !(rest.len() > 0 && all_digits(rest)) || digits_val(rest) > u128::MAX
            },
        },
{
    let ghost rest = s@.skip(start as int);
    if start == n {
        return None;
    }
    let mut mag: u128 = 0;
    let mut i: usize = start;
    while i < n
        invariant
            n == s@.len(),
            start <= i <= n,
            rest == s@.skip(start as int),
            all_digits(rest.take(i - start)),
            mag == digits_val(rest.take(i - start)),
        decreases n - i,
    {
        let c = s.get_char(i);
        if !('0' <= c && c <= '9') {
            proof {
                assert(rest[i - start] == s@[i as int]);
                assert(!is_dec_digit(rest[i - start]));
            }
            return None;
        }
        let d: u128 = (c as u32 - 48) as u128;
        proof {
            assert(rest.take(i + 1 - start).drop_last() =~= rest.take(i - start));
            assert(rest.take(i + 1 - start).last() == s@[i as int]);
        }
        let next = match mag.checked_mul(10) {
            Some(m10) => m10.checked_add(d),
            None => None,
        };
        match next {
            Some(m) => {
                mag = m;
            },
            None => {
                proof {
                    assert(digits_val(rest.take(i + 1 - start)) > u128::MAX);
                    lemma_digits_val_prefix_le(rest, i + 1 - start);
                }
                return None;
            },
        }
        i = i + 1;
    }
    proof {
        assert(rest.take(i - start) =~= rest);
    }
    Some(mag)
}

/// Parses `s` as an integer literal, yielding the sign (`true` for a `-`
/// literal) and the digit magnitude; `None` when `s` is not a literal or its
/// magnitude exceeds `u128::MAX`.
fn parse_sign_magnitude(s: &str) -> (r: Option<(bool, u128)>)
    ensures
        match r {
            Some(p) => {
                &&& int_literal_ok(s@)
                &&& p.1 == digits_val(strip_sign(s@).1)
                &&& p.0 == (strip_sign(s@).0 == -1)
            },
            None => !int_literal_ok(s@) || digits_val(strip_sign(s@).1) > u128::MAX,
        },
{
    let n = s.unicode_len();
    if n == 0 {
        return None;
    }
    let first = s.get_char(0);
    let (neg, start): (bool, usize) = if first == '+' {
        (false, 1)
    } else if first == '-' {
        (true, 1)
    } else {
        (false, 0)
    };
    proof {
        if start == 1 {
            assert(s@.skip(1) =~= s@.drop_first());
        } else {
            assert(s@.skip(0) =~= s@);
        }
    }
    match scan_digits(s, start, n) {
        Some(mag) => Some((neg, mag)),
        None => None,
    }
}

/// Parses `s` as an unsigned integer no greater than `hi`, exactly as
/// `parse_uint_in(s, hi)` describes.
pub fn parse_unsigned(s: &str, hi: u128) -> (r: Option<u128>)
    ensures
        match r {
            Some(v) => parse_uint_in(s@, hi as int) == Some(v as int),
            None => parse_uint_in(s@, hi as int) is None,
        },
{
    match parse_sign_magnitude(s) {
        None => {
            proof {
                assert(!int_literal_ok(s@) || digits_val(strip_sign(s@).1) > u128::MAX);
                if int_literal_ok(s@) {
                    let sg = strip_sign(s@).0;
                    let m = digits_val(strip_sign(s@).1);
                    assert(sg == 1 || sg == -1);
                    assert(m > u128::MAX);
                    assert(int_literal_val(s@) == sg * m);
                    if sg == 1 {
                        assert(sg * m == 1 * m);
                        assert(int_literal_val(s@) > hi as int);
                    }
                }
            }
            None
        },
        Some((neg, mag)) => {
            proof {
                let sg = strip_sign(s@).0;
                let m = digits_val(strip_sign(s@).1);
                assert(sg == 1 || sg == -1);
                assert(int_literal_val(s@) == sg * m);
                if sg == 1 {
                    assert(sg * m == 1 * m);
                }
            }
            if neg {
                None
            } else if mag <= hi {
                Some(mag)
            } else {
                None
            }
        },
    }
}

/// Parses `s` as a signed integer in `lo ..= hi`, exactly as
/// `parse_int_in(s, lo, hi)` describes.
pub fn parse_signed(s: &str, lo: i128, hi: i128) -> (r: Option<i128>)
    requires
        lo < 0 <= hi,
    ensures
        match r {
            Some(v) => parse_int_in(s@, lo as int, hi as int) == Some(v as int),
            None => parse_int_in(s@, lo as int, hi as int) is None,
        },
{
    let lo_mag: u128 = ((-(lo + 1)) as u128) + 1;
    proof {
        assert(lo_mag == -(lo as int));
    }
    match parse_sign_magnitude(s) {
        None => {
            proof {
                if int_literal_ok(s@) {
                    let sg = strip_sign(s@).0;
                    let m = digits_val(strip_sign(s@).1);
                    assert(sg == 1 || sg == -1);
                    if sg == 1 {
                        assert(sg * m == 1 * m);
                    } else {
                        assert(sg * m == (-1) * m);
                    }
                }
            }
            None
        },
        Some((neg, mag)) => {
            proof {
                let sg = strip_sign(s@).0;
                let m = digits_val(strip_sign(s@).1);
                assert(sg == 1 || sg == -1);
                if sg == 1 {
                    assert(sg * m == 1 * m);
                } else {
                    assert(sg * m == (-1) * m);
                }
            }
            if neg {
                if mag == 0 {
                    Some(0)
                } else if mag <= lo_mag {
                    let v: i128 = (-((mag - 1) as i128)) - 1;
                    Some(v)
                } else {
                    None
                }
            } else {
                if mag <= hi as u128 {
                    Some(mag as i128)
                } else {
                    None
                }
            }
        },
    }
}

/// The decimal digit string of `n`, most significant digit first.
pub open spec fn dec_nat(n: nat) -> Seq<char>
    decreases n,
{
    if n < 10 {
        seq![digit_char(n % 10)]
    } else {
        dec_nat(n / 10) + seq![digit_char(n % 10)]
    }
}

/// The decimal rendering of `v`: a `-` sign for negative values, then digits.
pub open spec fn dec_int(v: int) -> Seq<char> {
    if v < 0 {
        seq!['-'] + dec_nat((-v) as nat)
    } else {
        dec_nat(v as nat)
    }
}

/// The digit character for a value below ten.
pub open spec fn digit_char(d: nat) -> char {
    if d == 0 {
        '0'
    } else if d == 1 {
        '1'
    } else if d == 2 {
        '2'
    } else if d == 3 {
        '3'
    } else if d == 4 {
        '4'
    } else if d == 5 {
        '5'
    } else if d == 6 {
        '6'
    } else if d == 7 {
        '7'
    } else if d == 8 {
        '8'
    } else {
        '9'
    }
}

/// The one-character string for a digit value.
fn digit_str(d: u128) -> (r: &'static str)
    requires
        d < 10,
    ensures
        r@ =~= seq![digit_char(d as nat)],
{
    proof {
        reveal_strlit("0");
        reveal_strlit("1");
        reveal_strlit("2");
        reveal_strlit("3");
        reveal_strlit("4");
        reveal_strlit("5");
        reveal_strlit("6");
        reveal_strlit("7");
        reveal_strlit("8");
        reveal_strlit("9");
    }
    if d == 0 {
        "0"
    } else if d == 1 {
        "1"
    } else if d == 2 {
        "2"
    } else if d == 3 {
        "3"
    } else if d == 4 {
        "4"
    } else if d == 5 {
        "5"
    } else if d == 6 {
        "6"
    } else if d == 7 {
        "7"
    } else if d == 8 {
        "8"
    } else {
        "9"
    }
}

/// Renders `n` in decimal.
pub fn u128_to_string(n: u128) -> (s: String)
    ensures
        s@ == dec_nat(n as nat),
    decreases n,
{
    if n < 10 {
        String::from_str(digit_str(n))
    } else {
        let mut s = u128_to_string(n / 10);
        s.append(digit_str(n % 10));
        proof {
            assert(s@ =~= dec_nat(n as nat));
        }
        s
    }
}

/// Renders `v` in decimal, with a `-` sign when negative.
pub fn i128_to_string(v: i128) -> (s: String)
    ensures
        s@ == dec_int(v as int),
{
    if v >= 0 {
        u128_to_string(v as u128)
    } else {
        let mag: u128 = ((-(v + 1)) as u128) + 1;
        let mut s = String::from_str("-");
        let tail = u128_to_string(mag);
        s.append(tail.as_str());
        proof {
            reveal_strlit("-");
            assert(s@ =~= dec_int(v as int));
        }
        s
    }
}

/// Renders `n` in decimal.
pub fn u64_to_string(n: u64) -> (s: String)
    ensures
        s@ == dec_nat(n as nat),
{
    u128_to_string(n as u128)
}

} // verus!
