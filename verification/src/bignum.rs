//! Arbitrary-precision integers, kept as their canonical decimal text.  The
//! grammar below states exactly which strings `num::BigInt` parses in base
//! ten (an optional sign, decimal digits, `_` separators after the first
//! digit) and what value they denote; the crate itself does the parsing,
//! the addition and the rendering, behind the two trusted wrappers here.

use vstd::prelude::*;
use crate::numtext::{is_dec_digit, digit_val, dec_int, dec_nat, digit_char};

verus! {

/// Removes a single leading `-` unless a `+` follows it.
pub open spec fn big_after_minus(s: Seq<char>) -> Seq<char> {
    if s.len() > 0 && s[0] == '-' && !(s.len() > 1 && s[1] == '+') {
        s.drop_first()
    } else {
        s
    }
}

/// Removes a single leading `+` unless another `+` follows it.
pub open spec fn big_after_plus(s: Seq<char>) -> Seq<char> {
    if s.len() > 0 && s[0] == '+' && !(s.len() > 1 && s[1] == '+') {
        s.drop_first()
    } else {
        s
    }
}

/// The digit part of a big-integer literal: what remains of `s` after its
/// sign characters.
pub open spec fn big_digit_part(s: Seq<char>) -> Seq<char> {
    big_after_plus(big_after_minus(s))
}

/// The digit part is well-formed: nonempty, it does not begin with an
/// underscore, and every character is a digit or an underscore.
pub open spec fn big_digits_ok(u: Seq<char>) -> bool {
    &&& u.len() > 0
    &&& u[0] != '_'
    &&& forall|i: int| 0 <= i < u.len() ==> is_dec_digit(#[trigger] u[i]) || u[i] == '_'
}

/// `s` is a base-ten literal that `num::BigInt` accepts.
pub open spec fn big_literal_ok(s: Seq<char>) -> bool {
    big_digits_ok(big_digit_part(s))
}

/// The literal denotes a negative value.
pub open spec fn big_literal_neg(s: Seq<char>) -> bool {
    s.len() > 0 && s[0] == '-'
}

/// The magnitude of a digit part, underscores skipped.
pub open spec fn big_digits_val(u: Seq<char>) -> nat
    decreases u.len(),
{
    if u.len() == 0 {
        0
    } else if u.last() == '_' {
        big_digits_val(u.drop_last())
    } else {
        big_digits_val(u.drop_last()) * 10 + digit_val(u.last())
    }
}

/// The integer a big-integer literal denotes.
pub open spec fn big_literal_val(s: Seq<char>) -> int {
    if big_literal_neg(s) {
        -(big_digits_val(big_digit_part(s)) as int)
    } else {
        big_digits_val(big_digit_part(s)) as int
    }
}

/// `s` is the canonical decimal rendering of some integer: a `-` sign only
/// when negative, no leading zeros, `0` for zero.
pub open spec fn is_dec_text(s: Seq<char>) -> bool {
    exists|v: int| s == dec_int(v)
}

/// Relies on `num::BigInt`'s `FromStr` impl (base-ten literals as
/// `big_literal_ok` states them) and on its `Display` impl (the plain
/// decimal rendering of the value).
#[verifier::external_body]
pub fn big_canonicalize(s: &str) -> (r: Option<String>)
    ensures
        r is Some <==> big_literal_ok(s@),
        r matches Some(t) ==> t@ == dec_int(big_literal_val(s@)),
{
    s.parse::<num::BigInt>().ok().map(|b| b.to_string())
}

/// Relies on `num::BigInt`: parses two decimal strings, adds the values,
/// and renders the sum in decimal.  Canonical inputs always parse.
#[verifier::external_body]
pub fn big_add_text(a: &str, b: &str) -> (r: String)
    requires
        is_dec_text(a@),
        is_dec_text(b@),
    ensures
        r@ == dec_int(big_literal_val(a@) + big_literal_val(b@)),
{
    let x: num::BigInt = a.parse().unwrap();
    let y: num::BigInt = b.parse().unwrap();
    (x + y).to_string()
}


/// Every character of a decimal digit string is a digit.
proof fn lemma_dec_nat_digits(n: nat)
    ensures
        dec_nat(n).len() > 0,
        forall|i: int| 0 <= i < dec_nat(n).len() ==> is_dec_digit(#[trigger] dec_nat(n)[i]),
    decreases n,
{
    if n < 10 {
    } else {
        lemma_dec_nat_digits(n / 10);
        assert forall|i: int| 0 <= i < dec_nat(n).len() implies is_dec_digit(
            #[trigger] dec_nat(n)[i],
        ) by {
            if i < dec_nat(n / 10).len() {
                assert(dec_nat(n)[i] == dec_nat(n / 10)[i]);
            }
        }
    }
}

/// Reading the digit string of `n` back gives `n`.
proof fn lemma_big_digits_val_dec_nat(n: nat)
    ensures
        big_digits_val(dec_nat(n)) == n,
    decreases n,
{
    if n < 10 {
        assert(dec_nat(n).drop_last() =~= Seq::<char>::empty());
        assert(big_digits_val(Seq::<char>::empty()) == 0);
        assert(dec_nat(n).last() == digit_char(n % 10));
        assert(digit_val(digit_char(n % 10)) == n % 10);
    } else {
        lemma_big_digits_val_dec_nat(n / 10);
        assert(dec_nat(n).drop_last() =~= dec_nat(n / 10));
        assert(dec_nat(n).last() == digit_char(n % 10));
    }
}

/// The canonical decimal rendering of any integer is a big-integer
/// literal, and it denotes that integer.
pub proof fn lemma_dec_int_round_trip(v: int)
    ensures
        big_literal_ok(dec_int(v)),
        big_literal_val(dec_int(v)) == v,
{
    if v >= 0 {
        lemma_dec_nat_digits(v as nat);
        lemma_big_digits_val_dec_nat(v as nat);
        assert(dec_int(v) == dec_nat(v as nat));
        assert(is_dec_digit(dec_int(v)[0]));
        assert(dec_int(v)[0] != '-' && dec_int(v)[0] != '+' && dec_int(v)[0] != '_');
        assert(big_digit_part(dec_int(v)) == dec_int(v));
    } else {
        lemma_dec_nat_digits((-v) as nat);
        lemma_big_digits_val_dec_nat((-v) as nat);
        let d = dec_nat((-v) as nat);
        assert(dec_int(v) == seq!['-'] + d);
        assert(dec_int(v)[0] == '-');
        assert(dec_int(v)[1] == d[0]);
        assert(is_dec_digit(d[0]));
        assert(d[0] != '+' && d[0] != '_');
        assert(dec_int(v).drop_first() =~= d);
        assert(big_after_minus(dec_int(v)) == d);
        assert(big_digit_part(dec_int(v)) == d);
        assert forall|i: int| 0 <= i < d.len() implies is_dec_digit(#[trigger] d[i]) || d[i]
            == '_' by {}
        assert(big_literal_neg(dec_int(v)));
    }
}

} // verus!
