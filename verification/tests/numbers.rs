use smirk::numtext::{i128_to_string, parse_signed, parse_unsigned, u128_to_string, u64_to_string};
use smirk::smirk_search_mode::SmirkSearchMode;
use smirk::record::compute_remaining_ttl;
use smirk::smirk_messages::SmirkMessages;

#[test]
fn decimal_rendering_is_exact() {
    assert_eq!(u128_to_string(0), "0");
    assert_eq!(u128_to_string(10), "10");
    assert_eq!(u128_to_string(u128::MAX), "340282366920938463463374607431768211455");
    assert_eq!(u64_to_string(53173), "53173");
    assert_eq!(i128_to_string(-1), "-1");
    assert_eq!(i128_to_string(i128::MIN), "-170141183460469231731687303715884105728");
    assert_eq!(i128_to_string(i128::MAX), "170141183460469231731687303715884105727");
}

#[test]
fn unsigned_parsing_follows_the_literal_grammar() {
    assert_eq!(parse_unsigned("0", u8::MAX as u128), Some(0));
    assert_eq!(parse_unsigned("+55", u8::MAX as u128), Some(55));
    // An unsigned target rejects a minus sign outright, as std does.
    assert!("-0".parse::<u8>().is_err());
    assert_eq!(parse_unsigned("-0", u8::MAX as u128), None);
    assert_eq!(parse_unsigned("-000", u8::MAX as u128), None);
    assert_eq!(parse_unsigned("-5", u8::MAX as u128), None);
    assert_eq!(parse_unsigned("256", u8::MAX as u128), None);
    assert_eq!(parse_unsigned("255", u8::MAX as u128), Some(255));
    assert_eq!(parse_unsigned("", u8::MAX as u128), None);
    assert_eq!(parse_unsigned("+", u8::MAX as u128), None);
    assert_eq!(parse_unsigned("1 2", u8::MAX as u128), None);
    assert_eq!(parse_unsigned("12a", u8::MAX as u128), None);
    assert_eq!(
        parse_unsigned("340282366920938463463374607431768211455", u128::MAX),
        Some(u128::MAX)
    );
    assert_eq!(parse_unsigned("340282366920938463463374607431768211456", u128::MAX), None);
}

#[test]
fn signed_parsing_holds_the_exact_bounds() {
    assert_eq!(parse_signed("-128", i8::MIN as i128, i8::MAX as i128), Some(-128));
    assert_eq!(parse_signed("-129", i8::MIN as i128, i8::MAX as i128), None);
    assert_eq!(parse_signed("127", i8::MIN as i128, i8::MAX as i128), Some(127));
    assert_eq!(parse_signed("128", i8::MIN as i128, i8::MAX as i128), None);
    assert_eq!(parse_signed("+0", i8::MIN as i128, i8::MAX as i128), Some(0));
    // A signed target accepts a minus before zero, as std does.
    assert_eq!("-0".parse::<i8>().ok(), Some(0));
    assert_eq!(parse_signed("-0", i8::MIN as i128, i8::MAX as i128), Some(0));
    assert_eq!(parse_signed("--1", i8::MIN as i128, i8::MAX as i128), None);
    assert_eq!(
        parse_signed("-170141183460469231731687303715884105728", i128::MIN, i128::MAX),
        Some(i128::MIN)
    );
}

#[test]
fn remaining_ttl_clamps_at_zero_and_never_resets() {
    assert_eq!(compute_remaining_ttl(None, 100, 500), None);
    assert_eq!(compute_remaining_ttl(Some(5), 100, 100), Some(5));
    assert_eq!(compute_remaining_ttl(Some(5), 100, 103), Some(2));
    assert_eq!(compute_remaining_ttl(Some(5), 100, 105), Some(0));
    assert_eq!(compute_remaining_ttl(Some(5), 100, 10000), Some(0));
    // A clock behind the write moment counts as no time elapsed.
    assert_eq!(compute_remaining_ttl(Some(5), 100, 99), Some(5));
}

#[test]
fn messages_render_their_exact_text() {
    let m = SmirkMessages::SetKey(String::from("k"), String::from("i8"), String::from("i8"));
    assert_eq!(m.to_string(), "Set key \"k\" successfully. Stored-Type: i8, User-Type: i8\n");
    let m = SmirkMessages::KeyNotFound(String::from("k"));
    assert_eq!(m.to_string(), "Key \"k\" not found.\n");
    let m = SmirkMessages::TypeMismatch(String::from("k"), String::from("u8"));
    assert_eq!(m.to_string(), "Couldn't downcast the value stored in key \"k\" to type \"u8\".\n");
    let m = SmirkMessages::ParseError(String::from("k"), String::from("x"), String::from("u8"));
    assert_eq!(m.to_string(), "Setting key \"k\" failed. Could not parse \"x\" into \"u8\".\n");
    assert_eq!(SmirkMessages::AddOverflowError.to_string(), "Addition overflowed.\n");
}

#[test]
fn search_mode_copies_through_from_ref() {
    assert_eq!(SmirkSearchMode::from_ref(SmirkSearchMode::Trie), SmirkSearchMode::Trie);
}
