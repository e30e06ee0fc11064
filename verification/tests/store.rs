use smirk::smirk_map::SmirkMap;
use smirk::smirk_messages::SmirkMessages;
use smirk::smirk_search_mode::SmirkSearchMode;
use smirk::value::{Kind, Value};
use smirk::record::{Record, RecordLike};

fn fresh() -> SmirkMap {
    SmirkMap::new(SmirkSearchMode::Glob)
}

#[test]
fn set_then_get_returns_parsed_i8() {
    let mut m = fresh();
    let key = String::from("a");
    let r = m.set(&key, b"5".to_vec(), Kind::I8, &String::from("i8"));
    assert!(r.is_ok());
    match m.get(&key, Kind::I8) {
        Ok(Value::I8(v)) => assert_eq!(*v, 5),
        _ => panic!("expected the parsed i8 back"),
    }
}

#[test]
fn set_then_get_returns_parsed_string_with_spaces() {
    let mut m = fresh();
    let key = String::from("s");
    let r = m.set(&key, b"hello there world".to_vec(), Kind::Str, &String::from("String"));
    assert!(r.is_ok());
    match m.get(&key, Kind::Str) {
        Ok(Value::Str(s)) => assert_eq!(s, "hello there world"),
        _ => panic!("expected the stored string back"),
    }
}

#[test]
fn set_then_get_returns_parsed_bool_and_char() {
    let mut m = fresh();
    m.set(&String::from("b"), b"true".to_vec(), Kind::Bool, &String::from("bool")).unwrap();
    m.set(&String::from("c"), "é".as_bytes().to_vec(), Kind::Char, &String::from("char")).unwrap();
    match m.get(&String::from("b"), Kind::Bool) {
        Ok(Value::Bool(b)) => assert!(*b),
        _ => panic!("expected true"),
    }
    match m.get(&String::from("c"), Kind::Char) {
        Ok(Value::Char(c)) => assert_eq!(*c, 'é'),
        _ => panic!("expected the char"),
    }
}

#[test]
fn bigint_is_stored_canonically() {
    let mut m = fresh();
    let key = String::from("n");
    m.set(&key, b"0012".to_vec(), Kind::Big, &String::from("BigInt")).unwrap();
    match m.get(&key, Kind::Big) {
        Ok(Value::Big(s)) => assert_eq!(s, "12"),
        _ => panic!("expected the canonical text"),
    }
}

#[test]
fn get_with_wrong_kind_is_type_mismatch() {
    let mut m = fresh();
    let key = String::from("a");
    m.set(&key, b"5".to_vec(), Kind::I8, &String::from("i8")).unwrap();
    match m.get(&key, Kind::U8) {
        Err(SmirkMessages::TypeMismatch(k, d)) => {
            assert_eq!(k, "a");
            assert_eq!(d, "u8");
        },
        _ => panic!("expected a type mismatch"),
    }
}

#[test]
fn reads_on_absent_key_are_key_not_found() {
    let m = fresh();
    let key = String::from("nope");
    assert!(matches!(m.get(&key, Kind::I8), Err(SmirkMessages::KeyNotFound(_))));
    assert!(matches!(m.get_record(&key), Err(SmirkMessages::KeyNotFound(_))));
    assert!(matches!(m.ttl(&key), Err(SmirkMessages::KeyNotFound(_))));
}

#[test]
fn failed_set_leaves_prior_record_unchanged() {
    let mut m = fresh();
    let key = String::from("a");
    m.set(&key, b"41".to_vec(), Kind::I8, &String::from("i8")).unwrap();
    let r = m.set(&key, b"not a number".to_vec(), Kind::I8, &String::from("i8"));
    match r {
        Err(SmirkMessages::ParseError(k, v, d)) => {
            assert_eq!(k, "a");
            assert_eq!(v, "not a number");
            assert_eq!(d, "i8");
        },
        _ => panic!("expected a parse error"),
    }
    match m.get(&key, Kind::I8) {
        Ok(Value::I8(v)) => assert_eq!(*v, 41),
        _ => panic!("the prior record must remain"),
    }
}

#[test]
fn set_overwrites_and_resets_ttl() {
    let mut m = fresh();
    let key = String::from("a");
    m.set(&key, b"1".to_vec(), Kind::I8, &String::from("i8")).unwrap();
    m.set_ttl(&key, &Some(1000));
    assert!(matches!(m.ttl(&key), Ok(Some(_))));
    m.set(&key, b"2".to_vec(), Kind::I8, &String::from("i8")).unwrap();
    assert!(matches!(m.ttl(&key), Ok(None)));
    match m.get(&key, Kind::I8) {
        Ok(Value::I8(v)) => assert_eq!(*v, 2),
        _ => panic!("expected the overwritten value"),
    }
}

#[test]
fn ttl_is_reported_within_tolerance_and_never_negative() {
    let mut m = fresh();
    let key = String::from("a");
    m.set(&key, b"1".to_vec(), Kind::I8, &String::from("i8")).unwrap();
    m.set_ttl(&key, &Some(100));
    match m.ttl(&key) {
        Ok(Some(left)) => assert!(left <= 100 && left >= 98),
        _ => panic!("expected a finite ttl"),
    }
}

#[test]
fn del_counts_one_then_zero_and_key_stops_existing() {
    let mut m = fresh();
    let key = String::from("a");
    m.set(&key, b"1".to_vec(), Kind::I8, &String::from("i8")).unwrap();
    assert!(m.key_exists(&key));
    assert_eq!(m.del(&key), 1);
    assert!(!m.key_exists(&key));
    assert_eq!(m.del(&key), 0);
    assert_eq!(m.del(&key), 0);
}

#[test]
fn two_sets_to_distinct_keys_are_both_applied() {
    let mut m = fresh();
    m.set(&String::from("x"), b"1".to_vec(), Kind::U32, &String::from("u32")).unwrap();
    m.set(&String::from("y"), b"2".to_vec(), Kind::U32, &String::from("u32")).unwrap();
    match m.get(&String::from("x"), Kind::U32) {
        Ok(Value::U32(v)) => assert_eq!(*v, 1),
        _ => panic!("x must keep its value"),
    }
    match m.get(&String::from("y"), Kind::U32) {
        Ok(Value::U32(v)) => assert_eq!(*v, 2),
        _ => panic!("y must keep its value"),
    }
}

#[test]
fn binary_set_always_succeeds_and_stores_bytes() {
    let mut m = fresh();
    let key = String::from("blob");
    let data = vec![0u8, 1, 2, b'\n', 255];
    let r = m.binary_set(&key, data.clone(), &String::from("weird-tag"));
    match r {
        Ok(SmirkMessages::SetKey(k, stored, desired)) => {
            assert_eq!(k, "blob");
            assert_eq!(stored, "Vec<u8>");
            assert_eq!(desired, "weird-tag");
        },
        _ => panic!("binary set must succeed"),
    }
    match m.get(&key, Kind::Bytes) {
        Ok(Value::Bytes(b)) => assert_eq!(*b, data),
        _ => panic!("expected the raw bytes back"),
    }
}

#[test]
fn set_ttl_keeps_countdown_start() {
    let mut m = fresh();
    let key = String::from("a");
    m.set(&key, b"1".to_vec(), Kind::I8, &String::from("i8")).unwrap();
    let before = match m.get_record(&key) {
        Ok(rec) => rec.ttl_start,
        _ => panic!("record must exist"),
    };
    m.set_ttl(&key, &Some(50));
    let after = match m.get_record(&key) {
        Ok(rec) => {
            assert_eq!(rec.ttl, Some(50));
            rec.ttl_start
        },
        _ => panic!("record must exist"),
    };
    assert_eq!(before, after);
}

#[test]
fn add_reports_overflow_instead_of_wrapping() {
    let mut m = fresh();
    m.set(&String::from("a"), b"100".to_vec(), Kind::I8, &String::from("i8")).unwrap();
    m.set(&String::from("b"), b"100".to_vec(), Kind::I8, &String::from("i8")).unwrap();
    let keys = vec![String::from("a"), String::from("b")];
    assert!(matches!(m.add(&keys, Kind::I8), Err(SmirkMessages::AddOverflowError)));
}

#[test]
fn add_sums_in_order_and_exactly() {
    let mut m = fresh();
    m.set(&String::from("a"), b"50".to_vec(), Kind::U8, &String::from("u8")).unwrap();
    m.set(&String::from("b"), b"50".to_vec(), Kind::U8, &String::from("u8")).unwrap();
    let keys = vec![String::from("a"), String::from("b")];
    match m.add(&keys, Kind::U8) {
        Ok(Value::U8(v)) => assert_eq!(v, 100),
        _ => panic!("expected the exact sum"),
    }
}

#[test]
fn add_aborts_on_first_missing_key() {
    let mut m = fresh();
    m.set(&String::from("a"), b"1".to_vec(), Kind::U8, &String::from("u8")).unwrap();
    let keys = vec![String::from("a"), String::from("missing"), String::from("also-missing")];
    match m.add(&keys, Kind::U8) {
        Err(SmirkMessages::ParseError(k, v, d)) => {
            assert_eq!(k, "missing");
            assert_eq!(v, "");
            assert_eq!(d, "u8");
        },
        _ => panic!("expected the first missing key to abort"),
    }
}

#[test]
fn add_bigint_never_overflows() {
    let mut m = fresh();
    let big = b"170141183460469231731687303715884105728".to_vec();
    m.set(&String::from("a"), big.clone(), Kind::Big, &String::from("BigInt")).unwrap();
    m.set(&String::from("b"), big, Kind::Big, &String::from("BigInt")).unwrap();
    let keys = vec![String::from("a"), String::from("b")];
    match m.add(&keys, Kind::Big) {
        Ok(Value::Big(s)) => assert_eq!(s, "340282366920938463463374607431768211456"),
        _ => panic!("expected the exact big sum"),
    }
}

#[test]
fn add_float_gathers_bits_in_order() {
    let mut m = fresh();
    m.set_float_bits(&String::from("x"), false, 1078530011u64, &String::from("f32"));
    m.set_float_bits(&String::from("y"), false, 1065353216u64, &String::from("f32"));
    let keys = vec![String::from("x"), String::from("y")];
    match m.add_float(&keys, false) {
        Ok(bits) => assert_eq!(bits, vec![1078530011u64, 1065353216u64]),
        _ => panic!("expected the bit patterns"),
    }
}

#[test]
fn float_bits_round_trip_and_mismatch() {
    let mut m = fresh();
    let pi = std::f32::consts::PI.to_bits() as u64;
    m.set_float_bits(&String::from("pi"), false, pi, &String::from("f32"));
    assert_eq!(m.get_float_bits(&String::from("pi"), false).unwrap(), pi);
    assert!(matches!(
        m.get_float_bits(&String::from("pi"), true),
        Err(SmirkMessages::TypeMismatch(_, _))
    ));
    let f = f32::from_bits(m.get_float_bits(&String::from("pi"), false).unwrap() as u32);
    assert_eq!(f, std::f32::consts::PI);
}

#[test]
fn records_without_ttl_never_expire() {
    let rec = Record {
        value: Value::I8(1),
        ttl: None,
        ttl_start: 0,
        stored_type_name: String::from("i8"),
        desired_type_name: String::from("i8"),
    };
    assert!(!rec.is_expired());
    assert_eq!(rec.get_ttl(), None);
    let expired = Record {
        value: Value::I8(1),
        ttl: Some(0),
        ttl_start: 0,
        stored_type_name: String::from("i8"),
        desired_type_name: String::from("i8"),
    };
    assert!(expired.is_expired());
    assert_eq!(expired.get_ttl(), Some(0));
}

#[test]
fn expired_records_stay_readable_and_deletable() {
    let mut m = fresh();
    let key = String::from("a");
    m.set(&key, b"7".to_vec(), Kind::I8, &String::from("i8")).unwrap();
    m.set_ttl(&key, &Some(0));
    assert_eq!(m.ttl(&key).unwrap(), Some(0));
    assert!(m.key_exists(&key));
    assert!(matches!(m.get(&key, Kind::I8), Ok(Value::I8(7))));
    assert_eq!(m.del(&key), 1);
}

#[test]
fn live_keys_follow_insertion_order() {
    let mut m = fresh();
    m.set(&String::from("b"), b"1".to_vec(), Kind::I8, &String::from("i8")).unwrap();
    m.set(&String::from("a"), b"2".to_vec(), Kind::I8, &String::from("i8")).unwrap();
    m.set(&String::from("b"), b"3".to_vec(), Kind::I8, &String::from("i8")).unwrap();
    assert_eq!(m.live_keys(), vec![String::from("b"), String::from("a")]);
}
