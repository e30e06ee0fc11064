use smirk::command::Command;
use smirk::dispatch::{process_command, FloatRequest, Response};
use smirk::smirk_map::SmirkMap;
use smirk::smirk_search_mode::SmirkSearchMode;

fn fresh() -> SmirkMap {
    SmirkMap::new(SmirkSearchMode::Glob)
}

fn run(m: &mut SmirkMap, line: &[u8]) -> Response {
    let cmd = Command::from_vec(line.to_vec()).expect("the line must decode");
    process_command(m, &cmd)
}

fn text(r: Response) -> String {
    match r {
        Response::Text(s) => s,
        _ => panic!("expected a text response"),
    }
}

#[test]
fn set_acknowledges_with_both_type_names() {
    let mut m = fresh();
    let r = run(&mut m, b"SET i8 a 5\n");
    assert_eq!(text(r), "Set key \"a\" successfully. Stored-Type: i8, User-Type: i8\n");
}

#[test]
fn get_renders_the_stored_value() {
    let mut m = fresh();
    run(&mut m, b"SET i64 a -42\n");
    assert_eq!(text(run(&mut m, b"GET i64 a\n")), "-42\n");
}

#[test]
fn get_absent_key_reports_not_found() {
    let mut m = fresh();
    assert_eq!(text(run(&mut m, b"GET i64 nope\n")), "Key \"nope\" not found.\n");
}

#[test]
fn get_wrong_type_reports_mismatch() {
    let mut m = fresh();
    run(&mut m, b"SET i8 a 5\n");
    assert_eq!(
        text(run(&mut m, b"GET u64 a\n")),
        "Couldn't downcast the value stored in key \"a\" to type \"u64\".\n"
    );
}

#[test]
fn set_parse_failure_reports_the_input() {
    let mut m = fresh();
    assert_eq!(
        text(run(&mut m, b"SET i8 a big\n")),
        "Setting key \"a\" failed. Could not parse \"big\" into \"i8\".\n"
    );
}

#[test]
fn unknown_tag_is_stored_as_bytes_and_returned_verbatim() {
    let mut m = fresh();
    run(&mut m, b"SET mystery a line one\n");
    match run(&mut m, b"GET mystery a\n") {
        Response::Bytes(b) => assert_eq!(b, b"line one".to_vec()),
        _ => panic!("expected raw bytes"),
    }
}

#[test]
fn del_reports_the_removed_count_without_newline() {
    let mut m = fresh();
    run(&mut m, b"SET i8 a 1\n");
    run(&mut m, b"SET i8 b 2\n");
    assert_eq!(text(run(&mut m, b"DEL a b missing\n")), "2");
    assert_eq!(text(run(&mut m, b"DEL a\n")), "0");
}

#[test]
fn exists_answers_true_and_false() {
    let mut m = fresh();
    assert_eq!(text(run(&mut m, b"EXISTS a\n")), "false\n");
    run(&mut m, b"SET i8 a 1\n");
    assert_eq!(text(run(&mut m, b"EXISTS a\n")), "true\n");
}

#[test]
fn type_reports_stored_and_declared_names() {
    let mut m = fresh();
    run(&mut m, b"SET oddtag a 1\n");
    assert_eq!(text(run(&mut m, b"TYPE a\n")), "Stored-Type: Vec<u8>, User-Type: oddtag\n");
    assert_eq!(text(run(&mut m, b"TYPE b\n")), "Key \"b\" not found.\n");
}

#[test]
fn ttl_messages_for_absent_and_persistent_keys() {
    let mut m = fresh();
    assert_eq!(text(run(&mut m, b"TTL a\n")), "Key \"a\" does not exist.\n");
    run(&mut m, b"SET i8 a 1\n");
    assert_eq!(text(run(&mut m, b"TTL a\n")), "Key \"a\" does not expire.\n");
    run(&mut m, b"TTL a 60\n");
    let reply = text(run(&mut m, b"TTL a\n"));
    let left: u64 = reply.trim().parse().expect("a number of seconds");
    assert!(left <= 60 && left >= 58);
    run(&mut m, b"DELTTL a\n");
    assert_eq!(text(run(&mut m, b"TTL a\n")), "Key \"a\" does not expire.\n");
}

#[test]
fn mode_and_ttl_set_reply_with_nothing() {
    let mut m = fresh();
    assert!(matches!(run(&mut m, b"MODE REGEX\n"), Response::Nothing));
    assert!(matches!(m.search_mode, SmirkSearchMode::Regex));
    run(&mut m, b"SET i8 a 1\n");
    assert!(matches!(run(&mut m, b"TTL a 60\n"), Response::Nothing));
}

#[test]
fn quit_says_bye_and_save_is_unsupported() {
    let mut m = fresh();
    match run(&mut m, b"QUIT\n") {
        Response::Quit(s) => assert_eq!(s, "Bye.\n"),
        _ => panic!("expected the farewell"),
    }
    assert_eq!(text(run(&mut m, b"SAVE\n")), "SAVE is not supported.\n");
}

#[test]
fn add_renders_the_sum_without_newline() {
    let mut m = fresh();
    run(&mut m, b"SET u16 a 1000\n");
    run(&mut m, b"SET u16 b 234\n");
    assert_eq!(text(run(&mut m, b"ADD u16 a b\n")), "1234");
}

#[test]
fn add_overflow_is_reported() {
    let mut m = fresh();
    run(&mut m, b"SET i8 a 100\n");
    run(&mut m, b"SET i8 b 100\n");
    assert_eq!(text(run(&mut m, b"ADD i8 a b\n")), "Addition overflowed.\n");
}

#[test]
fn add_bigint_sums_exactly() {
    let mut m = fresh();
    run(&mut m, b"SET BigInt a 99999999999999999999999999999999999999990\n");
    run(&mut m, b"SET BigInt b 10\n");
    assert_eq!(text(run(&mut m, b"ADD BigInt a b\n")), "100000000000000000000000000000000000000000");
}

#[test]
fn float_commands_come_back_as_work_items() {
    let mut m = fresh();
    match run(&mut m, b"SET f32 a 1.5\n") {
        Response::Float(FloatRequest::SetFloat(wide, key, raw, desired)) => {
            assert!(!wide);
            assert_eq!(key, "a");
            assert_eq!(raw, b"1.5".to_vec());
            assert_eq!(desired, "f32");
        },
        _ => panic!("expected float set work"),
    }
    match run(&mut m, b"GET f64 a\n") {
        Response::Float(FloatRequest::GetFloat(wide, key)) => {
            assert!(wide);
            assert_eq!(key, "a");
        },
        _ => panic!("expected float get work"),
    }
    match run(&mut m, b"ADD f64 a b\n") {
        Response::Float(FloatRequest::AddFloat(wide, keys)) => {
            assert!(wide);
            assert_eq!(keys, vec!["a", "b"]);
        },
        _ => panic!("expected float add work"),
    }
}

#[test]
fn add_with_non_numeric_tag_is_silent() {
    let mut m = fresh();
    run(&mut m, b"SET bool a true\n");
    assert!(matches!(run(&mut m, b"ADD bool a\n"), Response::Nothing));
}

#[test]
fn string_value_with_invalid_utf8_is_decoded_lossily() {
    let mut m = fresh();
    let mut line = b"SET String a ".to_vec();
    line.push(0xFF);
    line.push(b'\n');
    let cmd = Command::from_vec(line).expect("the line must decode");
    process_command(&mut m, &cmd);
    assert_eq!(text(run(&mut m, b"GET String a\n")), "\u{FFFD}\n");
}
