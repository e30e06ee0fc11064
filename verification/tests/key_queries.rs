use smirk::command::Command;
use smirk::dispatch::{process_command, Response};
use smirk::smirk_map::SmirkMap;
use smirk::smirk_search_mode::SmirkSearchMode;

fn run(m: &mut SmirkMap, line: &[u8]) -> Response {
    let cmd = Command::from_vec(line.to_vec()).expect("the line must decode");
    process_command(m, &cmd)
}

fn text(r: Response) -> String {
    match r {
        Response::Text(s) => s,
        _ => panic!("expected a text response"),
    }
}

fn seeded(mode: SmirkSearchMode) -> SmirkMap {
    let mut m = SmirkMap::new(mode);
    run(&mut m, b"SET i8 a1 1\n");
    run(&mut m, b"SET i8 a2 2\n");
    run(&mut m, b"SET i8 b1 3\n");
    m
}

#[test]
fn glob_keys_returns_exactly_the_prefixed_keys() {
    let mut m = seeded(SmirkSearchMode::Glob);
    assert_eq!(text(run(&mut m, b"KEYS a*\n")), "a1\na2\n");
}

#[test]
fn regex_keys_returns_the_same_set() {
    let mut m = seeded(SmirkSearchMode::Regex);
    assert_eq!(text(run(&mut m, b"KEYS ^a.*$\n")), "a1\na2\n");
}

#[test]
fn keys_without_matches_says_so() {
    let mut m = seeded(SmirkSearchMode::Glob);
    assert_eq!(
        text(run(&mut m, b"KEYS z*\n")),
        "No matches for key query \"z*\" were found.\n"
    );
}

#[test]
fn invalid_glob_pattern_is_a_request_scoped_failure() {
    let mut m = seeded(SmirkSearchMode::Glob);
    assert_eq!(text(run(&mut m, b"KEYS a**b\n")), "Invalid pattern \"a**b\".\n");
    // The store still answers afterwards.
    assert_eq!(text(run(&mut m, b"KEYS a*\n")), "a1\na2\n");
}

#[test]
fn invalid_regex_pattern_is_a_request_scoped_failure() {
    let mut m = seeded(SmirkSearchMode::Regex);
    assert_eq!(text(run(&mut m, b"KEYS ([\n")), "Invalid pattern \"([\".\n");
}

#[test]
fn deleted_keys_leave_the_match_list() {
    let mut m = seeded(SmirkSearchMode::Glob);
    run(&mut m, b"DEL a1\n");
    assert_eq!(text(run(&mut m, b"KEYS a*\n")), "a2\n");
}

#[test]
fn trie_mode_lists_continuations_one_per_line() {
    let mut m = SmirkMap::new(SmirkSearchMode::Trie);
    run(&mut m, b"SET i8 cat 1\n");
    run(&mut m, b"SET i8 car 2\n");
    assert_eq!(text(run(&mut m, b"KEYS ca\n")), "t\nr\n");
    run(&mut m, b"DEL cat\n");
    assert_eq!(text(run(&mut m, b"KEYS ca\n")), "r\n");
}
