use smirk::command::Command;
use smirk::command_error::CommandError;
use smirk::smirk_search_mode::SmirkSearchMode;

#[test]
fn set_line_keeps_value_spaces() {
    match Command::from_vec(b"SET String greeting hello there world\n".to_vec()) {
        Ok(Command::SetValue(t, k, v)) => {
            assert_eq!(t, "String");
            assert_eq!(k, "greeting");
            assert_eq!(v, b"hello there world".to_vec());
        },
        _ => panic!("expected a set command"),
    }
}

#[test]
fn command_word_is_case_insensitive() {
    assert!(matches!(Command::from_vec(b"get i8 a\n".to_vec()), Ok(Command::Get(_, _))));
    assert!(matches!(Command::from_vec(b"QuIt\n".to_vec()), Ok(Command::Quit)));
}

#[test]
fn get_requires_exactly_two_arguments() {
    assert!(matches!(
        Command::from_vec(b"GET i8\n".to_vec()),
        Err(CommandError::ArgumentMismatch)
    ));
    assert!(matches!(
        Command::from_vec(b"GET i8 a b\n".to_vec()),
        Err(CommandError::ArgumentMismatch)
    ));
}

#[test]
fn del_takes_one_or_more_keys() {
    match Command::from_vec(b"DEL a b c\n".to_vec()) {
        Ok(Command::Del(ks)) => assert_eq!(ks, vec!["a", "b", "c"]),
        _ => panic!("expected a del command"),
    }
    assert!(matches!(Command::from_vec(b"DEL\n".to_vec()), Err(CommandError::ArgumentMismatch)));
}

#[test]
fn mode_accepts_glob_and_regex_only() {
    assert!(matches!(
        Command::from_vec(b"MODE GLOB\n".to_vec()),
        Ok(Command::Mode(SmirkSearchMode::Glob))
    ));
    assert!(matches!(
        Command::from_vec(b"MODE regex\n".to_vec()),
        Ok(Command::Mode(SmirkSearchMode::Regex))
    ));
    assert!(matches!(
        Command::from_vec(b"MODE TRIE\n".to_vec()),
        Err(CommandError::NoValidModeSpecified)
    ));
}

#[test]
fn mode_works_with_crlf_line_ending() {
    assert!(matches!(
        Command::from_vec(b"MODE GLOB\r\n".to_vec()),
        Ok(Command::Mode(SmirkSearchMode::Glob))
    ));
}

#[test]
fn ttl_query_and_set_forms() {
    match Command::from_vec(b"TTL a\n".to_vec()) {
        Ok(Command::TtlGet(k)) => assert_eq!(k, "a"),
        _ => panic!("expected a ttl query"),
    }
    match Command::from_vec(b"TTL a 30\n".to_vec()) {
        Ok(Command::TtlSet(k, secs)) => {
            assert_eq!(k, "a");
            assert_eq!(secs, Some(30));
        },
        _ => panic!("expected a ttl set"),
    }
    assert!(matches!(
        Command::from_vec(b"TTL a soon\n".to_vec()),
        Err(CommandError::InvalidTtlSpecified)
    ));
    assert!(matches!(
        Command::from_vec(b"TTL a 1 2\n".to_vec()),
        Err(CommandError::ArgumentMismatch)
    ));
}

#[test]
fn delttl_clears_the_ttl() {
    match Command::from_vec(b"DELTTL a\n".to_vec()) {
        Ok(Command::TtlSet(k, secs)) => {
            assert_eq!(k, "a");
            assert_eq!(secs, None);
        },
        _ => panic!("expected a ttl clear"),
    }
}

#[test]
fn exists_type_keys_take_one_argument() {
    assert!(matches!(Command::from_vec(b"EXISTS a\n".to_vec()), Ok(Command::Exists(_))));
    assert!(matches!(Command::from_vec(b"TYPE a\n".to_vec()), Ok(Command::Type(_))));
    assert!(matches!(Command::from_vec(b"KEYS a*\n".to_vec()), Ok(Command::Keys(_))));
    assert!(matches!(
        Command::from_vec(b"EXISTS\n".to_vec()),
        Err(CommandError::ArgumentMismatch)
    ));
}

#[test]
fn add_takes_a_tag_and_keys() {
    match Command::from_vec(b"ADD i64 a b\n".to_vec()) {
        Ok(Command::Add(t, ks)) => {
            assert_eq!(t, "i64");
            assert_eq!(ks, vec!["a", "b"]);
        },
        _ => panic!("expected an add command"),
    }
    assert!(matches!(
        Command::from_vec(b"ADD i64\n".to_vec()),
        Err(CommandError::ArgumentMismatch)
    ));
}

#[test]
fn unknown_words_are_rejected() {
    assert!(matches!(Command::from_vec(b"FROB a\n".to_vec()), Err(CommandError::Unknown)));
    assert!(matches!(Command::from_vec(b"\n".to_vec()), Err(CommandError::Unknown)));
}

#[test]
fn save_is_recognized() {
    assert!(matches!(Command::from_vec(b"SAVE\n".to_vec()), Ok(Command::Save)));
}
