use smirk::trie::Trie;

#[test]
fn prefix_continuations_after_two_inserts() {
    let mut t = Trie::default();
    t.insert(&String::from("cat"));
    t.insert(&String::from("car"));
    let conts = t.get_keys_with_prefix("ca");
    assert_eq!(conts, vec![String::from("t"), String::from("r")]);
}

#[test]
fn removed_key_no_longer_contributes_a_continuation() {
    let mut t = Trie::default();
    t.insert(&String::from("cat"));
    t.insert(&String::from("car"));
    t.remove(&String::from("cat"));
    let conts = t.get_keys_with_prefix("ca");
    assert_eq!(conts, vec![String::from("r")]);
}

#[test]
fn shared_continuation_survives_one_removal() {
    let mut t = Trie::default();
    t.insert(&String::from("cat"));
    t.insert(&String::from("cattle"));
    t.remove(&String::from("cat"));
    // "cattle" still passes through the 't' node.
    let conts = t.get_keys_with_prefix("ca");
    assert_eq!(conts, vec![String::from("t")]);
}

#[test]
fn absent_prefix_yields_nothing() {
    let mut t = Trie::default();
    t.insert(&String::from("cat"));
    assert!(t.get_keys_with_prefix("dog").is_empty());
    assert!(t.get_keys_with_prefix("catx").is_empty());
}

#[test]
fn remove_of_unknown_path_is_harmless() {
    let mut t = Trie::default();
    t.insert(&String::from("cat"));
    t.remove(&String::from("zebra"));
    assert_eq!(t.get_keys_with_prefix("ca"), vec![String::from("t")]);
}

#[test]
fn empty_prefix_lists_first_characters() {
    let mut t = Trie::default();
    t.insert(&String::from("alpha"));
    t.insert(&String::from("beta"));
    assert_eq!(t.get_keys_with_prefix(""), vec![String::from("a"), String::from("b")]);
}
