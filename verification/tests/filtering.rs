use wordscore::filter::is_eligible;

#[test]
fn accepts_lowercase_words_of_the_target_length() {
    assert!(is_eligible("apple", 5));
    assert!(is_eligible("robot", 5));
    assert!(is_eligible("zzzzz", 5));
    assert!(is_eligible("mango", 5));
}

#[test]
fn rejects_words_with_uppercase_letters() {
    // If lowercasing were a no-op these would slip through.
    assert!(!is_eligible("Mango", 5));
    assert!(!is_eligible("APPLE", 5));
    assert!(!is_eligible("appLe", 5));
}

#[test]
fn rejects_words_of_other_lengths() {
    assert!(!is_eligible("apples", 5));
    assert!(!is_eligible("tree", 5));
    assert!(!is_eligible("", 5));
    assert!(is_eligible("tree", 4));
}

#[test]
fn length_is_counted_in_characters_not_bytes() {
    // Five characters, six bytes in UTF-8.
    assert!(is_eligible("héllo", 5));
    assert!(!is_eligible("héllo", 6));
}

#[test]
fn accepts_caseless_characters_as_lowercase() {
    // A hyphen is unchanged by lowercasing, so the filter lets it pass;
    // scoring rejects it later.
    assert!(is_eligible("ab-de", 5));
}

#[test]
fn empty_line_is_eligible_only_at_length_zero() {
    assert!(is_eligible("", 0));
}
