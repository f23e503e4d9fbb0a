use wordscore::scorer::score_word;
use wordscore::weights::weight_of;

#[test]
fn weight_lookup_known_letters() {
    assert_eq!(weight_of('e'), Some(5688));
    assert_eq!(weight_of('a'), Some(4331));
    assert_eq!(weight_of('q'), Some(100));
    assert_eq!(weight_of('j'), Some(100));
    assert_eq!(weight_of('z'), Some(139));
}

#[test]
fn weight_lookup_rejects_unweighted_characters() {
    assert_eq!(weight_of('E'), None);
    assert_eq!(weight_of('-'), None);
    assert_eq!(weight_of('é'), None);
    assert_eq!(weight_of(' '), None);
}

#[test]
fn score_exact_values() {
    // apple: distinct letters a, p, l, e -> 43.31 + 16.14 + 27.98 + 56.88
    assert_eq!(score_word("apple"), Some(14431));
    // robot: distinct letters r, o, b, t -> 38.64 + 36.51 + 10.56 + 35.43
    assert_eq!(score_word("robot"), Some(12114));
    // zzzzz: the single distinct letter z -> 1.39
    assert_eq!(score_word("zzzzz"), Some(139));
}

#[test]
fn score_counts_repeated_letters_once() {
    // sheer and heres share the distinct-letter set {s, h, e, r}; the
    // doubled e must not be rewarded twice.
    let sheer = score_word("sheer");
    let heres = score_word("heres");
    assert_eq!(sheer, Some(14006));
    assert_eq!(sheer, heres);
}

#[test]
fn score_is_deterministic_across_calls() {
    let first = score_word("ratio");
    let second = score_word("ratio");
    assert_eq!(first, second);
    assert!(first.is_some());
}

#[test]
fn score_rejects_unweighted_characters() {
    assert_eq!(score_word("ab-de"), None);
    assert_eq!(score_word("héllo"), None);
    assert_eq!(score_word("Apple"), None);
}

#[test]
fn score_of_empty_word_is_zero() {
    assert_eq!(score_word(""), Some(0));
}
