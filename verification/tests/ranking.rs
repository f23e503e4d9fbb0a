use wordscore::pipeline::collect_candidates;
use wordscore::pipeline::rank_lines;
use wordscore::rank::Candidate;
use wordscore::rank::rank_candidates;

fn cand(word: &str, score: u32) -> Candidate {
    Candidate { word: word.to_string(), score }
}

#[test]
fn sorts_by_score_descending() {
    let input = vec![cand("low", 10), cand("high", 300), cand("mid", 200)];
    let ranked = rank_candidates(input);
    let words: Vec<&str> = ranked.iter().map(|c| c.word.as_str()).collect();
    assert_eq!(words, vec!["high", "mid", "low"]);
    for pair in ranked.windows(2) {
        assert!(pair[0].score >= pair[1].score);
    }
}

#[test]
fn equal_scores_keep_input_order() {
    let input = vec![
        cand("first", 300),
        cand("second", 500),
        cand("third", 300),
        cand("fourth", 300),
    ];
    let ranked = rank_candidates(input);
    let words: Vec<&str> = ranked.iter().map(|c| c.word.as_str()).collect();
    assert_eq!(words, vec!["second", "first", "third", "fourth"]);
}

#[test]
fn ranking_keeps_every_candidate_exactly_once() {
    let input = vec![cand("a", 1), cand("b", 2), cand("a", 1), cand("c", 3)];
    let ranked = rank_candidates(input);
    assert_eq!(ranked.len(), 4);
    let words: Vec<&str> = ranked.iter().map(|c| c.word.as_str()).collect();
    assert_eq!(words, vec!["c", "b", "a", "a"]);
}

#[test]
fn ranking_nothing_yields_nothing() {
    let ranked = rank_candidates(Vec::new());
    assert!(ranked.is_empty());
}

#[test]
fn collects_only_eligible_lines_in_order() {
    let lines = vec![
        "apple".to_string(),
        "tree".to_string(),
        "Mango".to_string(),
        "robot".to_string(),
    ];
    let cands = collect_candidates(&lines, 5).unwrap();
    assert_eq!(cands.len(), 2);
    assert_eq!(cands[0].word, "apple");
    assert_eq!(cands[0].score, 14431);
    assert_eq!(cands[1].word, "robot");
    assert_eq!(cands[1].score, 12114);
}

#[test]
fn reports_the_first_unweighted_word() {
    let lines = vec![
        "apple".to_string(),
        "ab-de".to_string(),
        "cd-ef".to_string(),
    ];
    let err = collect_candidates(&lines, 5).unwrap_err();
    assert_eq!(err.word, "ab-de");
    assert!(rank_lines(&lines, 5).is_err());
}

#[test]
fn ranks_a_word_source_end_to_end() {
    let lines = vec![
        "apple".to_string(),
        "zzzzz".to_string(),
        "Mango".to_string(),
        "robot".to_string(),
    ];
    let ranked = rank_lines(&lines, 5).unwrap();
    let words: Vec<&str> = ranked.iter().map(|c| c.word.as_str()).collect();
    assert_eq!(words, vec!["apple", "robot", "zzzzz"]);
    let scores: Vec<u32> = ranked.iter().map(|c| c.score).collect();
    assert_eq!(scores, vec![14431, 12114, 139]);
}

#[test]
fn duplicate_eligible_lines_each_appear_in_rank() {
    // jq and qj tie exactly: both score 1.00 + 1.00.
    let lines = vec!["jq".to_string(), "qj".to_string(), "jq".to_string()];
    let ranked = rank_lines(&lines, 2).unwrap();
    let words: Vec<&str> = ranked.iter().map(|c| c.word.as_str()).collect();
    assert_eq!(words, vec!["jq", "qj", "jq"]);
    assert!(ranked.iter().all(|c| c.score == 200));
}
