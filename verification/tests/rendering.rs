use wordscore::rank::Candidate;
use wordscore::render::format_score;
use wordscore::render::render_all;
use wordscore::render::render_line;

#[test]
fn formats_scores_with_two_decimal_places() {
    assert_eq!(format_score(14431), "144.31");
    assert_eq!(format_score(12114), "121.14");
    assert_eq!(format_score(139), "1.39");
    assert_eq!(format_score(100), "1.00");
    assert_eq!(format_score(0), "0.00");
    assert_eq!(format_score(10000), "100.00");
    assert_eq!(format_score(50968), "509.68");
    assert_eq!(format_score(7), "0.07");
    assert_eq!(format_score(70), "0.70");
}

#[test]
fn renders_score_then_word() {
    let c = Candidate { word: "apple".to_string(), score: 14431 };
    assert_eq!(render_line(&c), "144.31: apple");
    let z = Candidate { word: "zzzzz".to_string(), score: 139 };
    assert_eq!(render_line(&z), "1.39: zzzzz");
}

#[test]
fn renders_every_candidate_in_order() {
    let cands = vec![
        Candidate { word: "apple".to_string(), score: 14431 },
        Candidate { word: "robot".to_string(), score: 12114 },
        Candidate { word: "zzzzz".to_string(), score: 139 },
    ];
    let lines = render_all(&cands);
    assert_eq!(lines, vec!["144.31: apple", "121.14: robot", "1.39: zzzzz"]);
}
