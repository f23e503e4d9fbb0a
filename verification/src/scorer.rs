//! Scoring: the sum of the weights of a word's *distinct* letters.
//!
//! Duplicate letters count once, because the score measures how many common
//! letters a guess covers, not a raw frequency sum. The score of a word is
//! therefore a function of its distinct-letter set alone.

use vstd::prelude::*;

use crate::weights::is_lower_letter;
use crate::weights::lemma_letter_weight_range;
use crate::weights::letter_weight;
use crate::weights::weight_of;

verus! {

/// The weight a letter contributes to a word: its full weight if the word
/// contains it anywhere, otherwise nothing.
pub open spec fn contribution(s: Seq<char>, c: char) -> int {
    if s.contains(c) {
        letter_weight(c)
    } else {
        0
    }
}

/// The score of a word, in hundredths: the sum, over the 26 lowercase
/// letters, of each letter's weight counted once if the word contains it.
pub open spec fn word_score(s: Seq<char>) -> int {
    contribution(s, 'a') + contribution(s, 'b') + contribution(s, 'c') + contribution(s, 'd')
        + contribution(s, 'e') + contribution(s, 'f') + contribution(s, 'g') + contribution(s, 'h')
        + contribution(s, 'i') + contribution(s, 'j') + contribution(s, 'k') + contribution(s, 'l')
        + contribution(s, 'm') + contribution(s, 'n') + contribution(s, 'o') + contribution(s, 'p')
        + contribution(s, 'q') + contribution(s, 'r') + contribution(s, 's') + contribution(s, 't')
        + contribution(s, 'u') + contribution(s, 'v') + contribution(s, 'w') + contribution(s, 'x')
        + contribution(s, 'y') + contribution(s, 'z')
}

/// True when every character of the word is a lowercase Latin letter, so
/// every character has a defined weight.
pub open spec fn all_lower_letters(s: Seq<char>) -> bool {
    forall|i: int| 0 <= i < s.len() ==> is_lower_letter(#[trigger] s[i])
}

/// Two words with the same distinct-letter set score identically; repeated
/// letters change nothing.
pub proof fn lemma_score_set_semantics(s1: Seq<char>, s2: Seq<char>)
    requires
        forall|c: char| s1.contains(c) == s2.contains(c),
    ensures
        word_score(s1) == word_score(s2),
{
}

/// Scoring is deterministic: the contract of `score_word` pins its result,
/// so any two outcomes that satisfy it for the same characters are equal —
/// scoring a word twice, in one process or in two, yields the same score.
pub proof fn lemma_score_determinism(s: Seq<char>, r1: Option<u32>, r2: Option<u32>)
    requires
        r1 is Some <==> all_lower_letters(s),
        r2 is Some <==> all_lower_letters(s),
        r1 is Some ==> r1->0 as int == word_score(s),
        r2 is Some ==> r2->0 as int == word_score(s),
    ensures
        r1 == r2,
{
}

/// Every score lies between 0.00 and 509.68 (the sum of all 26 weights), in
/// hundredths.
pub proof fn lemma_score_range(s: Seq<char>)
    ensures
        0 <= word_score(s) <= 50968,
{
}

/// A nonempty word made of letters scores at least the least letter weight,
/// 1.00 in hundredths.
pub proof fn lemma_score_lower_bound(s: Seq<char>)
    requires
        s.len() > 0,
        all_lower_letters(s),
    ensures
        word_score(s) >= 100,
{
    let c = s[0];
    assert(is_lower_letter(c));
    assert(s.contains(c));
    assert(forall|d: char| contribution(s, d) >= 0);
    lemma_letter_weight_range(c);
    if c == 'a' {
        assert(contribution(s, 'a') == contribution(s, c));
    } else if c == 'b' {
        assert(contribution(s, 'b') == contribution(s, c));
    } else if c == 'c' {
        assert(contribution(s, 'c') == contribution(s, c));
    } else if c == 'd' {
        assert(contribution(s, 'd') == contribution(s, c));
    } else if c == 'e' {
        assert(contribution(s, 'e') == contribution(s, c));
    } else if c == 'f' {
        assert(contribution(s, 'f') == contribution(s, c));
    } else if c == 'g' {
        assert(contribution(s, 'g') == contribution(s, c));
    } else if c == 'h' {
        assert(contribution(s, 'h') == contribution(s, c));
    } else if c == 'i' {
        assert(contribution(s, 'i') == contribution(s, c));
    } else if c == 'j' {
        assert(contribution(s, 'j') == contribution(s, c));
    } else if c == 'k' {
        assert(contribution(s, 'k') == contribution(s, c));
    } else if c == 'l' {
        assert(contribution(s, 'l') == contribution(s, c));
    } else if c == 'm' {
        assert(contribution(s, 'm') == contribution(s, c));
    } else if c == 'n' {
        assert(contribution(s, 'n') == contribution(s, c));
    } else if c == 'o' {
        assert(contribution(s, 'o') == contribution(s, c));
    } else if c == 'p' {
        assert(contribution(s, 'p') == contribution(s, c));
    } else if c == 'q' {
        assert(contribution(s, 'q') == contribution(s, c));
    } else if c == 'r' {
        assert(contribution(s, 'r') == contribution(s, c));
    } else if c == 's' {
        assert(contribution(s, 's') == contribution(s, c));
    } else if c == 't' {
        assert(contribution(s, 't') == contribution(s, c));
    } else if c == 'u' {
        assert(contribution(s, 'u') == contribution(s, c));
    } else if c == 'v' {
        assert(contribution(s, 'v') == contribution(s, c));
    } else if c == 'w' {
        assert(contribution(s, 'w') == contribution(s, c));
    } else if c == 'x' {
        assert(contribution(s, 'x') == contribution(s, c));
    } else if c == 'y' {
        assert(contribution(s, 'y') == contribution(s, c));
    } else if c == 'z' {
        assert(contribution(s, 'z') == contribution(s, c));
    } else {
        assert(letter_weight(c) == 0);
        assert(false);
    }
}

/// Whether the word contains the character `c` anywhere.
fn contains_char(word: &str, c: char) -> (r: bool)
    ensures
        r == word@.contains(c),
{
    let n = word.unicode_len();
    let mut i: usize = 0;
    while i < n
        invariant
            n == word@.len(),
            0 <= i <= n,
            forall|j: int| 0 <= j < i ==> word@[j] != c,
        decreases n - i,
    {
        if word.get_char(i) == c {
            proof {
                assert(word@.contains(c)) by { assert(word@[i as int] == c) };
            }
            return true;
        }
        i = i + 1;
    }
    false
}

/// One accumulation step: adds the letter's weight if the word contains it.
fn add_contribution(word: &str, total: u32, c: char, w: u32) -> (r: u32)
    requires
        w as int == letter_weight(c),
        w <= 5688,
        total <= 100000,
    ensures
        r as int == total as int + contribution(word@, c),
        r <= total + w,
{
    if contains_char(word, c) {
        total + w
    } else {
        total
    }
}

/// The accumulation pass: adds up, letter by letter over the alphabet, the
/// weight of each letter the word contains.
fn sum_distinct(word: &str) -> (total: u32)
    ensures
        total as int == word_score(word@),
{
    let mut total: u32 = 0;
    total = add_contribution(word, total, 'a', 4331);
    proof {
        assert(total <= 4331);
    }
    total = add_contribution(word, total, 'b', 1056);
    proof {
        assert(total <= 5387);
    }
    total = add_contribution(word, total, 'c', 2313);
    proof {
        assert(total <= 7700);
    }
    total = add_contribution(word, total, 'd', 1725);
    proof {
        assert(total <= 9425);
    }
    total = add_contribution(word, total, 'e', 5688);
    proof {
        assert(total <= 15113);
    }
    total = add_contribution(word, total, 'f', 924);
    proof {
        assert(total <= 16037);
    }
    total = add_contribution(word, total, 'g', 1259);
    proof {
        assert(total <= 17296);
    }
    total = add_contribution(word, total, 'h', 1531);
    proof {
        assert(total <= 18827);
    }
    total = add_contribution(word, total, 'i', 3845);
    proof {
        assert(total <= 22672);
    }
    total = add_contribution(word, total, 'j', 100);
    proof {
        assert(total <= 22772);
    }
    total = add_contribution(word, total, 'k', 561);
    proof {
        assert(total <= 23333);
    }
    total = add_contribution(word, total, 'l', 2798);
    proof {
        assert(total <= 26131);
    }
    total = add_contribution(word, total, 'm', 1536);
    proof {
        assert(total <= 27667);
    }
    total = add_contribution(word, total, 'n', 3392);
    proof {
        assert(total <= 31059);
    }
    total = add_contribution(word, total, 'o', 3651);
    proof {
        assert(total <= 34710);
    }
    total = add_contribution(word, total, 'p', 1614);
    proof {
        assert(total <= 36324);
    }
    total = add_contribution(word, total, 'q', 100);
    proof {
        assert(total <= 36424);
    }
    total = add_contribution(word, total, 'r', 3864);
    proof {
        assert(total <= 40288);
    }
    total = add_contribution(word, total, 's', 2923);
    proof {
        assert(total <= 43211);
    }
    total = add_contribution(word, total, 't', 3543);
    proof {
        assert(total <= 46754);
    }
    total = add_contribution(word, total, 'u', 1851);
    proof {
        assert(total <= 48605);
    }
    total = add_contribution(word, total, 'v', 513);
    proof {
        assert(total <= 49118);
    }
    total = add_contribution(word, total, 'w', 657);
    proof {
        assert(total <= 49775);
    }
    total = add_contribution(word, total, 'x', 148);
    proof {
        assert(total <= 49923);
    }
    total = add_contribution(word, total, 'y', 906);
    proof {
        assert(total <= 50829);
    }
    total = add_contribution(word, total, 'z', 139);
    proof {
        assert(total <= 50968);
    }
    total
}

/// Scores a word: the sum of the weights of its distinct letters, in
/// hundredths. Returns `None` exactly when some character has no weight,
/// i.e. falls outside `'a'..='z'`; no default weight is ever substituted.
pub fn score_word(word: &str) -> (r: Option<u32>)
    ensures
        r is Some <==> all_lower_letters(word@),
        r is Some ==> r->0 as int == word_score(word@),
{
    let n = word.unicode_len();
    let mut i: usize = 0;
    while i < n
        invariant
            n == word@.len(),
            0 <= i <= n,
            forall|j: int| 0 <= j < i ==> is_lower_letter(#[trigger] word@[j]),
        decreases n - i,
    {
        if weight_of(word.get_char(i)).is_none() {
            return None;
        }
        i = i + 1;
    }
    Some(sum_distinct(word))
}

} // verus!
