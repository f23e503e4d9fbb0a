//! The whole pass over a word source: filter, score, and rank.
//!
//! Lines come in as plain strings in source order. Eligible lines become
//! candidates, each scored once; the ranked result is sorted by score,
//! highest first, ties kept in source order. A word that passes the filter
//! but holds a character without a frequency weight is a malformed input:
//! the run fails loudly on the first such word rather than scoring it with
//! a substitute weight.

use vstd::prelude::*;

use crate::filter::eligible;
use crate::filter::is_eligible;
use crate::rank::Candidate;
use crate::rank::cand_view;
use crate::rank::cand_views;
use crate::rank::lemma_cand_views_push;
use crate::rank::lemma_filter_push;
use crate::rank::rank_candidates;
use crate::rank::score_group;
use crate::rank::sorted_desc;
use crate::scorer::all_lower_letters;
use crate::scorer::score_word;
use crate::scorer::word_score;

verus! {

/// The malformed-input failure: an eligible word held a character with no
/// frequency weight. The word is kept for the diagnostic.
#[derive(Debug)]
pub struct RankError {
    pub word: String,
}

/// A line that passes the filter yet cannot be scored: eligible, but with a
/// character outside `'a'..='z'`.
pub open spec fn bad_line(l: Seq<char>, length: int) -> bool {
    eligible(l, length) && !all_lower_letters(l)
}

/// Selects the lines eligible at the given length.
pub open spec fn eligible_pred(length: int) -> spec_fn(Seq<char>) -> bool {
    |l: Seq<char>| eligible(l, length)
}

/// The eligible lines, in source order.
pub open spec fn eligible_words(lines: Seq<Seq<char>>, length: int) -> Seq<Seq<char>> {
    lines.filter(eligible_pred(length))
}

/// Each word paired with its score, in order.
pub open spec fn scored_words(words: Seq<Seq<char>>) -> Seq<(Seq<char>, int)> {
    words.map_values(|w: Seq<char>| (w, word_score(w)))
}

/// Pairing with scores commutes with pushing a word.
proof fn lemma_scored_words_push(words: Seq<Seq<char>>, w: Seq<char>)
    ensures
        scored_words(words.push(w)) == scored_words(words).push((w, word_score(w))),
{
    assert(scored_words(words.push(w)) =~= scored_words(words).push((w, word_score(w))));
}

/// Walks the lines once, in order, keeping each eligible line as a scored
/// candidate. Succeeds exactly when no eligible line holds an unweighted
/// character; otherwise reports the first such line.
pub fn collect_candidates(lines: &Vec<String>, length: u8) -> (r: Result<Vec<Candidate>, RankError>)
    ensures
        match r {
            Ok(cands) => {
                &&& forall|j: int|
                    0 <= j < lines.deep_view().len() ==> !bad_line(
                        #[trigger] lines.deep_view()[j],
                        length as int,
                    )
                &&& cand_views(cands@) == scored_words(
                    eligible_words(lines.deep_view(), length as int),
                )
            },
            Err(e) => exists|i: int|
                {
                    &&& 0 <= i < lines.deep_view().len()
                    &&& bad_line(#[trigger] lines.deep_view()[i], length as int)
                    &&& e.word@ == lines.deep_view()[i]
                    &&& forall|j: int|
                        0 <= j < i ==> !bad_line(#[trigger] lines.deep_view()[j], length as int)
                },
        },
{
    let ghost ldv = lines.deep_view();
    let ghost len: int = length as int;
    let mut cands: Vec<Candidate> = Vec::new();
    let mut i: usize = 0;
    proof {
        assert(cand_views(cands@) =~= Seq::<(Seq<char>, int)>::empty());
        assert(eligible_words(ldv.take(0), len) =~= Seq::<Seq<char>>::empty());
        assert(scored_words(eligible_words(ldv.take(0), len)) =~= Seq::<(Seq<char>, int)>::empty());
    }
    while i < lines.len()
        invariant
            ldv == lines.deep_view(),
            len == length as int,
            ldv.len() == lines@.len(),
            0 <= i <= lines@.len(),
            forall|j: int| 0 <= j < i ==> !bad_line(#[trigger] ldv[j], len),
            cand_views(cands@) == scored_words(eligible_words(ldv.take(i as int), len)),
        decreases lines@.len() - i,
    {
        let line = &lines[i];
        proof {
            assert(ldv[i as int] == lines@[i as int]@);
        }
        let ghost prevc = cands@;
        let el = is_eligible(line.as_str(), length);
        if el {
            match score_word(line.as_str()) {
                Some(sc) => {
                    let word = line.clone();
                    cands.push(Candidate { word, score: sc });
                },
                None => {
                    let word = line.clone();
                    return Err(RankError { word });
                },
            }
        }
        proof {
            let lv = ldv[i as int];
            assert(ldv.take(i + 1) =~= ldv.take(i as int).push(lv));
            lemma_filter_push(ldv.take(i as int), lv, eligible_pred(len));
            if el {
                lemma_scored_words_push(eligible_words(ldv.take(i as int), len), lv);
                lemma_cand_views_push(prevc, cands@.last());
                assert(cands@ =~= prevc.push(cands@.last()));
                assert(cand_view(cands@.last()) == (lv, word_score(lv)));
            }
        }
        i = i + 1;
    }
    proof {
        assert(ldv.take(ldv.len() as int) =~= ldv);
    }
    Ok(cands)
}

/// The whole pipeline: filter, score, and rank the lines of a word source.
/// On success the result is sorted by score descending, keeps ties in
/// source order, and holds every eligible word exactly once, each with its
/// correct score. Fails exactly when some eligible line holds an unweighted
/// character, reporting the first such line.
pub fn rank_lines(lines: &Vec<String>, length: u8) -> (r: Result<Vec<Candidate>, RankError>)
    ensures
        match r {
            Ok(ranked) => {
                &&& forall|j: int|
                    0 <= j < lines.deep_view().len() ==> !bad_line(
                        #[trigger] lines.deep_view()[j],
                        length as int,
                    )
                &&& sorted_desc(ranked@)
                &&& forall|sc: int|
                    score_group(cand_views(ranked@), sc) == score_group(
                        scored_words(eligible_words(lines.deep_view(), length as int)),
                        sc,
                    )
                &&& cand_views(ranked@).to_multiset() == scored_words(
                    eligible_words(lines.deep_view(), length as int),
                ).to_multiset()
            },
            Err(e) => exists|i: int|
                {
                    &&& 0 <= i < lines.deep_view().len()
                    &&& bad_line(#[trigger] lines.deep_view()[i], length as int)
                    &&& e.word@ == lines.deep_view()[i]
                    &&& forall|j: int|
                        0 <= j < i ==> !bad_line(#[trigger] lines.deep_view()[j], length as int)
                },
        },
{
    match collect_candidates(lines, length) {
        Ok(cands) => Ok(rank_candidates(cands)),
        Err(e) => Err(e),
    }
}

} // verus!
