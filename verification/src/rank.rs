//! Ranking: a stable, descending sort of candidates by score.
//!
//! The ordering contract is exact: the result is sorted with scores
//! non-increasing, holds the same words with the same multiplicities as the
//! input, and within any one score keeps the words in their input order
//! (stability). Because scores are exact integers, ties are genuine ties and
//! never reordered.

use vstd::prelude::*;

verus! {

broadcast use vstd::seq_lib::group_to_multiset_ensures;

/// An eligible word paired with its score, in hundredths.
#[derive(Debug)]
pub struct Candidate {
    pub word: String,
    pub score: u32,
}

/// The mathematical content of a candidate: its characters and its score.
pub open spec fn cand_view(c: Candidate) -> (Seq<char>, int) {
    (c.word@, c.score as int)
}

/// The mathematical content of a candidate list, in order.
pub open spec fn cand_views(s: Seq<Candidate>) -> Seq<(Seq<char>, int)> {
    s.map_values(|c: Candidate| cand_view(c))
}

/// Selects the word/score pairs whose score is `sc`.
pub open spec fn with_score(sc: int) -> spec_fn((Seq<char>, int)) -> bool {
    |p: (Seq<char>, int)| p.1 == sc
}

/// The subsequence of pairs scoring exactly `sc`, in their original order.
pub open spec fn score_group(s: Seq<(Seq<char>, int)>, sc: int) -> Seq<(Seq<char>, int)> {
    s.filter(with_score(sc))
}

/// Scores never increase from the first entry to the last.
pub open spec fn sorted_desc(s: Seq<Candidate>) -> bool {
    forall|i: int, j: int| 0 <= i < j < s.len() ==> s[i].score >= s[j].score
}

/// Filtering a sequence none of whose elements satisfy the predicate gives
/// the empty sequence.
proof fn lemma_filter_all_false<A>(s: Seq<A>, pred: spec_fn(A) -> bool)
    requires
        forall|i: int| 0 <= i < s.len() ==> !pred(#[trigger] s[i]),
    ensures
        s.filter(pred) == Seq::<A>::empty(),
    decreases s.len(),
{
    reveal(Seq::filter);
    if s.len() > 0 {
        lemma_filter_all_false(s.drop_last(), pred);
    }
}

/// Filtering past a pushed element keeps it last exactly when it matches.
pub(crate) proof fn lemma_filter_push<A>(s: Seq<A>, x: A, pred: spec_fn(A) -> bool)
    ensures
        s.push(x).filter(pred) == if pred(x) {
            s.filter(pred).push(x)
        } else {
            s.filter(pred)
        },
{
    reveal(Seq::filter);
    assert(s.push(x).drop_last() =~= s);
    assert(s.push(x).last() == x);
}

/// Taking views commutes with pushing a candidate.
pub(crate) proof fn lemma_cand_views_push(s: Seq<Candidate>, c: Candidate)
    ensures
        cand_views(s.push(c)) == cand_views(s).push(cand_view(c)),
{
    assert(cand_views(s.push(c)) =~= cand_views(s).push(cand_view(c)));
}

/// Taking views commutes with inserting a candidate.
proof fn lemma_cand_views_insert(s: Seq<Candidate>, i: int, c: Candidate)
    requires
        0 <= i <= s.len(),
    ensures
        cand_views(s.insert(i, c)) == cand_views(s).insert(i, cand_view(c)),
{
    s.insert_ensures(i, c);
    cand_views(s).insert_ensures(i, cand_view(c));
    assert(cand_views(s.insert(i, c)) =~= cand_views(s).insert(i, cand_view(c)));
}

/// Where a new candidate belongs: just past every strictly higher score, so
/// it follows any earlier candidate with the same score.
fn insert_position(out: &Vec<Candidate>, score: u32) -> (p: usize)
    requires
        sorted_desc(out@),
    ensures
        p <= out@.len(),
        forall|k: int| 0 <= k < p ==> out@[k].score >= score,
        p < out@.len() ==> out@[p as int].score < score,
{
    let mut p: usize = 0;
    while p < out.len() && out[p].score >= score
        invariant
            0 <= p <= out@.len(),
            forall|k: int| 0 <= k < p ==> out@[k].score >= score,
        decreases out@.len() - p,
    {
        p = p + 1;
    }
    p
}

/// Inserts one candidate into an already sorted list, after every candidate
/// with the same or a higher score. For every score the group of that score
/// ends up as if the candidate had simply been appended: stability.
fn insert_candidate(out: &mut Vec<Candidate>, c: Candidate)
    requires
        sorted_desc(old(out)@),
    ensures
        sorted_desc(final(out)@),
        forall|sc: int|
            score_group(cand_views(final(out)@), sc) == score_group(
                cand_views(old(out)@.push(c)),
                sc,
            ),
        cand_views(final(out)@).to_multiset() == cand_views(old(out)@.push(c)).to_multiset(),
{
    let ghost prev = out@;
    let p = insert_position(out, c.score);
    let ghost pi: int = p as int;
    out.insert(p, c);
    proof {
        let pc = cand_view(c);
        prev.insert_ensures(pi, c);
        assert(sorted_desc(out@));
        lemma_cand_views_insert(prev, pi, c);
        lemma_cand_views_push(prev, c);
        let views = cand_views(prev);
        let head = views.subrange(0, pi);
        let tail = views.subrange(pi, views.len() as int);
        assert(views.insert(pi, pc) == head.push(pc) + tail);
        assert(views =~= head + tail);
        assert(views.push(pc) =~= (head + tail).push(pc));
        assert forall|sc: int|
            score_group(views.insert(pi, pc), sc) == score_group(views.push(pc), sc) by {
            let pred = with_score(sc);
            Seq::filter_distributes_over_add(head.push(pc), tail, pred);
            Seq::filter_distributes_over_add(head, tail, pred);
            lemma_filter_push(head, pc, pred);
            lemma_filter_push(head + tail, pc, pred);
            if sc == c.score as int {
                assert(forall|k: int| 0 <= k < tail.len() ==> !pred(#[trigger] tail[k]));
                lemma_filter_all_false(tail, pred);
                assert(tail.filter(pred) == Seq::<(Seq<char>, int)>::empty());
                assert(head.push(pc).filter(pred) + tail.filter(pred) =~= head.push(pc).filter(
                    pred,
                ));
                assert((head + tail).push(pc).filter(pred) =~= head.filter(pred) + tail.filter(
                    pred,
                ).push(pc));
                assert(head.push(pc).filter(pred) =~= head.filter(pred).push(pc));
                assert(head.filter(pred) + tail.filter(pred).push(pc) =~= head.filter(pred).push(
                    pc,
                ));
            } else {
                assert(!pred(pc));
            }
        }
        assert(views.insert(pi, pc).to_multiset() == views.to_multiset().insert(pc));
        assert(views.push(pc).to_multiset() == views.to_multiset().insert(pc));
    }
}

/// Sorts candidates by score, highest first; candidates with equal scores
/// keep their input order, and every candidate appears exactly once.
pub fn rank_candidates(input: Vec<Candidate>) -> (r: Vec<Candidate>)
    ensures
        sorted_desc(r@),
        forall|sc: int|
            score_group(cand_views(r@), sc) == score_group(cand_views(input@), sc),
        cand_views(r@).to_multiset() == cand_views(input@).to_multiset(),
{
    let ghost orig = input@;
    let mut rest = input;
    let mut out: Vec<Candidate> = Vec::new();
    proof {
        assert(orig.skip(0) =~= orig);
        assert(cand_views(out@) =~= Seq::<(Seq<char>, int)>::empty());
        assert(cand_views(orig.take(0)) =~= Seq::<(Seq<char>, int)>::empty());
    }
    while rest.len() > 0
        invariant
            rest@.len() <= orig.len(),
            rest@ == orig.skip(orig.len() - rest@.len()),
            sorted_desc(out@),
            forall|sc: int|
                score_group(cand_views(out@), sc) == score_group(
                    cand_views(orig.take(orig.len() - rest@.len())),
                    sc,
                ),
            cand_views(out@).to_multiset() == cand_views(
                orig.take(orig.len() - rest@.len()),
            ).to_multiset(),
        decreases rest@.len(),
    {
        let ghost k: int = orig.len() - rest@.len();
        let ghost prevrest = rest@;
        let c = rest.remove(0);
        proof {
            assert(prevrest == orig.skip(k));
            prevrest.remove_ensures(0);
            assert(c == prevrest[0]);
            assert(prevrest[0] == orig.skip(k)[0]);
            assert(orig.skip(k)[0] == orig[k]);
            assert forall|i: int| 0 <= i < rest@.len() implies rest@[i] == orig.skip(k + 1)[i] by {
                assert(rest@[i] == prevrest[i + 1]);
                assert(prevrest[i + 1] == orig.skip(k)[i + 1]);
                assert(orig.skip(k)[i + 1] == orig[k + 1 + i]);
                assert(orig.skip(k + 1)[i] == orig[k + 1 + i]);
            }
            assert(rest@ =~= orig.skip(k + 1));
            assert(orig.take(k + 1) =~= orig.take(k).push(c));
        }
        let ghost prevout = out@;
        insert_candidate(&mut out, c);
        proof {
            let pc = cand_view(c);
            let done = orig.take(k);
            lemma_cand_views_push(prevout, c);
            lemma_cand_views_push(done, c);
            assert forall|sc: int|
                score_group(cand_views(out@), sc) == score_group(
                    cand_views(orig.take(k + 1)),
                    sc,
                ) by {
                let pred = with_score(sc);
                lemma_filter_push(cand_views(prevout), pc, pred);
                lemma_filter_push(cand_views(done), pc, pred);
                assert(score_group(cand_views(prevout), sc) == score_group(cand_views(done), sc));
                assert(score_group(cand_views(out@), sc) == score_group(
                    cand_views(prevout.push(c)),
                    sc,
                ));
            }
            assert(cand_views(prevout).to_multiset() == cand_views(done).to_multiset());
            assert(cand_views(prevout.push(c)).to_multiset() == cand_views(
                prevout,
            ).to_multiset().insert(pc));
            assert(cand_views(done.push(c)).to_multiset() == cand_views(
                done,
            ).to_multiset().insert(pc));
            assert(cand_views(out@).to_multiset() == cand_views(orig.take(k + 1)).to_multiset());
        }
    }
    proof {
        assert(orig.take(orig.len() - 0) =~= orig);
    }
    out
}

} // verus!
