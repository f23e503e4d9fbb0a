//! Rendering: each ranked candidate as one output line, `"<score>: <word>"`.
//!
//! A score is held in hundredths and rendered in fixed decimal form with
//! exactly two fractional digits: 14431 becomes `144.31`, 100 becomes
//! `1.00`. The rendering is fully specified, so equal scores always print
//! identically.

use vstd::prelude::*;

use crate::rank::Candidate;

verus! {

/// The character for one decimal digit.
pub open spec fn digit_char(d: int) -> char {
    if d == 0 {
        '0'
    } else if d == 1 {
        '1'
    } else if d == 2 {
        '2'
    } else if d == 3 {
        '3'
    } else if d == 4 {
        '4'
    } else if d == 5 {
        '5'
    } else if d == 6 {
        '6'
    } else if d == 7 {
        '7'
    } else if d == 8 {
        '8'
    } else {
        '9'
    }
}

/// The decimal digits of a nonnegative number, most significant first, no
/// leading zeros (a single `'0'` for zero).
pub open spec fn dec_digits(n: int) -> Seq<char>
    decreases n,
{
    if n < 10 {
        seq![digit_char(n)]
    } else {
        dec_digits(n / 10).push(digit_char(n % 10))
    }
}

/// A score in hundredths rendered as fixed two-place decimal text:
/// the whole part, a point, then exactly two fractional digits.
pub open spec fn score_text(n: int) -> Seq<char> {
    dec_digits(n / 100) + seq!['.', digit_char((n / 10) % 10), digit_char(n % 10)]
}

/// One output line: the score, a colon and a space, then the word.
pub open spec fn line_text(w: Seq<char>, n: int) -> Seq<char> {
    score_text(n) + seq![':', ' '] + w
}

/// The one-character string for a decimal digit.
fn digit_str(d: u32) -> (r: &'static str)
    requires
        d < 10,
    ensures
        r@ == seq![digit_char(d as int)],
{
    proof {
        reveal_strlit("0");
        reveal_strlit("1");
        reveal_strlit("2");
        reveal_strlit("3");
        reveal_strlit("4");
        reveal_strlit("5");
        reveal_strlit("6");
        reveal_strlit("7");
        reveal_strlit("8");
        reveal_strlit("9");
    }
    match d {
        0 => "0",
        1 => "1",
        2 => "2",
        3 => "3",
        4 => "4",
        5 => "5",
        6 => "6",
        7 => "7",
        8 => "8",
        _ => "9",
    }
}

/// The decimal digits of a number, most significant first.
fn format_number(n: u32) -> (r: String)
    ensures
        r@ == dec_digits(n as int),
    decreases n,
{
    if n < 10 {
        String::from_str(digit_str(n))
    } else {
        let mut s = format_number(n / 10);
        s.append(digit_str(n % 10));
        s
    }
}

/// Renders a score held in hundredths as fixed two-place decimal text.
pub fn format_score(score: u32) -> (r: String)
    ensures
        r@ == score_text(score as int),
{
    proof {
        reveal_strlit(".");
    }
    let mut s = format_number(score / 100);
    s.append(".");
    s.append(digit_str((score / 10) % 10));
    s.append(digit_str(score % 10));
    s
}

/// Renders one ranked candidate as its output line, `"<score>: <word>"`.
pub fn render_line(c: &Candidate) -> (r: String)
    ensures
        r@ == line_text(c.word@, c.score as int),
{
    proof {
        reveal_strlit(": ");
    }
    let mut s = format_score(c.score);
    s.append(": ");
    s.append(c.word.as_str());
    s
}

/// Renders every candidate, in order, one line per candidate.
pub fn render_all(cands: &Vec<Candidate>) -> (r: Vec<String>)
    ensures
        r@.len() == cands@.len(),
        forall|i: int|
            0 <= i < cands@.len() ==> r@[i]@ == line_text(cands@[i].word@, cands@[i].score as int),
{
    let mut out: Vec<String> = Vec::new();
    let mut i: usize = 0;
    while i < cands.len()
        invariant
            0 <= i <= cands@.len(),
            out@.len() == i,
            forall|j: int|
                0 <= j < i ==> out@[j]@ == line_text(cands@[j].word@, cands@[j].score as int),
        decreases cands@.len() - i,
    {
        out.push(render_line(&cands[i]));
        i = i + 1;
    }
    out
}

} // verus!
