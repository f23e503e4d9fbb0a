//! Eligibility: which dictionary lines qualify as candidates.
//!
//! A line qualifies exactly when it has the requested number of characters
//! and lowercasing leaves it unchanged. The second test stands in for
//! "exclude proper nouns and abbreviations": any line with an uppercase
//! letter is rejected.

use vstd::prelude::*;

verus! {

/// What `str::to_lowercase` returns for a string: Unicode lowercasing is a
/// function of the characters alone, so it is given a name here rather than
/// spelled out.
pub uninterp spec fn lower_of(s: Seq<char>) -> Seq<char>;

/// Relies on `str::to_lowercase`: the result depends only on the characters
/// of the input.
#[verifier::external_body]
fn to_lowercase(s: &str) -> (r: String)
    ensures
        r@ == lower_of(s@),
{
    s.to_lowercase()
}

/// A line is eligible when its character count is exactly `length` and
/// lowercasing leaves it unchanged.
pub open spec fn eligible(s: Seq<char>, length: int) -> bool {
    s.len() == length && lower_of(s) == s
}

/// Decides eligibility: true exactly when the line has `length` characters
/// and equals its own lowercase transform.
pub fn is_eligible(line: &str, length: u8) -> (r: bool)
    ensures
        r == eligible(line@, length as int),
{
    if line.unicode_len() != length as usize {
        return false;
    }
    let lowered = to_lowercase(line);
    let original: String = line.to_owned();
    lowered == original
}

} // verus!
