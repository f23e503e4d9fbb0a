//! The static letter-frequency table.
//!
//! Each lowercase Latin letter has a fixed positive weight reflecting its
//! relative frequency in English text. Weights carry two decimal digits and
//! are stored exactly as integer hundredths: `'e'` weighs 56.88, held as
//! 5688. The least common letters (`'j'`, `'q'`) weigh 1.00, held as 100.

use vstd::prelude::*;

verus! {

/// True for the 26 lowercase Latin letters `'a'` through `'z'`.
pub open spec fn is_lower_letter(c: char) -> bool {
    97 <= c as u32 && c as u32 <= 122
}

/// The frequency weight of a letter, in hundredths; 0 for any character
/// outside `'a'..='z'`.
pub open spec fn letter_weight(c: char) -> int {
    if c == 'e' {
        5688
    } else if c == 'a' {
        4331
    } else if c == 'r' {
        3864
    } else if c == 'i' {
        3845
    } else if c == 'o' {
        3651
    } else if c == 't' {
        3543
    } else if c == 'n' {
        3392
    } else if c == 's' {
        2923
    } else if c == 'l' {
        2798
    } else if c == 'c' {
        2313
    } else if c == 'u' {
        1851
    } else if c == 'd' {
        1725
    } else if c == 'p' {
        1614
    } else if c == 'm' {
        1536
    } else if c == 'h' {
        1531
    } else if c == 'g' {
        1259
    } else if c == 'b' {
        1056
    } else if c == 'f' {
        924
    } else if c == 'y' {
        906
    } else if c == 'w' {
        657
    } else if c == 'k' {
        561
    } else if c == 'v' {
        513
    } else if c == 'x' {
        148
    } else if c == 'z' {
        139
    } else if c == 'j' {
        100
    } else if c == 'q' {
        100
    } else {
        0
    }
}

/// Every letter's weight lies between 1.00 and 56.88 (in hundredths).
pub proof fn lemma_letter_weight_range(c: char)
    requires
        is_lower_letter(c),
    ensures
        100 <= letter_weight(c) <= 5688,
{
}

/// Looks a letter's weight up; `None` exactly for characters that have no
/// weight, i.e. anything outside `'a'..='z'`.
pub fn weight_of(c: char) -> (w: Option<u32>)
    ensures
        w is Some <==> is_lower_letter(c),
        w is Some ==> w->0 as int == letter_weight(c),
{
    match c {
        'e' => Some(5688),
        'a' => Some(4331),
        'r' => Some(3864),
        'i' => Some(3845),
        'o' => Some(3651),
        't' => Some(3543),
        'n' => Some(3392),
        's' => Some(2923),
        'l' => Some(2798),
        'c' => Some(2313),
        'u' => Some(1851),
        'd' => Some(1725),
        'p' => Some(1614),
        'm' => Some(1536),
        'h' => Some(1531),
        'g' => Some(1259),
        'b' => Some(1056),
        'f' => Some(924),
        'y' => Some(906),
        'w' => Some(657),
        'k' => Some(561),
        'v' => Some(513),
        'x' => Some(148),
        'z' => Some(139),
        'j' => Some(100),
        'q' => Some(100),
        _ => None,
    }
}

} // verus!
