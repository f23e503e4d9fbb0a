//! Ranks candidate words for a word-guessing game by how informative each is
//! as an opening guess.
//!
//! A word's score is the sum of the frequency weights of its *distinct*
//! letters; a repeated letter counts once. Words are eligible only if they
//! have exactly the requested number of characters and are unchanged by
//! lowercasing. Eligible words are ranked by score, highest first, ties kept
//! in input order.
//!
//! Weights carry two decimal digits and are held exactly as integer
//! hundredths, so scores are exact and reproducible across runs and machines.

pub mod filter;
pub mod pipeline;
pub mod rank;
pub mod render;
pub mod scorer;
pub mod weights;
