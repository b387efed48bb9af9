//! A Caesar cipher over the 128 ASCII codes, and two ways of recovering its key
//! from ciphertext alone: counting dictionary words, and comparing character
//! frequencies with those of English text.
//!
//! - [`cipher`]: the shift transform, and what holds of it.
//! - [`cracker`]: the two attacks, each a score for every one of the 128
//!   shifts and the choice of the best one.
//! - [`dictionary`]: the set of words that the dictionary attack looks for.
//! - [`frequency`]: character counts, relative frequencies as exact
//!   fractions, and their distance from a reference table.
//! - [`text`]: whitespace, words, and decimal numerals.
//! - [`english`]: the word list and the frequency table.
//! - [`std_specs`]: what is taken on trust of the standard library.
//!
//! The library computes on text that it is given, and returns text or
//! numbers. Files and standard streams are its caller's business.

pub mod cipher;
pub mod cracker;
pub mod dictionary;
pub mod english;
pub mod frequency;
pub mod std_specs;
pub mod text;
