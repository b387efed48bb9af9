//! Recovering the shift of a Caesar cipher from ciphertext alone. Every one
//! of the 128 shifts is tried; each candidate plaintext gets a score, and the
//! shift with the best score is the answer.

use crate::cipher::{
    lemma_shift_keeps_ascii, lemma_shifted_text_push, shifted_char, shifted_text, CaesarCipher,
    ASCII_ALPHABET_LEN,
};
use crate::dictionary::{listed_words, load_dictionary, Dictionary};
use crate::english::POPULAR_ENGLISH_WORDS;
use crate::frequency::{
    ascii_count, deviation, english_frequencies, get_freq_distribution, histogram_of,
    lemma_ascii_count_push, lemma_histogram_sum, lemma_sum_at_least, scaled_deviation, whole_of,
    CharCounter, FrequencyTable,
};
use crate::text::{
    decimal, decimal_string, is_whitespace, is_whitespace_char, lemma_words_push_whitespace,
    lemma_words_push_word, words,
};
use vstd::prelude::*;
use vstd::string::{StrSliceExecFns, StringExecFns};

verus! {

/// How many of the words `ws` are in `known`; a word that occurs twice counts
/// twice.
pub open spec fn count_known(ws: Seq<Seq<char>>, known: Set<Seq<char>>) -> nat {
    ws.filter(|w: Seq<char>| known.contains(w)).len()
}

/// One more word raises the count by one if it is known, and not otherwise.
proof fn lemma_count_known_push(ws: Seq<Seq<char>>, w: Seq<char>, known: Set<Seq<char>>)
    ensures
        count_known(ws.push(w), known) == count_known(ws, known) + if known.contains(w) {
            1nat
        } else {
            0nat
        },
{
    reveal(Seq::filter);
    assert(ws.push(w).drop_last() == ws);
}

/// The number of words of `text` that are in the dictionary.
pub fn count_known_words(text: &str, dictionary: &Dictionary) -> (count: usize)
    ensures
        count == count_known(words(text@), dictionary@),
{
    // The count cannot pass the length of the text, which fits a `usize`.
    let len = text.unicode_len();
    let mut count: usize = 0;
    let mut word = String::new();
    let ghost mut start: int = 0;
    proof {
        reveal(Seq::filter);
    }
    for c in it: text.chars()
        invariant
            it.seq() == text@,
            text@.len() == len,
            0 <= start <= it.index(),
            word@ == text@.subrange(start, it.index()),
            forall|j: int| start <= j < it.index() ==> !is_whitespace_char(#[trigger] text@[j]),
            start == 0 || is_whitespace_char(text@[start - 1]),
            count == count_known(words(text@.take(start)), dictionary@),
            count <= start,
    {
        let ghost i = it.index();
        if is_whitespace(c) {
            proof {
                let a = text@.take(start);
                lemma_words_push_word(a, word@);
                lemma_words_push_whitespace(text@.take(i), c);
                lemma_count_known_push(words(a), word@, dictionary@);
                assert(a + word@ == text@.take(i));
                assert(text@.take(i).push(c) == text@.take(i + 1));
            }
            if !word.as_str().is_empty() {
                if dictionary.contains(word.as_str()) {
                    count = count + 1;
                }
                word = String::new();
            }
            proof {
                start = i + 1;
            }
        } else {
            word.push(c);
        }
    }
    proof {
        let a = text@.take(start);
        lemma_words_push_word(a, word@);
        lemma_count_known_push(words(a), word@, dictionary@);
        assert(a + word@ == text@);
    }
    if !word.as_str().is_empty() && dictionary.contains(word.as_str()) {
        count = count + 1;
    }
    count
}

/// The score of the shift `shift` under the dictionary heuristic: the number
/// of words of the ciphertext, moved by `shift`, that are in `known`.
pub open spec fn dict_score(ciphertext: Seq<char>, known: Set<Seq<char>>, shift: int) -> nat {
    count_known(words(shifted_text(ciphertext, shift)), known)
}

/// The dictionary score of every shift from 0 to 127, in that order.
pub fn dict_scores(ciphertext: &str, dictionary: &Dictionary) -> (scores: Vec<usize>)
    ensures
        scores@.len() == 128,
        forall|s: int|
            0 <= s < 128 ==> #[trigger] scores@[s] == dict_score(ciphertext@, dictionary@, s),
{
    let mut scores: Vec<usize> = Vec::new();
    let mut shift: u8 = 0;
    while shift < ASCII_ALPHABET_LEN
        invariant
            shift <= 128,
            scores@.len() == shift,
            forall|s: int|
                0 <= s < shift ==> #[trigger] scores@[s] == dict_score(
                    ciphertext@,
                    dictionary@,
                    s,
                ),
        decreases 128 - shift,
    {
        let cipher = CaesarCipher::new(shift as i32);
        let plaintext = cipher.apply_cipher(ciphertext);
        let score = count_known_words(plaintext.as_str(), dictionary);
        scores.push(score);
        shift = shift + 1;
    }
    scores
}

/// Whether `shift` is the answer of the dictionary attack: the lowest of the
/// shifts with the highest score, that score being more than zero.
pub open spec fn is_best_dict_shift(
    ciphertext: Seq<char>,
    known: Set<Seq<char>>,
    shift: int,
) -> bool {
    &&& 0 <= shift < 128
    &&& dict_score(ciphertext, known, shift) > 0
    &&& forall|s: int|
        0 <= s < 128 ==> dict_score(ciphertext, known, s) <= dict_score(ciphertext, known, shift)
    &&& forall|s: int|
        0 <= s < shift ==> dict_score(ciphertext, known, s) < dict_score(ciphertext, known, shift)
}

/// Whether `outcome` is what the dictionary attack gives: the best shift, or
/// nothing where every shift has the score zero.
pub open spec fn is_dict_attack_outcome(
    ciphertext: Seq<char>,
    known: Set<Seq<char>>,
    outcome: Option<u8>,
) -> bool {
    match outcome {
        Some(shift) => is_best_dict_shift(ciphertext, known, shift as int),
        None => forall|s: int| 0 <= s < 128 ==> dict_score(ciphertext, known, s) == 0,
    }
}

/// The dictionary attack has one outcome on one ciphertext.
pub proof fn lemma_dict_attack_outcome_unique(
    ciphertext: Seq<char>,
    known: Set<Seq<char>>,
    one: Option<u8>,
    other: Option<u8>,
)
    requires
        is_dict_attack_outcome(ciphertext, known, one),
        is_dict_attack_outcome(ciphertext, known, other),
    ensures
        one == other,
{
    match (one, other) {
        (Some(a), Some(b)) => {
            let high = dict_score(ciphertext, known, a as int);
            let other_high = dict_score(ciphertext, known, b as int);
            assert(high <= other_high && other_high <= high);
            if a < b {
                assert(high < other_high);
            } else if b < a {
                assert(other_high < high);
            }
        },
        (Some(a), None) => {
            assert(dict_score(ciphertext, known, a as int) == 0);
        },
        (None, Some(b)) => {
            assert(dict_score(ciphertext, known, b as int) == 0);
        },
        (None, None) => {},
    }
}

/// Recovers the shift by counting dictionary words.
///
/// Each of the 128 shifts is applied to the ciphertext, and the words of the
/// result that are in the dictionary are counted. The answer is the shift
/// with the highest count; where several shifts reach it, the lowest of them.
/// Where no shift yields a single known word, there is no answer.
pub fn apply_ascii_dict_attack(ciphertext: &str, dictionary: &Dictionary) -> (found: Option<u8>)
    ensures
        is_dict_attack_outcome(ciphertext@, dictionary@, found),
        ciphertext@.len() == 0 ==> found is None,
{
    let scores = dict_scores(ciphertext, dictionary);
    let mut found: Option<u8> = None;
    let mut best: usize = 0;
    let mut shift: u8 = 0;
    while shift < ASCII_ALPHABET_LEN
        invariant
            shift <= 128,
            scores@.len() == 128,
            forall|s: int|
                0 <= s < 128 ==> #[trigger] scores@[s] == dict_score(ciphertext@, dictionary@, s),
            forall|s: int|
                0 <= s < shift ==> #[trigger] dict_score(ciphertext@, dictionary@, s) <= best,
            match found {
                Some(k) => {
                    &&& k < shift
                    &&& dict_score(ciphertext@, dictionary@, k as int) == best
                    &&& best > 0
                    &&& forall|s: int|
                        0 <= s < k ==> #[trigger] dict_score(ciphertext@, dictionary@, s) < best
                },
                None => best == 0,
            },
        decreases 128 - shift,
    {
        let score = scores[shift as usize];
        if score > best {
            best = score;
            found = Some(shift);
        }
        shift = shift + 1;
    }
    proof {
        if ciphertext@.len() == 0 {
            // Without characters there are no words, under any shift.
            reveal(Seq::filter);
        }
    }
    found
}

/// The score of the shift `shift` under the frequency heuristic: the total
/// absolute deviation between the reference frequencies and the relative
/// frequencies of the ASCII characters in the ciphertext moved by `shift`,
/// as [`scaled_deviation`] gives it. Less is better.
///
/// The factor by which that number is scaled is the same for all shifts of
/// one ciphertext ([`lemma_shift_keeps_whole`]), so that comparing the scores
/// of two shifts compares their deviations.
pub open spec fn freq_score(ciphertext: Seq<char>, reference: Seq<nat>, shift: int) -> nat {
    let hist = histogram_of(shifted_text(ciphertext, shift));
    scaled_deviation(reference, hist, whole_of(hist))
}

/// A shifted text has as many ASCII characters as the text it comes from.
pub proof fn lemma_shift_keeps_ascii_count(text: Seq<char>, shift: int)
    ensures
        ascii_count(shifted_text(text, shift)) == ascii_count(text),
    decreases text.len(),
{
    if text.len() > 0 {
        let front = text.drop_last();
        let c = text.last();
        assert(front.push(c) == text);
        lemma_shift_keeps_ascii_count(front, shift);
        lemma_shifted_text_push(front, c, shift);
        lemma_shift_keeps_ascii(c, shift);
        lemma_ascii_count_push(front, c);
        lemma_ascii_count_push(shifted_text(front, shift), shifted_char(c, shift));
    }
}

/// The relative frequencies of every candidate plaintext have the same
/// denominator as those of the ciphertext.
pub proof fn lemma_shift_keeps_whole(text: Seq<char>, shift: int)
    ensures
        whole_of(histogram_of(shifted_text(text, shift))) == whole_of(histogram_of(text)),
{
    lemma_shift_keeps_ascii_count(text, shift);
    lemma_histogram_sum(text);
    lemma_histogram_sum(shifted_text(text, shift));
}

/// Where the ciphertext holds no ASCII character, every shift has the same
/// frequency score.
pub proof fn lemma_freq_score_without_ascii(text: Seq<char>, reference: Seq<nat>, shift: int)
    requires
        ascii_count(text) == 0,
    ensures
        freq_score(text, reference, shift) == freq_score(text, reference, 0),
{
    let moved = histogram_of(shifted_text(text, shift));
    let still = histogram_of(shifted_text(text, 0));
    lemma_shift_keeps_ascii_count(text, shift);
    lemma_shift_keeps_ascii_count(text, 0);
    lemma_histogram_sum(shifted_text(text, shift));
    lemma_histogram_sum(shifted_text(text, 0));
    assert forall|code: int| 0 <= code < 128 implies moved[code] == still[code] by {
        lemma_sum_at_least(moved, code);
        lemma_sum_at_least(still, code);
    }
    assert(moved =~= still);
}

/// The frequency score of every shift from 0 to 127, in that order.
pub fn freq_scores(ciphertext: &str, table: &FrequencyTable) -> (scores: Vec<u128>)
    ensures
        scores@.len() == 128,
        forall|s: int|
            0 <= s < 128 ==> #[trigger] scores@[s] == freq_score(ciphertext@, table@, s),
{
    let mut scores: Vec<u128> = Vec::new();
    let mut shift: u8 = 0;
    while shift < ASCII_ALPHABET_LEN
        invariant
            shift <= 128,
            scores@.len() == shift,
            forall|s: int|
                0 <= s < shift ==> #[trigger] scores@[s] == freq_score(ciphertext@, table@, s),
        decreases 128 - shift,
    {
        let cipher = CaesarCipher::new(shift as i32);
        let plaintext = cipher.apply_cipher(ciphertext);
        let counter = CharCounter::from_text(plaintext.as_str());
        let distribution = get_freq_distribution(&counter);
        let score = deviation(table, &distribution);
        scores.push(score);
        shift = shift + 1;
    }
    scores
}

/// Whether `shift` is the answer of the frequency attack: the lowest of the
/// shifts with the lowest score.
pub open spec fn is_best_freq_shift(
    ciphertext: Seq<char>,
    reference: Seq<nat>,
    shift: int,
) -> bool {
    &&& 0 <= shift < 128
    &&& forall|s: int|
        0 <= s < 128 ==> freq_score(ciphertext, reference, shift) <= freq_score(
            ciphertext,
            reference,
            s,
        )
    &&& forall|s: int|
        0 <= s < shift ==> freq_score(ciphertext, reference, shift) < freq_score(
            ciphertext,
            reference,
            s,
        )
}

/// One ciphertext has one best shift under the frequency heuristic.
pub proof fn lemma_best_freq_shift_unique(
    ciphertext: Seq<char>,
    reference: Seq<nat>,
    one: int,
    other: int,
)
    requires
        is_best_freq_shift(ciphertext, reference, one),
        is_best_freq_shift(ciphertext, reference, other),
    ensures
        one == other,
{
    let low = freq_score(ciphertext, reference, one);
    let other_low = freq_score(ciphertext, reference, other);
    assert(low <= other_low && other_low <= low);
    if one < other {
        assert(other_low < low);
    } else if other < one {
        assert(low < other_low);
    }
}

/// Recovers the shift by comparing character frequencies with those of
/// `table`.
///
/// Each of the 128 shifts is applied to the ciphertext, and the relative
/// frequencies of the ASCII characters of the result are held against the
/// table. The answer is the shift with the least total absolute deviation;
/// where several shifts reach it, the lowest of them. There is always an
/// answer: for a ciphertext without ASCII characters it is 0.
pub fn freq_attack_with_table(ciphertext: &str, table: &FrequencyTable) -> (shift: u8)
    ensures
        is_best_freq_shift(ciphertext@, table@, shift as int),
        ascii_count(ciphertext@) == 0 ==> shift == 0,
{
    let scores = freq_scores(ciphertext, table);
    let mut best: u8 = 0;
    let mut least: u128 = scores[0];
    let mut shift: u8 = 1;
    while shift < ASCII_ALPHABET_LEN
        invariant
            1 <= shift <= 128,
            scores@.len() == 128,
            forall|s: int|
                0 <= s < 128 ==> #[trigger] scores@[s] == freq_score(ciphertext@, table@, s),
            best < shift,
            least == freq_score(ciphertext@, table@, best as int),
            forall|s: int| 0 <= s < shift ==> least <= #[trigger] freq_score(ciphertext@, table@, s),
            forall|s: int| 0 <= s < best ==> least < #[trigger] freq_score(ciphertext@, table@, s),
        decreases 128 - shift,
    {
        let score = scores[shift as usize];
        if score < least {
            least = score;
            best = shift;
        }
        shift = shift + 1;
    }
    proof {
        if ascii_count(ciphertext@) == 0 && best > 0 {
            lemma_freq_score_without_ascii(ciphertext@, table@, best as int);
        }
    }
    best
}

/// Recovers the shift by comparing character frequencies with those of
/// English text, as [`FREQUENCY_TABLE`] gives them.
///
/// The answer is the shift under which the relative frequencies of the ASCII
/// characters are closest to the table; where several shifts are equally
/// close, the lowest of them. For a ciphertext without ASCII characters, and
/// so for the empty one, it is 0.
pub fn apply_ascii_freq_attack(ciphertext: &str) -> (shift: u8)
    ensures
        is_best_freq_shift(ciphertext@, english_frequencies(), shift as int),
        ascii_count(ciphertext@) == 0 ==> shift == 0,
{
    let table = FrequencyTable::english();
    freq_attack_with_table(ciphertext, &table)
}

/// The two ways of recovering a shift.
#[derive(Clone, Copy, Debug, PartialEq, Eq)]
pub enum Attack {
    /// Counting the words of each candidate plaintext that are in a
    /// dictionary of common English words.
    Dictionary,
    /// Comparing the character frequencies of each candidate plaintext with
    /// those of English text.
    Frequency,
}

/// What one run of the cracker needs: where the ciphertext comes from, and
/// which attack to use on it.
pub struct Config {
    /// The file to read the ciphertext from; `None` stands for standard
    /// input.
    pub ciphertext_file: Option<std::path::PathBuf>,
    /// The attack to use.
    pub attack_type: Attack,
}

impl Config {
    /// The configuration of a run with the given attack.
    pub fn new(ciphertext_file: Option<std::path::PathBuf>, attack_type: Attack) -> (config: Self)
        ensures
            config.ciphertext_file == ciphertext_file,
            config.attack_type == attack_type,
    {
        Config { ciphertext_file, attack_type }
    }
}

/// Whether `outcome` is what `attack` gives on `ciphertext`, with the
/// dictionary of [`POPULAR_ENGLISH_WORDS`] or the frequencies of
/// [`FREQUENCY_TABLE`]. The frequency attack always gives a shift.
pub open spec fn is_crack_outcome(
    attack: Attack,
    ciphertext: Seq<char>,
    outcome: Option<u8>,
) -> bool {
    match attack {
        Attack::Dictionary => is_dict_attack_outcome(
            ciphertext,
            listed_words(POPULAR_ENGLISH_WORDS@),
            outcome,
        ),
        Attack::Frequency => outcome matches Some(shift) && is_best_freq_shift(
            ciphertext,
            english_frequencies(),
            shift as int,
        ),
    }
}

/// No attack has two outcomes on one ciphertext.
pub proof fn lemma_crack_outcome_unique(
    attack: Attack,
    ciphertext: Seq<char>,
    one: Option<u8>,
    other: Option<u8>,
)
    requires
        is_crack_outcome(attack, ciphertext, one),
        is_crack_outcome(attack, ciphertext, other),
    ensures
        one == other,
{
    match attack {
        Attack::Dictionary => {
            lemma_dict_attack_outcome_unique(
                ciphertext,
                listed_words(POPULAR_ENGLISH_WORDS@),
                one,
                other,
            );
        },
        Attack::Frequency => {
            lemma_best_freq_shift_unique(
                ciphertext,
                english_frequencies(),
                one->0 as int,
                other->0 as int,
            );
        },
    }
}

/// Uses `attack` on `ciphertext`.
pub fn crack(attack: Attack, ciphertext: &str) -> (outcome: Option<u8>)
    ensures
        is_crack_outcome(attack, ciphertext@, outcome),
{
    match attack {
        Attack::Dictionary => {
            let dictionary = load_dictionary();
            apply_ascii_dict_attack(ciphertext, &dictionary)
        },
        Attack::Frequency => Some(apply_ascii_freq_attack(ciphertext)),
    }
}

/// The words in which an outcome is reported.
pub open spec fn report_text(outcome: Option<u8>) -> Seq<char> {
    match outcome {
        Some(shift) => "candidate key: "@ + decimal(shift as nat),
        None => "unable to find candidate key"@,
    }
}

/// Reports an outcome in words: the shift that was found, or that none was.
pub fn report(outcome: Option<u8>) -> (text: String)
    ensures
        text@ == report_text(outcome),
{
    match outcome {
        Some(shift) => {
            let mut text = String::from_str("candidate key: ");
            text.append(decimal_string(shift).as_str());
            text
        },
        None => String::from_str("unable to find candidate key"),
    }
}

/// What one run of the cracker makes of the ciphertext that it has read: the
/// report on the outcome of the configured attack. Reading the ciphertext and
/// printing the report are left to the caller.
pub fn run(config: &Config, ciphertext: &str) -> (text: String)
    ensures
        exists|outcome: Option<u8>| #[trigger]
            is_crack_outcome(config.attack_type, ciphertext@, outcome) && text@ == report_text(
                outcome,
            ),
{
    let outcome = crack(config.attack_type, ciphertext);
    report(outcome)
}

} // verus!
