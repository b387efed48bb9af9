//! Counting the ASCII characters of a text, and measuring how far their
//! relative frequencies are from those of English text.
//!
//! Frequencies are kept as exact fractions of integers: a distribution is a
//! count per ASCII code over the count of all ASCII characters.

use crate::cipher::{ascii_code, is_ascii_char, lemma_char_code};
use crate::english::{FREQUENCY_SCALE, FREQUENCY_TABLE};
use vstd::prelude::*;
use vstd::string::StrSliceExecFns;

verus! {

/// The sum of the numbers in `s`.
pub open spec fn sum(s: Seq<nat>) -> nat
    decreases s.len(),
{
    if s.len() == 0 {
        0
    } else {
        sum(s.drop_last()) + s.last()
    }
}

/// How often the character with the code `code` occurs in `text`.
pub open spec fn occurrences(text: Seq<char>, code: int) -> nat {
    text.filter(|c: char| c as int == code).len()
}

/// The number of ASCII characters in `text`.
pub open spec fn ascii_count(text: Seq<char>) -> nat {
    text.filter(|c: char| is_ascii_char(c)).len()
}

/// For each of the 128 ASCII codes, how often it occurs in `text`.
pub open spec fn histogram_of(text: Seq<char>) -> Seq<nat> {
    Seq::new(128, |code: int| occurrences(text, code))
}

/// Replacing one number of a sequence changes the sum by the difference.
proof fn lemma_sum_update(s: Seq<nat>, i: int, v: nat)
    requires
        0 <= i < s.len(),
    ensures
        sum(s.update(i, v)) == sum(s) - s[i] + v,
    decreases s.len(),
{
    let t = s.update(i, v);
    if i == s.len() - 1 {
        assert(t.drop_last() == s.drop_last());
    } else {
        assert(t.drop_last() == s.drop_last().update(i, v));
        lemma_sum_update(s.drop_last(), i, v);
    }
}

/// No number of a sequence is more than the sum of all.
pub(crate) proof fn lemma_sum_at_least(s: Seq<nat>, i: int)
    requires
        0 <= i < s.len(),
    ensures
        s[i] <= sum(s),
    decreases s.len(),
{
    if i < s.len() - 1 {
        lemma_sum_at_least(s.drop_last(), i);
    }
}

/// The sum of the first numbers of a sequence is no more than the sum of all.
proof fn lemma_sum_prefix(s: Seq<nat>, n: int)
    requires
        0 <= n <= s.len(),
    ensures
        sum(s.take(n)) <= sum(s),
    decreases s.len(),
{
    if n == s.len() {
        assert(s.take(n) == s);
    } else {
        assert(s.drop_last().take(n) == s.take(n));
        lemma_sum_prefix(s.drop_last(), n);
    }
}

/// The sum of zeros is zero.
proof fn lemma_sum_zeros(s: Seq<nat>)
    requires
        forall|i: int| 0 <= i < s.len() ==> s[i] == 0,
    ensures
        sum(s) == 0,
    decreases s.len(),
{
    if s.len() > 0 {
        lemma_sum_zeros(s.drop_last());
    }
}

/// One more character at the end of a text is one more occurrence of its own
/// code and of no other.
proof fn lemma_occurrences_push(text: Seq<char>, c: char, code: int)
    ensures
        occurrences(text.push(c), code) == occurrences(text, code) + if c as int == code {
            1nat
        } else {
            0nat
        },
{
    reveal(Seq::filter);
    assert(text.push(c).drop_last() == text);
}

/// One more character at the end of a text is one more ASCII character if it
/// is one.
pub(crate) proof fn lemma_ascii_count_push(text: Seq<char>, c: char)
    ensures
        ascii_count(text.push(c)) == ascii_count(text) + if is_ascii_char(c) {
            1nat
        } else {
            0nat
        },
{
    reveal(Seq::filter);
    assert(text.push(c).drop_last() == text);
}

/// The histogram of a text with one more character at its end.
proof fn lemma_histogram_push(text: Seq<char>, c: char)
    ensures
        histogram_of(text.push(c)) == if is_ascii_char(c) {
            histogram_of(text).update(c as int, histogram_of(text)[c as int] + 1)
        } else {
            histogram_of(text)
        },
{
    let grown = histogram_of(text.push(c));
    let expected = if is_ascii_char(c) {
        histogram_of(text).update(c as int, histogram_of(text)[c as int] + 1)
    } else {
        histogram_of(text)
    };
    assert forall|code: int| 0 <= code < 128 implies grown[code] == expected[code] by {
        lemma_occurrences_push(text, c, code);
    }
}

/// The counts of a histogram add up to the number of ASCII characters.
pub proof fn lemma_histogram_sum(text: Seq<char>)
    ensures
        sum(histogram_of(text)) == ascii_count(text),
        ascii_count(text) <= text.len(),
    decreases text.len(),
{
    if text.len() == 0 {
        reveal(Seq::filter);
        assert(forall|i: int| 0 <= i < 128 ==> histogram_of(text)[i] == 0);
        lemma_sum_zeros(histogram_of(text));
    } else {
        let front = text.drop_last();
        let c = text.last();
        assert(front.push(c) == text);
        lemma_histogram_sum(front);
        lemma_histogram_push(front, c);
        lemma_ascii_count_push(front, c);
        if is_ascii_char(c) {
            lemma_char_code(c);
            lemma_sum_update(histogram_of(front), c as int, histogram_of(front)[c as int] + 1);
        }
    }
}

/// The numbers of a vector of counts.
pub open spec fn as_nats(counts: Seq<u64>) -> Seq<nat> {
    Seq::new(counts.len(), |i: int| counts[i] as nat)
}

/// A count of occurrences for each of the 128 ASCII characters.
pub struct CharCounter {
    counts: Vec<u64>,
}

impl View for CharCounter {
    type V = Seq<nat>;

    closed spec fn view(&self) -> Seq<nat> {
        as_nats(self.counts@)
    }
}

impl CharCounter {
    #[verifier::type_invariant]
    spec fn well_formed(&self) -> bool {
        &&& self.counts@.len() == 128
        &&& sum(as_nats(self.counts@)) <= u64::MAX
    }

    /// The number of occurrences that the counter holds, of all characters
    /// together.
    pub open spec fn total(&self) -> nat {
        sum(self@)
    }

    /// The counter that has seen no character.
    pub fn new() -> (counter: Self)
        ensures
            counter@ == Seq::new(128, |code: int| 0nat),
            counter.total() == 0,
    {
        let counts = zeros();
        proof {
            lemma_sum_zeros(as_nats(counts@));
        }
        CharCounter { counts }
    }

    /// The counter that has seen the characters of `text`: for each ASCII
    /// character, how often it occurs there. Characters that are not ASCII
    /// are not counted.
    pub fn from_text(text: &str) -> (counter: Self)
        ensures
            counter@ == histogram_of(text@),
            counter.total() == ascii_count(text@),
    {
        // No count can pass the length of the text, which fits a `usize`.
        let len = text.unicode_len();
        let mut counts = zeros();
        proof {
            reveal(Seq::filter);
        }
        for c in it: text.chars()
            invariant
                it.seq() == text@,
                text@.len() == len,
                counts@.len() == 128,
                as_nats(counts@) == histogram_of(text@.take(it.index())),
        {
            let ghost seen = text@.take(it.index());
            proof {
                lemma_histogram_push(seen, c);
                lemma_histogram_sum(seen);
                lemma_histogram_sum(seen.push(c));
                assert(seen.push(c) == text@.take(it.index() + 1));
            }
            if let Some(code) = ascii_code(c) {
                proof {
                    lemma_sum_at_least(as_nats(counts@), code as int);
                }
                let n = counts[code as usize];
                counts.set(code as usize, n + 1);
            }
        }
        proof {
            assert(text@.take(text@.len() as int) == text@);
            lemma_histogram_sum(text@);
        }
        CharCounter { counts }
    }

    /// How often `c` was counted; zero for a character that is not ASCII.
    pub fn count(&self, c: char) -> (n: u64)
        ensures
            self@.len() == 128,
            n == if is_ascii_char(c) {
                self@[c as int]
            } else {
                0
            },
    {
        proof {
            use_type_invariant(self);
        }
        match ascii_code(c) {
            Some(code) => self.counts[code as usize],
            None => 0,
        }
    }

    /// The number of occurrences counted, of all characters together.
    pub fn sum(&self) -> (n: u64)
        ensures
            n == self.total(),
    {
        proof {
            use_type_invariant(self);
        }
        let ghost all = as_nats(self.counts@);
        let mut n: u64 = 0;
        let mut i: usize = 0;
        while i < 128
            invariant
                i <= 128,
                self.counts@.len() == 128,
                all == as_nats(self.counts@),
                sum(all) <= u64::MAX,
                n == sum(all.take(i as int)),
            decreases 128 - i,
        {
            proof {
                assert(all.take(i + 1).drop_last() == all.take(i as int));
                lemma_sum_prefix(all, i + 1);
            }
            n = n + self.counts[i];
            i = i + 1;
        }
        assert(all.take(128) == all);
        n
    }

    /// Whether nothing was counted.
    pub fn is_empty(&self) -> (empty: bool)
        ensures
            empty == (self.total() == 0),
    {
        self.sum() == 0
    }
}

/// 128 counts of zero.
fn zeros() -> (counts: Vec<u64>)
    ensures
        counts@.len() == 128,
        forall|i: int| 0 <= i < 128 ==> counts@[i] == 0,
{
    let mut counts: Vec<u64> = Vec::new();
    while counts.len() < 128
        invariant
            counts@.len() <= 128,
            forall|i: int| 0 <= i < counts@.len() ==> counts@[i] == 0,
        decreases 128 - counts@.len(),
    {
        counts.push(0);
    }
    counts
}

/// The denominator of the relative frequencies that belong to the counts
/// `hist`: the number of characters counted, or one where none was, so that
/// every frequency is then zero.
pub open spec fn whole_of(hist: Seq<nat>) -> nat {
    if sum(hist) == 0 {
        1
    } else {
        sum(hist)
    }
}

/// For each of the 128 ASCII characters its relative frequency, as a
/// fraction: all 128 fractions have the same denominator.
pub struct FreqDistribution {
    parts: Vec<u64>,
    whole: u64,
}

impl FreqDistribution {
    #[verifier::type_invariant]
    spec fn well_formed(&self) -> bool {
        &&& self.parts@.len() == 128
        &&& self.whole == whole_of(as_nats(self.parts@))
    }

    /// The numerators of the 128 fractions, by ASCII code.
    pub closed spec fn parts(&self) -> Seq<nat> {
        as_nats(self.parts@)
    }

    /// The denominator of the 128 fractions.
    pub closed spec fn whole(&self) -> nat {
        self.whole as nat
    }

    /// The numerator of the relative frequency of `c`; zero for a character
    /// that is not ASCII.
    pub fn numerator(&self, c: char) -> (n: u64)
        ensures
            self.parts().len() == 128,
            n == if is_ascii_char(c) {
                self.parts()[c as int]
            } else {
                0
            },
    {
        proof {
            use_type_invariant(self);
        }
        match ascii_code(c) {
            Some(code) => self.parts[code as usize],
            None => 0,
        }
    }

    /// The denominator of every relative frequency. It is the sum of the
    /// numerators, so that the frequencies add up to one; only where every
    /// numerator is zero, it is one.
    pub fn denominator(&self) -> (n: u64)
        ensures
            n == self.whole(),
            n == whole_of(self.parts()),
            n >= 1,
    {
        proof {
            use_type_invariant(self);
        }
        self.whole
    }
}

/// The relative frequencies that belong to a counter: each count over the
/// number of all characters counted. For a counter that has counted nothing,
/// every frequency is zero.
pub fn get_freq_distribution(char_counter: &CharCounter) -> (distribution: FreqDistribution)
    ensures
        distribution.parts() == char_counter@,
        distribution.parts().len() == 128,
        distribution.whole() == whole_of(char_counter@),
        char_counter.total() > 0 ==> sum(distribution.parts()) == distribution.whole(),
{
    proof {
        use_type_invariant(char_counter);
    }
    let total = char_counter.sum();
    let whole = if total == 0 {
        1
    } else {
        total
    };
    FreqDistribution { parts: char_counter.counts.clone(), whole }
}

/// For each of the 128 ASCII characters a reference frequency, in parts of
/// [`FREQUENCY_SCALE`].
pub struct FrequencyTable {
    weights: Vec<u32>,
}

impl View for FrequencyTable {
    type V = Seq<nat>;

    closed spec fn view(&self) -> Seq<nat> {
        Seq::new(self.weights@.len(), |i: int| self.weights@[i] as nat)
    }
}

/// The frequencies of [`FREQUENCY_TABLE`], by ASCII code.
pub open spec fn english_frequencies() -> Seq<nat> {
    Seq::new(128, |code: int| FREQUENCY_TABLE[code] as nat)
}

impl FrequencyTable {
    #[verifier::type_invariant]
    spec fn well_formed(&self) -> bool {
        self.weights@.len() == 128
    }

    /// The table with the given frequencies, by ASCII code; `None` unless
    /// there are exactly 128 of them.
    pub fn new(weights: Vec<u32>) -> (table: Option<Self>)
        ensures
            table is Some <==> weights@.len() == 128,
            table matches Some(t) ==> t@ == Seq::new(128, |i: int| weights@[i] as nat),
    {
        if weights.len() == 128 {
            Some(FrequencyTable { weights })
        } else {
            None
        }
    }

    /// The table of the frequencies in English text.
    pub fn english() -> (table: Self)
        ensures
            table@ == english_frequencies(),
    {
        let mut weights: Vec<u32> = Vec::new();
        let mut code: usize = 0;
        while code < 128
            invariant
                code <= 128,
                weights@.len() == code,
                forall|i: int| 0 <= i < code ==> weights@[i] == FREQUENCY_TABLE[i],
            decreases 128 - code,
        {
            weights.push(FREQUENCY_TABLE[code]);
            code = code + 1;
        }
        FrequencyTable { weights }
    }

    /// The reference frequency of `c`, in parts of [`FREQUENCY_SCALE`]; zero
    /// for a character that is not ASCII.
    pub fn weight(&self, c: char) -> (w: u32)
        ensures
            self@.len() == 128,
            w == if is_ascii_char(c) {
                self@[c as int]
            } else {
                0
            },
    {
        proof {
            use_type_invariant(self);
        }
        match ascii_code(c) {
            Some(code) => self.weights[code as usize],
            None => 0,
        }
    }
}

/// How far two numbers are apart.
pub open spec fn distance(a: nat, b: nat) -> nat {
    if a >= b {
        (a - b) as nat
    } else {
        (b - a) as nat
    }
}

/// The part of [`scaled_deviation`] that the ASCII codes below `n` add.
pub open spec fn scaled_deviation_below(
    reference: Seq<nat>,
    parts: Seq<nat>,
    whole: nat,
    n: nat,
) -> nat
    decreases n,
{
    if n == 0 {
        0
    } else {
        let code = n - 1;
        scaled_deviation_below(reference, parts, whole, code as nat) + distance(
            reference[code] * whole,
            parts[code] * FREQUENCY_SCALE as nat,
        )
    }
}

/// The total absolute deviation between the reference frequencies
/// `reference[code] / FREQUENCY_SCALE` and the frequencies
/// `parts[code] / whole`, summed over the 128 ASCII codes and multiplied by
/// `FREQUENCY_SCALE * whole`, which makes it a natural number.
pub open spec fn scaled_deviation(reference: Seq<nat>, parts: Seq<nat>, whole: nat) -> nat {
    scaled_deviation_below(reference, parts, whole, 128)
}

/// The total absolute deviation between a table of reference frequencies and
/// a distribution, multiplied by `FREQUENCY_SCALE` and by the distribution's
/// denominator.
pub fn deviation(table: &FrequencyTable, distribution: &FreqDistribution) -> (total: u128)
    ensures
        total == scaled_deviation(table@, distribution.parts(), distribution.whole()),
{
    proof {
        use_type_invariant(table);
        use_type_invariant(distribution);
    }
    let ghost reference = table@;
    let ghost parts = distribution.parts();
    let ghost whole = distribution.whole();
    let mut total: u128 = 0;
    let mut code: usize = 0;
    while code < 128
        invariant
            code <= 128,
            table.weights@.len() == 128,
            distribution.parts@.len() == 128,
            reference == table@,
            parts == distribution.parts(),
            whole == distribution.whole(),
            total == scaled_deviation_below(reference, parts, whole, code as nat),
            total <= code * 0x1_0000_0000_0000_0000_0000_0000,
        decreases 128 - code,
    {
        let expected: u128 = table.weights[code] as u128;
        let whole_part: u128 = distribution.whole as u128;
        let seen: u128 = distribution.parts[code] as u128;
        assert(expected * whole_part < 0x1_0000_0000_0000_0000_0000_0000) by (nonlinear_arith)
            requires
                expected <= 0xFFFF_FFFF,
                whole_part <= 0xFFFF_FFFF_FFFF_FFFF,
        ;
        assert(seen * 1_000_000_000 < 0x1_0000_0000_0000_0000_0000_0000) by (nonlinear_arith)
            requires
                seen <= 0xFFFF_FFFF_FFFF_FFFF,
        ;
        let a: u128 = expected * whole_part;
        let b: u128 = seen * (FREQUENCY_SCALE as u128);
        let apart: u128 = if a >= b {
            a - b
        } else {
            b - a
        };
        total = total + apart;
        code = code + 1;
    }
    total
}

} // verus!
