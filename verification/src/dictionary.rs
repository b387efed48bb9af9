//! The set of words against which candidate plaintexts are held.

use crate::english::POPULAR_ENGLISH_WORDS;
use crate::text::{is_whitespace, is_whitespace_char};
use vstd::hash_set::StringHashSet;
use vstd::prelude::*;
use vstd::string::StringExecFns;

verus! {

/// `s` without the whitespace at its start.
pub open spec fn trim_start(s: Seq<char>) -> Seq<char>
    decreases s.len(),
{
    if s.len() > 0 && is_whitespace_char(s[0]) {
        trim_start(s.drop_first())
    } else {
        s
    }
}

/// `s` without the whitespace at its end.
pub open spec fn trim_end(s: Seq<char>) -> Seq<char>
    decreases s.len(),
{
    if s.len() > 0 && is_whitespace_char(s.last()) {
        trim_end(s.drop_last())
    } else {
        s
    }
}

/// `s` without the whitespace at its start and at its end.
pub open spec fn trimmed(s: Seq<char>) -> Seq<char> {
    trim_end(trim_start(s))
}

/// Whether the characters of `text` from `from` up to `to` are one of its
/// lines: they hold no line feed, a line feed or the start of the text comes
/// before them, and a line feed or the end of the text after them.
pub open spec fn is_line(text: Seq<char>, from: int, to: int) -> bool {
    &&& 0 <= from <= to <= text.len()
    &&& from == 0 || text[from - 1] == '\n'
    &&& to == text.len() || text[to] == '\n'
    &&& forall|i: int| from <= i < to ==> text[i] != '\n'
}

/// The words that a text lists, one on each line: every line without the
/// whitespace around it, unless nothing is left of it. A carriage return
/// before the line feed is whitespace, and leaves with it.
pub open spec fn listed_words(text: Seq<char>) -> Set<Seq<char>> {
    Set::new(
        |w: Seq<char>|
            w.len() > 0 && exists|from: int, to: int|
                #[trigger] is_line(text, from, to) && trimmed(text.subrange(from, to)) == w,
    )
}

/// The words that the lines of `text` which end before `limit` list.
spec fn listed_before(text: Seq<char>, limit: int) -> Set<Seq<char>> {
    Set::new(
        |w: Seq<char>|
            w.len() > 0 && exists|from: int, to: int|
                #[trigger] is_line(text, from, to) && to < limit && trimmed(
                    text.subrange(from, to),
                ) == w,
    )
}

/// Every line of a text ends at the end of the text or before it.
proof fn lemma_listed_before_end(text: Seq<char>)
    ensures
        listed_before(text, text.len() as int + 1) == listed_words(text),
{
    let all = listed_words(text);
    let before = listed_before(text, text.len() as int + 1);
    assert forall|w: Seq<char>| all.contains(w) implies before.contains(w) by {
        let (a, b) = choose|a: int, b: int|
            #[trigger] is_line(text, a, b) && trimmed(text.subrange(a, b)) == w;
        assert(is_line(text, a, b) && b < text.len() + 1);
    }
    assert(before =~= all);
}

/// Trimming the start of a text with one more character at its end.
proof fn lemma_trim_start_push(s: Seq<char>, c: char)
    ensures
        trim_start(s.push(c)) == if trim_start(s).len() == 0 && is_whitespace_char(c) {
            Seq::<char>::empty()
        } else {
            trim_start(s).push(c)
        },
    decreases s.len(),
{
    if s.len() == 0 {
        if is_whitespace_char(c) {
            assert(s.push(c).drop_first() == s);
        }
    } else if is_whitespace_char(s[0]) {
        assert(s.push(c).drop_first() == s.drop_first().push(c));
        lemma_trim_start_push(s.drop_first(), c);
    }
}

/// Whitespace behind a text that does not end with whitespace leaves when
/// the end is trimmed, and nothing else does.
proof fn lemma_trim_end_blank(w: Seq<char>, blank: Seq<char>)
    requires
        w.len() == 0 || !is_whitespace_char(w.last()),
        forall|i: int| 0 <= i < blank.len() ==> is_whitespace_char(#[trigger] blank[i]),
    ensures
        trim_end(w + blank) == w,
    decreases blank.len(),
{
    if blank.len() == 0 {
        assert(w + blank == w);
    } else {
        assert((w + blank).drop_last() == w + blank.drop_last());
        lemma_trim_end_blank(w, blank.drop_last());
    }
}

/// The line that starts at `from` and ends at `to` is the only line that ends
/// at or after `from` and before `to + 1`.
proof fn lemma_listed_step(text: Seq<char>, from: int, to: int)
    requires
        is_line(text, from, to),
    ensures
        listed_before(text, to + 1) == if trimmed(text.subrange(from, to)).len() > 0 {
            listed_before(text, from).insert(trimmed(text.subrange(from, to)))
        } else {
            listed_before(text, from)
        },
{
    let word = trimmed(text.subrange(from, to));
    let before = listed_before(text, from);
    let after = listed_before(text, to + 1);
    let expected = if word.len() > 0 {
        before.insert(word)
    } else {
        before
    };
    assert forall|w: Seq<char>| after.contains(w) implies expected.contains(w) by {
        let (a, b) = choose|a: int, b: int|
            #[trigger] is_line(text, a, b) && b < to + 1 && trimmed(text.subrange(a, b)) == w;
        if b >= from {
            if b < to {
                assert(text[b] != '\n');
            }
            if a < from {
                assert(text[from - 1] != '\n');
            }
            if a > from {
                assert(text[a - 1] != '\n');
            }
            assert(a == from && b == to);
        }
    }
    assert forall|w: Seq<char>| expected.contains(w) implies after.contains(w) by {
        if before.contains(w) {
            let (a, b) = choose|a: int, b: int|
                #[trigger] is_line(text, a, b) && b < from && trimmed(text.subrange(a, b)) == w;
            assert(is_line(text, a, b) && b < to + 1);
        } else {
            assert(is_line(text, from, to) && to < to + 1);
        }
    }
    assert(after =~= expected);
}

/// A set of words. A word is in it or not: the set keeps no count and no
/// order, and comparison is exact, by case and punctuation too.
pub struct Dictionary {
    words: StringHashSet,
}

impl View for Dictionary {
    type V = Set<Seq<char>>;

    closed spec fn view(&self) -> Set<Seq<char>> {
        self.words@
    }
}

impl Dictionary {
    /// The dictionary without words.
    pub fn new() -> (dictionary: Self)
        ensures
            dictionary@ == Set::<Seq<char>>::empty(),
    {
        Dictionary { words: StringHashSet::new() }
    }

    /// The dictionary of the given words; one that is given twice is in it
    /// once.
    pub fn from_words(words: Vec<String>) -> (dictionary: Self)
        ensures
            forall|w: Seq<char>|
                dictionary@.contains(w) <==> exists|i: int|
                    0 <= i < words@.len() && (#[trigger] words@[i])@ == w,
    {
        let mut dictionary = Dictionary::new();
        let mut words = words;
        let ghost all = words@;
        while words.len() > 0
            invariant
                words@.len() <= all.len(),
                words@ == all.take(words@.len() as int),
                forall|w: Seq<char>|
                    dictionary@.contains(w) <==> exists|i: int|
                        words@.len() <= i < all.len() && (#[trigger] all[i])@ == w,
            decreases words@.len(),
        {
            let ghost before = dictionary@;
            let ghost n = words@.len() as int;
            let word = words.pop().unwrap();
            dictionary.insert(word);
            assert forall|w: Seq<char>| dictionary@.contains(w) implies exists|i: int|
                n - 1 <= i < all.len() && (#[trigger] all[i])@ == w by {
                if before.contains(w) {
                    let i = choose|i: int| n <= i < all.len() && (#[trigger] all[i])@ == w;
                    assert(n - 1 <= i < all.len() && all[i]@ == w);
                } else {
                    assert(all[n - 1]@ == w);
                }
            }
        }
        dictionary
    }

    /// The dictionary of the words that `text` lists, one on each line.
    /// Whitespace around a word does not belong to it, and a line with
    /// nothing but whitespace lists no word.
    pub fn from_lines(text: &str) -> (dictionary: Self)
        ensures
            dictionary@ == listed_words(text@),
    {
        let mut dictionary = Dictionary::new();
        let mut word = String::new();
        let mut blank = String::new();
        let ghost mut from: int = 0;
        for c in it: text.chars()
            invariant
                it.seq() == text@,
                0 <= from <= it.index(),
                from == 0 || text@[from - 1] == '\n',
                forall|i: int| from <= i < it.index() ==> text@[i] != '\n',
                dictionary@ == listed_before(text@, from),
                word@ + blank@ == trim_start(text@.subrange(from, it.index())),
                word@.len() == 0 ==> blank@.len() == 0,
                word@.len() > 0 ==> !is_whitespace_char(word@.last()),
                forall|i: int| 0 <= i < blank@.len() ==> is_whitespace_char(#[trigger] blank@[i]),
        {
            let ghost i = it.index();
            let ghost line = text@.subrange(from, i);
            if c == '\n' {
                proof {
                    lemma_trim_end_blank(word@, blank@);
                    lemma_listed_step(text@, from, i);
                }
                if !word.as_str().is_empty() {
                    dictionary.insert(word);
                }
                word = String::new();
                blank = String::new();
                proof {
                    from = i + 1;
                }
            } else {
                proof {
                    lemma_trim_start_push(line, c);
                    assert(line.push(c) == text@.subrange(from, i + 1));
                }
                if is_whitespace(c) {
                    if !word.as_str().is_empty() {
                        blank.push(c);
                    }
                } else {
                    word.append(blank.as_str());
                    word.push(c);
                    blank = String::new();
                }
            }
        }
        proof {
            lemma_trim_end_blank(word@, blank@);
            lemma_listed_step(text@, from, text@.len() as int);
            lemma_listed_before_end(text@);
        }
        if !word.as_str().is_empty() {
            dictionary.insert(word);
        }
        dictionary
    }

    /// Puts `word` into the dictionary, and says whether it was new.
    pub fn insert(&mut self, word: String) -> (fresh: bool)
        ensures
            final(self)@ == old(self)@.insert(word@),
            fresh == !old(self)@.contains(word@),
    {
        self.words.insert(word)
    }

    /// Whether `word` is in the dictionary.
    pub fn contains(&self, word: &str) -> (found: bool)
        ensures
            found == self@.contains(word@),
    {
        self.words.contains(word)
    }

    /// The number of words in the dictionary.
    pub fn len(&self) -> (n: usize)
        ensures
            n == self@.len(),
    {
        self.words.len()
    }

    /// Whether the dictionary holds no word.
    pub fn is_empty(&self) -> (empty: bool)
        ensures
            empty == (self@ == Set::<Seq<char>>::empty()),
    {
        self.words.is_empty()
    }
}

/// The dictionary of common English words: those that
/// [`POPULAR_ENGLISH_WORDS`] lists.
pub fn load_dictionary() -> (dictionary: Dictionary)
    ensures
        dictionary@ == listed_words(POPULAR_ENGLISH_WORDS@),
{
    Dictionary::from_lines(POPULAR_ENGLISH_WORDS)
}

} // verus!
