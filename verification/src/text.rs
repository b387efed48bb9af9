//! Whitespace and the words that it separates, and numbers in decimal.

use vstd::prelude::*;

verus! {

/// Whether `c` is whitespace: one of the code points to which Unicode gives
/// the property `White_Space`.
pub open spec fn is_whitespace_char(c: char) -> bool {
    let code = c as int;
    ||| 0x09 <= code <= 0x0D
    ||| code == 0x20
    ||| code == 0x85
    ||| code == 0xA0
    ||| code == 0x1680
    ||| 0x2000 <= code <= 0x200A
    ||| code == 0x2028
    ||| code == 0x2029
    ||| code == 0x202F
    ||| code == 0x205F
    ||| code == 0x3000
}

/// Whether `c` is whitespace.
pub fn is_whitespace(c: char) -> (r: bool)
    ensures
        r == is_whitespace_char(c),
{
    let code: u32 = c as u32;
    (0x09 <= code && code <= 0x0D) || code == 0x20 || code == 0x85 || code == 0xA0 || code
        == 0x1680 || (0x2000 <= code && code <= 0x200A) || code == 0x2028 || code == 0x2029
        || code == 0x202F || code == 0x205F || code == 0x3000
}

/// The number of characters at the start of `s` before its first whitespace
/// character; the length of `s` if it holds none.
pub open spec fn leading_word_len(s: Seq<char>) -> nat
    decreases s.len(),
{
    if s.len() == 0 || is_whitespace_char(s[0]) {
        0
    } else {
        1 + leading_word_len(s.drop_first())
    }
}

/// The words of `s`, in order: its longest runs of characters that are not
/// whitespace.
pub open spec fn words(s: Seq<char>) -> Seq<Seq<char>>
    decreases s.len(),
    via words_terminates
{
    if s.len() == 0 {
        Seq::empty()
    } else if is_whitespace_char(s[0]) {
        words(s.drop_first())
    } else {
        let n = leading_word_len(s) as int;
        seq![s.take(n)] + words(s.skip(n))
    }
}

#[via_fn]
proof fn words_terminates(s: Seq<char>) {
    lemma_leading_word_len(s);
}

/// `leading_word_len(s)` is the position of the first whitespace character of
/// `s`, or the length of `s`.
proof fn lemma_leading_word_len(s: Seq<char>)
    ensures
        leading_word_len(s) <= s.len(),
        forall|i: int| 0 <= i < leading_word_len(s) ==> !is_whitespace_char(#[trigger] s[i]),
        leading_word_len(s) < s.len() ==> is_whitespace_char(s[leading_word_len(s) as int]),
        s.len() > 0 && !is_whitespace_char(s[0]) ==> leading_word_len(s) >= 1,
    decreases s.len(),
{
    if s.len() > 0 && !is_whitespace_char(s[0]) {
        let rest = s.drop_first();
        lemma_leading_word_len(rest);
        assert forall|i: int| 0 <= i < leading_word_len(s) implies !is_whitespace_char(
            #[trigger] s[i],
        ) by {
            if i > 0 {
                assert(s[i] == rest[i - 1]);
            }
        }
    }
}

/// A position `k` before which `s` holds no whitespace, and at which `s` ends
/// or holds whitespace, is `leading_word_len(s)`.
proof fn lemma_leading_word_len_is(s: Seq<char>, k: int)
    requires
        0 <= k <= s.len(),
        forall|i: int| 0 <= i < k ==> !is_whitespace_char(#[trigger] s[i]),
        k < s.len() ==> is_whitespace_char(s[k]),
    ensures
        leading_word_len(s) == k,
{
    lemma_leading_word_len(s);
}

/// A text without whitespace and with at least one character is one word.
proof fn lemma_words_of_one_word(w: Seq<char>)
    requires
        w.len() > 0,
        forall|i: int| 0 <= i < w.len() ==> !is_whitespace_char(#[trigger] w[i]),
    ensures
        words(w) == seq![w],
{
    lemma_leading_word_len_is(w, w.len() as int);
    assert(w.take(w.len() as int) == w);
    assert(words(w.skip(w.len() as int)) == Seq::<Seq<char>>::empty());
}

/// Where two texts meet at a word boundary (one of them is empty, the first
/// ends with whitespace, or the second starts with it), the words of the
/// joined text are the words of the first followed by those of the second.
pub proof fn lemma_words_concat(a: Seq<char>, b: Seq<char>)
    requires
        a.len() == 0 || b.len() == 0 || is_whitespace_char(a.last()) || is_whitespace_char(b[0]),
    ensures
        words(a + b) == words(a) + words(b),
    decreases a.len(),
{
    if a.len() == 0 {
        assert(a + b == b);
    } else if is_whitespace_char(a[0]) {
        let rest = a.drop_first();
        assert((a + b).drop_first() == rest + b);
        lemma_words_concat(rest, b);
    } else {
        lemma_leading_word_len(a);
        let n = leading_word_len(a) as int;
        assert(forall|i: int| 0 <= i < n ==> (a + b)[i] == a[i]);
        if n == a.len() {
            lemma_leading_word_len_is(a + b, n);
            assert((a + b).take(n) == a);
            assert((a + b).skip(n) == b);
            assert(a.take(n) == a);
            assert(words(a.skip(n)) == Seq::<Seq<char>>::empty());
        } else {
            lemma_leading_word_len_is(a + b, n);
            let rest = a.skip(n);
            assert((a + b).take(n) == a.take(n));
            assert((a + b).skip(n) == rest + b);
            lemma_words_concat(rest, b);
            assert(seq![a.take(n)] + (words(rest) + words(b)) == (seq![a.take(n)] + words(rest))
                + words(b));
        }
    }
}

/// Whether `w` can be a word: it has at least one character, and none that
/// is whitespace.
pub open spec fn is_word(w: Seq<char>) -> bool {
    &&& w.len() > 0
    &&& forall|j: int| 0 <= j < w.len() ==> !is_whitespace_char(#[trigger] w[j])
}

/// Every word of a text has at least one character, and none that is
/// whitespace.
pub proof fn lemma_words_are_words(s: Seq<char>)
    ensures
        forall|i: int| 0 <= i < words(s).len() ==> is_word(#[trigger] words(s)[i]),
    decreases s.len(),
{
    if s.len() == 0 {
        // No text, no words.
    } else if is_whitespace_char(s[0]) {
        lemma_words_are_words(s.drop_first());
        assert(words(s) == words(s.drop_first()));
    } else {
        lemma_leading_word_len(s);
        let n = leading_word_len(s) as int;
        let rest = words(s.skip(n));
        lemma_words_are_words(s.skip(n));
        assert(is_word(s.take(n)));
        assert forall|i: int| 0 <= i < words(s).len() implies is_word(#[trigger] words(s)[i]) by {
            if i > 0 {
                assert(words(s)[i] == rest[i - 1]);
            }
        }
    }
}

/// A whitespace character at the end of a text adds no word to it.
pub(crate) proof fn lemma_words_push_whitespace(a: Seq<char>, c: char)
    requires
        is_whitespace_char(c),
    ensures
        words(a.push(c)) == words(a),
{
    let blank = seq![c];
    assert(a.push(c) == a + blank);
    lemma_words_concat(a, blank);
    assert(words(blank.drop_first()) == Seq::<Seq<char>>::empty());
}

/// A run `w` of characters that are not whitespace, put behind a text that is
/// empty or ends with whitespace, adds itself as the last word, if it has any
/// character.
pub(crate) proof fn lemma_words_push_word(a: Seq<char>, w: Seq<char>)
    requires
        a.len() == 0 || is_whitespace_char(a.last()),
        forall|i: int| 0 <= i < w.len() ==> !is_whitespace_char(#[trigger] w[i]),
    ensures
        words(a + w) == if w.len() > 0 {
            words(a).push(w)
        } else {
            words(a)
        },
{
    lemma_words_concat(a, w);
    if w.len() > 0 {
        lemma_words_of_one_word(w);
    }
}

/// The character of the decimal digit `d`.
pub open spec fn digit_char(d: nat) -> char {
    ('0' as nat + d) as char
}

/// The decimal numeral of `n`, without zeros in front.
pub open spec fn decimal(n: nat) -> Seq<char>
    decreases n,
{
    if n < 10 {
        seq![digit_char(n)]
    } else {
        decimal(n / 10).push(digit_char(n % 10))
    }
}

/// The character of the decimal digit `d`.
fn digit(d: u8) -> (c: char)
    requires
        d < 10,
    ensures
        c == digit_char(d as nat),
{
    // 48 is the code of '0'.
    (48u8 + d) as char
}

/// The decimal numeral of `n`, without zeros in front.
pub fn decimal_string(n: u8) -> (numeral: String)
    ensures
        numeral@ == decimal(n as nat),
{
    proof {
        reveal_with_fuel(decimal, 3);
    }
    let mut numeral = String::new();
    if n >= 100 {
        numeral.push(digit(n / 100));
    }
    if n >= 10 {
        numeral.push(digit((n / 10) % 10));
    }
    numeral.push(digit(n % 10));
    numeral
}

} // verus!
