//! The shift transform: every ASCII character moves by a fixed number of
//! positions, wrapping within the 128 codes; every other character stays.

use vstd::prelude::*;

verus! {

/// The number of ASCII codes, and so the number of distinct shifts.
pub const ASCII_ALPHABET_LEN: u8 = 128;

/// Whether `c` is one of the 128 ASCII characters.
pub open spec fn is_ascii_char(c: char) -> bool {
    (c as int) < 128
}

/// The code of a character is never negative.
pub(crate) proof fn lemma_char_code(c: char)
    ensures
        0 <= c as int,
{
}

/// The code of `c` if it is an ASCII character.
pub fn ascii_code(c: char) -> (code: Option<u8>)
    ensures
        match code {
            Some(code) => is_ascii_char(c) && code == c as int,
            None => !is_ascii_char(c),
        },
{
    let code: u32 = c as u32;
    if code < 128 {
        Some(code as u8)
    } else {
        None
    }
}

/// The character that `c` becomes under `shift`.
pub open spec fn shifted_char(c: char, shift: int) -> char {
    if is_ascii_char(c) {
        (((c as int) + shift) % 128) as char
    } else {
        c
    }
}

/// The text that `text` becomes under `shift`, character by character.
pub open spec fn shifted_text(text: Seq<char>, shift: int) -> Seq<char> {
    text.map_values(|c: char| shifted_char(c, shift))
}

/// A Caesar cipher with a fixed shift.
pub struct CaesarCipher {
    /// The number of positions by which every ASCII character moves. Any
    /// integer is a valid shift; only its remainder modulo 128 matters.
    pub shift: i32,
}

impl CaesarCipher {
    /// A cipher that moves every ASCII character by `shift` positions.
    pub fn new(shift: i32) -> (cipher: Self)
        ensures
            cipher.shift == shift,
    {
        CaesarCipher { shift }
    }

    /// Moves every ASCII character of `text` by the cipher's shift.
    pub fn apply_cipher(&self, text: &str) -> (out: String)
        ensures
            out@ == shifted_text(text@, self.shift as int),
    {
        let mut out = String::new();
        for c in it: text.chars()
            invariant
                it.seq() == text@,
                out@ == shifted_text(text@.take(it.index()), self.shift as int),
        {
            let moved = self.shift_char(c, self.shift);
            out.push(moved);
        }
        out
    }

    /// Moves one character by `shift` positions.
    pub fn shift_char(&self, c: char, shift: i32) -> (r: char)
        ensures
            r == shifted_char(c, shift as int),
    {
        match ascii_code(c) {
            Some(code) => {
                let moved: i64 = code as i64 + shift as i64;
                match moved.checked_rem_euclid(128) {
                    Some(rem) => (rem as u8) as char,
                    None => c,
                }
            },
            None => c,
        }
    }
}

/// What one run of the cipher needs: where the text comes from, where the
/// result goes, and the cipher itself.
pub struct Config {
    /// The file to read the text from; `None` stands for standard input.
    pub input_file: Option<std::path::PathBuf>,
    /// The file to write the result to; `None` stands for standard output.
    pub output_file: Option<std::path::PathBuf>,
    /// The cipher that is applied to the text.
    pub cipher: CaesarCipher,
}

impl Config {
    /// The configuration of a run that applies the shift `key`.
    pub fn new(
        key: i32,
        input_file: Option<std::path::PathBuf>,
        output_file: Option<std::path::PathBuf>,
    ) -> (config: Self)
        ensures
            config.cipher.shift == key,
            config.input_file == input_file,
            config.output_file == output_file,
    {
        Config { input_file, output_file, cipher: CaesarCipher::new(key) }
    }
}

/// What one run of the cipher makes of the text that it has read: the text
/// moved by the configured shift. Reading the text and writing the result are
/// left to the caller.
pub fn run(config: &Config, input: &str) -> (output: String)
    ensures
        output@ == shifted_text(input@, config.cipher.shift as int),
{
    config.cipher.apply_cipher(input)
}

/// A shifted character is an ASCII character if and only if the character
/// it comes from is one.
pub proof fn lemma_shift_keeps_ascii(c: char, shift: int)
    ensures
        is_ascii_char(shifted_char(c, shift)) == is_ascii_char(c),
        is_ascii_char(c) ==> shifted_char(c, shift) as int == (c as int + shift) % 128,
{
}

/// Shifting a text with one more character at its end.
pub(crate) proof fn lemma_shifted_text_push(text: Seq<char>, c: char, shift: int)
    ensures
        shifted_text(text.push(c), shift) == shifted_text(text, shift).push(
            shifted_char(c, shift),
        ),
{
}

/// Shifting by `shift` and then by `-shift` gives every text back: every
/// ASCII text, and any other text too, since characters that are not ASCII
/// never move.
pub proof fn lemma_shift_inverts(text: Seq<char>, shift: int)
    ensures
        shifted_text(shifted_text(text, shift), -shift) == text,
{
    let there = shifted_text(text, shift);
    let back = shifted_text(there, -shift);
    assert forall|i: int| 0 <= i < text.len() implies back[i] == text[i] by {
        lemma_char_round_trip(text[i], shift);
    }
}

/// One character, shifted by `shift` and then by `-shift`, is itself again.
pub proof fn lemma_char_round_trip(c: char, shift: int)
    ensures
        shifted_char(shifted_char(c, shift), -shift) == c,
{
    lemma_shift_keeps_ascii(c, shift);
}

/// The shift is periodic with period 128: a shift and its remainder modulo
/// 128 give the same text.
pub proof fn lemma_shift_periodic(text: Seq<char>, shift: int)
    ensures
        shifted_text(text, shift) == shifted_text(text, shift % 128),
{
    assert forall|i: int| 0 <= i < text.len() implies shifted_char(text[i], shift)
        == shifted_char(text[i], shift % 128) by {
        lemma_char_shift_periodic(text[i], shift);
    }
}

/// A shift and its remainder modulo 128 move a character to the same place.
pub proof fn lemma_char_shift_periodic(c: char, shift: int)
    ensures
        shifted_char(c, shift) == shifted_char(c, shift % 128),
{
}

/// A character that is not ASCII stays where it is, whatever the shift; a
/// shifted text is as long as the text it comes from.
pub proof fn lemma_shift_fixes_non_ascii(text: Seq<char>, shift: int)
    ensures
        shifted_text(text, shift).len() == text.len(),
        forall|i: int|
            0 <= i < text.len() && !is_ascii_char(text[i]) ==> #[trigger] shifted_text(
                text,
                shift,
            )[i] == text[i],
{
}

} // verus!
