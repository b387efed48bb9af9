use caesar_cipher::cipher::{CaesarCipher, ASCII_ALPHABET_LEN};
use caesar_cipher::cracker::{
    apply_ascii_dict_attack, apply_ascii_freq_attack, count_known_words, crack, dict_scores,
    freq_attack_with_table, freq_scores, report, run, Attack, Config,
};
use caesar_cipher::dictionary::{load_dictionary, Dictionary};
use caesar_cipher::english::{FREQUENCY_SCALE, FREQUENCY_TABLE, POPULAR_ENGLISH_WORDS};
use caesar_cipher::frequency::{
    deviation, get_freq_distribution, CharCounter, FreqDistribution, FrequencyTable,
};
use std::path::PathBuf;

fn create_test_dictionary() -> Dictionary {
    Dictionary::from_words(
        vec![
            "the", "quick", "brown", "fox", "jumps", "over", "lazy", "dog", "hello", "world",
        ]
        .into_iter()
        .map(String::from)
        .collect(),
    )
}

fn dictionary_of(words: &[&str]) -> Dictionary {
    Dictionary::from_words(words.iter().map(|w| w.to_string()).collect())
}

fn values(distribution: &FreqDistribution) -> Vec<f64> {
    (0..ASCII_ALPHABET_LEN)
        .map(|c| {
            distribution.numerator(char::from(c)) as f64 / distribution.denominator() as f64
        })
        .collect()
}

/// A table that gives the whole weight to one character.
fn table_for(c: char) -> FrequencyTable {
    let mut weights = vec![0u32; 128];
    weights[c as usize] = FREQUENCY_SCALE;
    FrequencyTable::new(weights).unwrap()
}

#[test]
fn load_dictionary_succeeds_on_valid_file() {
    let result = load_dictionary();

    // Assuming the dictionary is not empty
    assert!(!result.is_empty());
    // Assuming some common words exist in the dictionary
    assert!(result.contains("the"));
    assert!(result.contains("and"));
}

#[test]
fn load_dictionary_filters_empty_lines() {
    let total_lines = POPULAR_ENGLISH_WORDS.lines().count();
    let result = load_dictionary();

    // Verify that empty lines are filtered out
    assert!(result.len() <= total_lines);
    assert!(!result.contains(""));
    assert!(!result.contains(" "));
}

#[test]
fn apply_ascii_dict_attack_returns_correct_key_on_valid_text() {
    let dictionary = create_test_dictionary();
    // "hello world" shifted by 1
    let ciphertext = "ifmmp!xpsme";
    let shift = apply_ascii_dict_attack(ciphertext, &dictionary);

    // Given the encryption key is 1, the decryption key is -1 % ASCII_ALPHABET_LEN = 127
    assert_eq!(shift, Some(127));
    // Verify decryption works
    let cipher = CaesarCipher::new(shift.unwrap() as i32);
    assert_eq!(cipher.apply_cipher(ciphertext), "hello world");
}

#[test]
fn apply_ascii_dict_attack_returns_none_when_no_matching_words() {
    let dictionary = create_test_dictionary();
    // Random text that won't match any dictionary words
    let ciphertext = "xyz123 abc456";
    let shift = apply_ascii_dict_attack(ciphertext, &dictionary);

    // Should return None when no matches found
    assert_eq!(shift, None);
}

#[test]
fn apply_ascii_dict_attack_returns_a_correct_key_on_multiple_matches() {
    let dictionary = create_test_dictionary();
    // "the fox" shifted by 3
    let ciphertext = "wkh#ir{";
    let shift = apply_ascii_dict_attack(ciphertext, &dictionary);

    assert_eq!(shift, Some(125));
    let cipher = CaesarCipher::new(shift.unwrap() as i32);
    assert_eq!(cipher.apply_cipher(ciphertext), "the fox");
}

#[test]
fn apply_ascii_dict_attack_returns_none_on_empty_str_ciphertext() {
    let dictionary = create_test_dictionary();
    let ciphertext = "";
    let shift = apply_ascii_dict_attack(ciphertext, &dictionary);

    assert_eq!(shift, None);
}

#[test]
fn get_freq_distribution_returns_zeroes_on_empty_char_counter() {
    let char_counter = CharCounter::new();
    let distribution = values(&get_freq_distribution(&char_counter));

    assert_eq!(distribution.len(), ASCII_ALPHABET_LEN.into());
    assert!(distribution.iter().all(|&x| x == 0.0));
}

#[test]
fn get_freq_distribution_returns_correct_dist_when_char_counter_has_single_char() {
    let char_counter = CharCounter::from_text("a");
    assert_eq!(char_counter.count('a'), 1);
    let distribution = values(&get_freq_distribution(&char_counter));

    assert_eq!(distribution.len(), ASCII_ALPHABET_LEN.into());
    assert_eq!(distribution[97], 1.0); // 'a' is ASCII 97
    assert_eq!(distribution.iter().sum::<f64>(), 1.0);
}

#[test]
fn get_freq_distribution_returns_correct_dist_when_char_counter_has_multiple_chars() {
    let char_counter = CharCounter::from_text("aabc");
    assert_eq!(char_counter.count('a'), 2);
    assert_eq!(char_counter.count('b'), 1);
    assert_eq!(char_counter.count('c'), 1);
    let distribution = values(&get_freq_distribution(&char_counter));

    assert_eq!(distribution.len(), ASCII_ALPHABET_LEN.into());
    assert_eq!(distribution[97], 0.5); // 'a' frequency
    assert_eq!(distribution[98], 0.25); // 'b' frequency
    assert_eq!(distribution[99], 0.25); // 'c' frequency
    assert_eq!(distribution.iter().sum::<f64>(), 1.0);
}

#[test]
fn apply_ascii_freq_attack_returns_key_when_given_basic_text() {
    let ciphertext =
        "The ancient manuscript revealed a forgotten story about a small village in \
    the mountains. Every winter, when the snow reached the windowsills, the villagers would \
    gather in the town hall to share tales and warm soup. They had a peculiar tradition of \
    writing their hopes for spring on paper lanterns, which they would release into the night \
    sky on the longest evening of winter. Year after year, this ritual brought the community \
    together, creating bonds that lasted generations.";
    let shift = 3;
    let encrypted = CaesarCipher::new(shift).apply_cipher(ciphertext);
    let detected_shift = -i32::from(apply_ascii_freq_attack(&encrypted));

    assert_eq!(detected_shift.rem_euclid(ASCII_ALPHABET_LEN.into()), shift);
}

#[test]
fn apply_ascii_freq_attack_returns_zero_on_empty_ciphertext() {
    let ciphertext = "";
    let detected_shift = apply_ascii_freq_attack(ciphertext);

    assert_eq!(detected_shift, 0);
}

#[test]
fn apply_ascii_freq_attack_returns_key_on_non_ascii_text() {
    let ciphertext = "Hello, 世界!";
    let shift = 5;
    let encrypted = CaesarCipher::new(shift).apply_cipher(ciphertext);
    let detected_shift = -i32::from(apply_ascii_freq_attack(&encrypted));

    assert_eq!(detected_shift.rem_euclid(ASCII_ALPHABET_LEN.into()), shift);
}

#[test]
fn count_known_words_splits_on_runs_of_whitespace() {
    let dictionary = create_test_dictionary();
    assert_eq!(count_known_words("", &dictionary), 0);
    assert_eq!(count_known_words("   \t\n ", &dictionary), 0);
    assert_eq!(count_known_words("the", &dictionary), 1);
    assert_eq!(count_known_words("  the   quick\tbrown\n\nfox  ", &dictionary), 4);
    assert_eq!(count_known_words("the\u{a0}fox\u{2003}dog\u{3000}cat", &dictionary), 3);
    assert_eq!(count_known_words("thefox", &dictionary), 0);
}

#[test]
fn count_known_words_is_exact_about_case_and_punctuation() {
    let dictionary = create_test_dictionary();
    assert_eq!(count_known_words("The fox. the fox", &dictionary), 2);
    assert_eq!(count_known_words("hello, world!", &dictionary), 0);
}

#[test]
fn count_known_words_counts_a_repeated_word_each_time() {
    let dictionary = create_test_dictionary();
    assert_eq!(count_known_words("dog dog dog cat dog", &dictionary), 4);
}

#[test]
fn dict_scores_has_a_score_for_every_shift() {
    let dictionary = create_test_dictionary();
    let scores = dict_scores("ifmmp!xpsme", &dictionary);
    assert_eq!(scores.len(), 128);
    assert_eq!(scores[127], 2);
    assert_eq!(scores.iter().filter(|&&n| n != 0).count(), 1);
    assert!(dict_scores("", &dictionary).iter().all(|&n| n == 0));
}

#[test]
fn dict_attack_prefers_the_lowest_of_equal_shifts() {
    // "b" is "a" under the shift 127 and "c" under the shift 1.
    let dictionary = dictionary_of(&["a", "c"]);
    let scores = dict_scores("b", &dictionary);
    assert_eq!(scores[1], 1);
    assert_eq!(scores[127], 1);
    assert_eq!(apply_ascii_dict_attack("b", &dictionary), Some(1));
}

#[test]
fn dict_attack_prefers_the_highest_score() {
    // A no-break space is not ASCII and stays a separator under every shift.
    // Under the shift 0 one word is known, under the shift 1 two are.
    let dictionary = dictionary_of(&["ab", "bc", "yz"]);
    let scores = dict_scores("ab\u{a0}xy", &dictionary);
    assert_eq!(scores[0], 1);
    assert_eq!(scores[1], 2);
    assert_eq!(apply_ascii_dict_attack("ab\u{a0}xy", &dictionary), Some(1));
}

#[test]
fn dict_attack_shifts_the_separators_too() {
    // The space moves with the letters: under the shift 1 it is '!', and
    // "bc!yz" is one word.
    let dictionary = dictionary_of(&["ab", "bc", "yz"]);
    let scores = dict_scores("ab xy", &dictionary);
    assert_eq!(scores[0], 1);
    assert_eq!(scores[1], 0);
    assert_eq!(apply_ascii_dict_attack("ab xy", &dictionary), Some(0));
}

#[test]
fn dict_attack_finds_nothing_in_text_without_ascii() {
    let dictionary = create_test_dictionary();
    assert_eq!(apply_ascii_dict_attack("世界 世界", &dictionary), None);
}

#[test]
fn dict_attack_finds_nothing_with_an_empty_dictionary() {
    assert_eq!(apply_ascii_dict_attack("the fox", &Dictionary::new()), None);
}

#[test]
fn dict_attack_sees_unshifted_words_beside_non_ascii_ones() {
    let dictionary = dictionary_of(&["世界", "fox"]);
    let scores = dict_scores("世界\u{a0}gpy", &dictionary);
    assert_eq!(scores[0], 1);
    assert_eq!(scores[127], 2);
    assert_eq!(apply_ascii_dict_attack("世界\u{a0}gpy", &dictionary), Some(127));
}

#[test]
fn char_counter_counts_ascii_only() {
    let counter = CharCounter::from_text("aé a世");
    assert_eq!(counter.count('a'), 2);
    assert_eq!(counter.count(' '), 1);
    assert_eq!(counter.count('é'), 0);
    assert_eq!(counter.count('b'), 0);
    assert_eq!(counter.sum(), 3);
    assert!(!counter.is_empty());
    assert!(CharCounter::from_text("世界").is_empty());
    assert!(CharCounter::new().is_empty());
    assert_eq!(CharCounter::new().sum(), 0);
}

#[test]
fn distribution_is_count_over_total() {
    let distribution = get_freq_distribution(&CharCounter::from_text("aab世"));
    assert_eq!(distribution.denominator(), 3);
    assert_eq!(distribution.numerator('a'), 2);
    assert_eq!(distribution.numerator('b'), 1);
    assert_eq!(distribution.numerator('c'), 0);
    assert_eq!(distribution.numerator('世'), 0);
}

#[test]
fn distribution_of_nothing_is_zero_over_one() {
    let distribution = get_freq_distribution(&CharCounter::from_text("世界"));
    assert_eq!(distribution.denominator(), 1);
    for code in 0..ASCII_ALPHABET_LEN {
        assert_eq!(distribution.numerator(char::from(code)), 0);
    }
}

#[test]
fn distribution_numerators_add_up_to_the_denominator() {
    for text in ["a", "hello world", "Grüße, 世界!", "\x00\x7f\x7f"] {
        let distribution = get_freq_distribution(&CharCounter::from_text(text));
        let sum: u64 = (0..ASCII_ALPHABET_LEN)
            .map(|c| distribution.numerator(char::from(c)))
            .sum();
        assert_eq!(sum, distribution.denominator());
    }
}

#[test]
fn frequency_table_needs_128_entries() {
    assert!(FrequencyTable::new(vec![0; 127]).is_none());
    assert!(FrequencyTable::new(vec![0; 129]).is_none());
    assert!(FrequencyTable::new(Vec::new()).is_none());
    let table = FrequencyTable::new((0..128).collect()).unwrap();
    assert_eq!(table.weight('\x00'), 0);
    assert_eq!(table.weight('a'), 97);
    assert_eq!(table.weight('\x7f'), 127);
    assert_eq!(table.weight('é'), 0);
}

#[test]
fn english_table_is_the_reference_table() {
    let table = FrequencyTable::english();
    for code in 0..ASCII_ALPHABET_LEN {
        assert_eq!(table.weight(char::from(code)), FREQUENCY_TABLE[code as usize]);
    }
    assert_eq!(table.weight(' '), 167_564_444);
    assert_eq!(table.weight('e'), 86_102_295);
    assert!(table.weight('e') > table.weight('t'));
    assert!(table.weight('t') > table.weight('z'));
}

#[test]
fn deviation_is_the_scaled_sum_of_absolute_differences() {
    // Reference: all of the weight on 'a'. Text: half 'a', half 'b'.
    // |1 - 1/2| + |0 - 1/2| = 1, times the scale, times the denominator 2.
    let distribution = get_freq_distribution(&CharCounter::from_text("ab"));
    assert_eq!(deviation(&table_for('a'), &distribution), 2_000_000_000);
    // The same text against a reference that it matches in one half.
    let distribution = get_freq_distribution(&CharCounter::from_text("aa"));
    assert_eq!(deviation(&table_for('a'), &distribution), 0);
    // Nothing counted: every frequency is zero, over the denominator 1.
    let distribution = get_freq_distribution(&CharCounter::new());
    assert_eq!(deviation(&table_for('a'), &distribution), 1_000_000_000);
}

#[test]
fn deviation_handles_a_table_of_largest_weights() {
    let table = FrequencyTable::new(vec![u32::MAX; 128]).unwrap();
    let distribution = get_freq_distribution(&CharCounter::from_text("a"));
    // 127 codes with |max * 1 - 0| and one with |max * 1 - scale|.
    let expected = 127 * (u32::MAX as u128) + (u32::MAX as u128 - 1_000_000_000);
    assert_eq!(deviation(&table, &distribution), expected);
}

#[test]
fn freq_scores_has_a_score_for_every_shift() {
    let table = table_for('b');
    let scores = freq_scores("a", &table);
    assert_eq!(scores.len(), 128);
    assert_eq!(scores[1], 0);
    for (shift, &score) in scores.iter().enumerate() {
        if shift != 1 {
            assert_eq!(score, 2_000_000_000);
        }
    }
}

#[test]
fn freq_attack_finds_the_shift_that_matches_the_table() {
    assert_eq!(freq_attack_with_table("a", &table_for('b')), 1);
    assert_eq!(freq_attack_with_table("bbb", &table_for('a')), 127);
    assert_eq!(freq_attack_with_table("é~é", &table_for('\x02')), 4);
}

#[test]
fn freq_attack_prefers_the_lowest_of_equal_shifts() {
    // With no weight anywhere every shift is equally far from the table.
    let flat = FrequencyTable::new(vec![0; 128]).unwrap();
    assert_eq!(freq_attack_with_table("hello", &flat), 0);
    // "ac" matches a table with its weight on 'b' equally well under the
    // shifts 1 and 127.
    let scores = freq_scores("ac", &table_for('b'));
    assert_eq!(scores[1], scores[127]);
    assert!(scores[1] < scores[0]);
    assert_eq!(freq_attack_with_table("ac", &table_for('b')), 1);
}

#[test]
fn freq_attack_returns_zero_without_ascii() {
    assert_eq!(apply_ascii_freq_attack("世界"), 0);
    assert_eq!(apply_ascii_freq_attack("éàü\u{80}"), 0);
    assert_eq!(freq_attack_with_table("世界", &table_for('a')), 0);
}

#[test]
fn crack_uses_the_chosen_attack() {
    let ciphertext = CaesarCipher::new(1).apply_cipher("hello world");
    assert_eq!(crack(Attack::Dictionary, &ciphertext), Some(127));
    assert_eq!(crack(Attack::Dictionary, ""), None);
    assert_eq!(crack(Attack::Frequency, ""), Some(0));
    assert_eq!(
        crack(Attack::Frequency, &ciphertext),
        Some(apply_ascii_freq_attack(&ciphertext))
    );
}

#[test]
fn report_names_the_shift() {
    assert_eq!(report(Some(0)), "candidate key: 0");
    assert_eq!(report(Some(7)), "candidate key: 7");
    assert_eq!(report(Some(10)), "candidate key: 10");
    assert_eq!(report(Some(99)), "candidate key: 99");
    assert_eq!(report(Some(100)), "candidate key: 100");
    assert_eq!(report(Some(127)), "candidate key: 127");
    assert_eq!(report(Some(255)), "candidate key: 255");
    assert_eq!(report(None), "unable to find candidate key");
}

#[test]
fn run_reports_the_outcome() {
    let ciphertext = CaesarCipher::new(1).apply_cipher("hello world");
    let config = Config::new(Some(PathBuf::from("encrypted.txt")), Attack::Dictionary);
    assert_eq!(run(&config, &ciphertext), "candidate key: 127");
    assert_eq!(run(&config, ""), "unable to find candidate key");
    let config = Config::new(None, Attack::Frequency);
    assert_eq!(run(&config, ""), "candidate key: 0");
}

#[test]
fn cracker_config_keeps_what_it_is_given() {
    let config = Config::new(Some(PathBuf::from("encrypted.txt")), Attack::Frequency);
    assert_eq!(config.ciphertext_file, Some(PathBuf::from("encrypted.txt")));
    assert_eq!(config.attack_type, Attack::Frequency);
    let config = Config::new(None, Attack::Dictionary);
    assert_eq!(config.ciphertext_file, None);
    assert_eq!(config.attack_type, Attack::Dictionary);
}
