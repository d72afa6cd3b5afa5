use std::collections::HashMap;

use corpux::counter::counter;
use corpux::lang_detect::lang_detect;
use corpux::ngram::generate_ngrams;
use corpux::word_freq::word_frequency;

#[test]
fn test_counter() {
    let input_lines = vec![
        "This is a sample sentence.".to_string(),
        "Another sentence for testing.".to_string(),
        "This is a sample sentence.".to_string(),
    ];

    let counts = counter(input_lines);

    assert_eq!(counts.word_count, 14);
    assert_eq!(counts.line_count, 3);
    assert_eq!(counts.unique_word_count, 9);
}

#[test]
fn test_lang_detect() {
    let input_lines = vec!["This is a test sentence in English".to_string()];

    let lang_info = lang_detect(input_lines);

    assert_eq!(lang_info.len(), 1);
    let english_info = &lang_info[0];

    assert_eq!(english_info.lang, "English");
    assert_eq!(english_info.total_character, 28);
}

#[test]
fn test_generate_ngrams() {
    let input_lines = vec![
        "This is a test sentence.".to_string(),
        "Another sentence for testing.".to_string(),
    ];

    let ngrams = generate_ngrams(input_lines.clone(), 2);

    let expected_ngrams =
        "This is\nis a\na test\ntest sentence.\nAnother sentence\nsentence for\nfor testing.";

    assert_eq!(ngrams, expected_ngrams);
}

#[test]
fn test_generate_ngrams_insufficient_length() {
    let input_lines = vec!["Hello world!!!".to_string()];
    let ngrams = generate_ngrams(input_lines.clone(), 3);

    let expected_result = "length of sentences are not enough to form an n-gram.".to_string();
    assert_eq!(ngrams, expected_result);
}

#[test]
fn test_word_frequency() {
    let input_lines = vec![
        "This is a test sentence.".to_string(),
        "This is another test sentence.".to_string(),
        "Test, test, and test again!".to_string(),
    ];

    let word_frequencies = word_frequency(input_lines.clone());

    let mut expected_frequencies: HashMap<String, usize> = HashMap::new();
    expected_frequencies.insert("this".to_string(), 2);
    expected_frequencies.insert("is".to_string(), 2);
    expected_frequencies.insert("a".to_string(), 1);
    expected_frequencies.insert("test".to_string(), 5);
    expected_frequencies.insert("sentence".to_string(), 2);
    expected_frequencies.insert("another".to_string(), 1);
    expected_frequencies.insert("and".to_string(), 1);
    expected_frequencies.insert("again".to_string(), 1);

    assert_eq!(word_frequencies, expected_frequencies);
}

#[test]
fn test_word_frequency_empty_input() {
    let input_lines: Vec<String> = Vec::new();
    let word_frequencies = word_frequency(input_lines);

    let expected_frequencies: HashMap<String, usize> = HashMap::new();
    assert_eq!(word_frequencies, expected_frequencies);
}
