use qwen_engine::palindrome::{is_palindrome, reads_both_ways};
use qwen_engine::text::lower;

#[test]
fn test_simple_palindromes() {
    assert!(is_palindrome("racecar"));
    assert!(is_palindrome("level"));
    assert!(is_palindrome("madam"));
}

#[test]
fn test_non_palindromes() {
    assert!(!is_palindrome("hello"));
    assert!(!is_palindrome("rust"));
    assert!(!is_palindrome("openai"));
}

#[test]
fn test_case_insensitive() {
    assert!(is_palindrome("RaceCar"));
    assert!(is_palindrome("LeVeL"));
    assert!(is_palindrome("Madam"));
}

#[test]
fn test_with_spaces_and_punctuation() {
    assert!(is_palindrome("A man a plan a canal Panama"));
    assert!(is_palindrome("Was it a car or a cat I saw"));
    assert!(is_palindrome("No 'x' in Nixon"));
    assert!(!is_palindrome("Hello, world!"));
}

#[test]
fn test_empty_and_single_char() {
    assert!(is_palindrome(""));
    assert!(is_palindrome("a"));
    assert!(is_palindrome("A"));
}

#[test]
fn test_non_alphanumeric_only() {
    assert!(is_palindrome("!!!"));
    assert!(is_palindrome("   "));
    assert!(is_palindrome("..."));
}

#[test]
fn test_long_palindrome() {
    let s = "abccba";
    assert!(is_palindrome(s));

    let s = "abcddcba";
    assert!(is_palindrome(s));

    let s = "12345678987654321";
    assert!(is_palindrome(s));
}

#[test]
fn letters_outside_ascii_count_whatever_their_case() {
    assert!(is_palindrome("été"));
    assert!(is_palindrome("Été"));
    assert!(is_palindrome("\u{C9}\u{E9}"));
    assert!(is_palindrome("ÄbBä"));
    assert!(!is_palindrome("Éa"));
    assert!(!is_palindrome("éÈ"));
    assert!(!is_palindrome("ab1"));
}

#[test]
fn a_letter_of_several_small_characters_is_one_letter() {
    // The small form of this capital is two characters long.
    assert!(is_palindrome("\u{130}"));
    assert!(is_palindrome("a\u{130}A"));
    assert!(!is_palindrome("\u{130}i"));
    assert!(!is_palindrome("i\u{130}"));
}

#[test]
fn reversal_punctuation_and_ascii_case_do_not_count() {
    for text in ["Was it a car?", "Was it a car or a cat I saw", "Éa, \u{C9}", "a\u{130}b", "", "!"] {
        let expected = is_palindrome(text);
        assert_eq!(is_palindrome(&text.chars().rev().collect::<String>()), expected);
        assert_eq!(
            is_palindrome(&text.chars().filter(|c| c.is_alphanumeric()).collect::<String>()),
            expected
        );
        assert_eq!(is_palindrome(&text.to_ascii_uppercase()), expected);
    }
}

#[test]
fn only_ascii_capitals_become_small() {
    assert_eq!(lower('Q'), 'q');
    assert_eq!(lower('q'), 'q');
    assert_eq!(lower('7'), '7');
    assert_eq!(lower('Ä'), 'Ä');
}

#[test]
fn both_directions_are_compared() {
    let rows = |text: &str| text.chars().map(|c| vec![c]).collect::<Vec<_>>();
    assert!(reads_both_ways(&rows("aba")));
    assert!(reads_both_ways(&vec![]));
    assert!(!reads_both_ways(&rows("ab")));
    assert!(!reads_both_ways(&rows("abca")));
    assert!(reads_both_ways(&vec![vec!['a', 'b'], vec!['a', 'b']]));
}
