use rinton::levenshtein::levenshtein;

#[test]
fn test_levenshtein() {
    assert_eq!(levenshtein("a", "a"), 0);
    assert_eq!(levenshtein("a", "b"), 1);
    assert_eq!(levenshtein("kitten", "sitting"), 3);
    assert_eq!(levenshtein("あいうえお", "あいうえお"), 0);
    assert_eq!(levenshtein("ねこ", "いぬ"), 2);
    assert_eq!(levenshtein("こんにちは", "こんばんは"), 2);
}

#[test]
fn distance_to_the_empty_text_is_the_length() {
    assert_eq!(levenshtein("", ""), 0);
    assert_eq!(levenshtein("", "abc"), 3);
    assert_eq!(levenshtein("abcd", ""), 4);
    assert_eq!(levenshtein("", "あい"), 2);
}

#[test]
fn distance_counts_insertions_deletions_and_replacements() {
    assert_eq!(levenshtein("flaw", "lawn"), 2);
    assert_eq!(levenshtein("abc", "abcd"), 1);
    assert_eq!(levenshtein("abcd", "abc"), 1);
    assert_eq!(levenshtein("sunday", "saturday"), 3);
    assert_eq!(levenshtein("saturday", "sunday"), 3);
}
