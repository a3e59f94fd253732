use pdf_studier::fuzzy::{fuzzy_match, fuzzy_match_word, is_whitespace, split_words};

#[test]
fn fuzzy_match_word_finds_letters_in_order() {
    assert!(fuzzy_match_word("hello", "hlo"));
    assert!(fuzzy_match_word("hello", "hello"));
    assert!(fuzzy_match_word("hello", ""));
    assert!(fuzzy_match_word("", ""));
    assert!(!fuzzy_match_word("hello", "olh"));
    assert!(!fuzzy_match_word("", "a"));
    assert!(!fuzzy_match_word("hello", "helloo"));
}

#[test]
fn fuzzy_match_needs_every_filter_word_in_some_word() {
    assert!(fuzzy_match("the rust programming language", "rst lang"));
    assert!(fuzzy_match("the rust programming language", "lang rst"));
    assert!(fuzzy_match("the rust programming language", ""));
    assert!(fuzzy_match("the rust programming language", "   "));
    assert!(!fuzzy_match("the rust programming language", "rst zz"));
    // A filter word must fit inside one candidate word.
    assert!(!fuzzy_match("ab cd", "ac"));
    assert!(!fuzzy_match("", "a"));
    assert!(fuzzy_match("", ""));
}

#[test]
fn fuzzy_match_splits_on_unicode_white_space() {
    assert!(fuzzy_match("deep\u{2003}learning", "lrn"));
    assert!(fuzzy_match("deep\tlearning\nbook", "dp bk"));
    assert!(!fuzzy_match("deep\u{00a0}learning", "dl"));
    assert!(fuzzy_match("deeplearning", "dl"));
}

#[test]
fn is_whitespace_agrees_with_std() {
    for c in (0u32..=0x10FFFF).filter_map(char::from_u32) {
        assert_eq!(is_whitespace(c), c.is_whitespace(), "{:?}", c);
    }
}

#[test]
fn split_words_takes_maximal_runs() {
    let cs: Vec<char> = "  a bc\t\td ".chars().collect();
    let words = split_words(&cs);
    assert_eq!(words, vec![vec!['a'], vec!['b', 'c'], vec!['d']]);
    assert!(split_words(&Vec::new()).is_empty());
    assert!(split_words(&vec![' ', '\n']).is_empty());
}
