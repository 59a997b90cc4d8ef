use memo_store::text::{chars_of, contains_keyword};

fn contains(text: &str, keyword: &str) -> bool {
    contains_keyword(&chars_of(text), &chars_of(keyword))
}

#[test]
fn plain_substring() {
    assert!(contains("buy milk", "milk"));
    assert!(contains("buy milk", "uy mi"));
    assert!(!contains("buy milk", "eggs"));
}

#[test]
fn empty_keyword_matches_everything() {
    assert!(contains("buy milk", ""));
    assert!(contains("", ""));
}

#[test]
fn keyword_longer_than_text_never_matches() {
    assert!(!contains("", "a"));
    assert!(!contains("ab", "abc"));
}

#[test]
fn ascii_case_is_ignored() {
    assert!(contains("BUY MILK", "milk"));
    assert!(contains("buy milk", "MILK"));
    assert!(contains("Buy Milk", "bUy mIlK"));
}

#[test]
fn non_ascii_case_is_respected() {
    assert!(contains("stra\u{df}e caf\u{e9}", "caf\u{e9}"));
    assert!(!contains("caf\u{e9}", "caf\u{c9}"));
}

#[test]
fn match_at_the_edges() {
    assert!(contains("milk", "milk"));
    assert!(contains("milky way", "milk"));
    assert!(contains("skim milk", "milk"));
}
