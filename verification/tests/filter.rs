use clipster::filter::score;

#[test]
fn non_matches_are_rejected() {
    assert_eq!(score("git commit", "xyz"), None);
    // Right characters, wrong order.
    assert_eq!(score("abc", "cba"), None);
}

#[test]
fn matching_is_case_insensitive() {
    assert!(score("Git Commit", "git").is_some());
    assert!(score("git commit", "GIT").is_some());
}

#[test]
fn an_empty_query_matches_everything() {
    assert_eq!(score("anything", ""), Some(0));
    assert_eq!(score("anything", "   "), Some(0));
}

#[test]
fn contiguous_beats_scattered() {
    // The scattered haystack has to actually contain the needle as a
    // subsequence, two "m"s included, or this compares against a None.
    let contiguous = score("git commit", "commit").unwrap();
    let scattered = score("cargo omit my item", "commit").unwrap();
    assert!(contiguous > scattered, "{contiguous} !> {scattered}");
}

#[test]
fn an_earlier_match_beats_a_later_one() {
    let early = score("commit template", "commit").unwrap();
    let late = score("the usual commit", "commit").unwrap();
    assert!(early > late, "{early} !> {late}");
}

#[test]
fn a_tight_match_beats_one_spread_across_the_line() {
    // Observed in the picker: "gitcom" hits both of these in two runs,
    // and without a gap penalty the URL edged out the obvious answer.
    let commit = score("commit template git commit --amend --no-edit", "gitcom").unwrap();
    let url = score("https://github.com/rust-lang/rust/pull/128432", "gitcom").unwrap();
    assert!(commit > url, "{commit} !> {url}");
}

#[test]
fn whitespace_in_the_query_is_ignored() {
    assert!(score("gitcommit", "git com").is_some());
}

#[test]
fn multibyte_content_does_not_panic() {
    assert!(score("héllo wörld", "wor").is_none());
    assert!(score("héllo wörld", "hello").is_none());
    assert!(score("héllo wörld", "hll").is_some());
}

#[test]
fn a_score_adds_up() {
    // Three letters, two of them adjacent to the one before, a word's start.
    assert_eq!(score("git commit", "git"), Some(68));
    // A gap of four, and six characters to the end of the match.
    assert_eq!(score("abcdef", "af"), Some(19));
    // The second word's start.
    assert_eq!(score("a b", "b"), Some(18));
    // A gap costs no more than twenty characters do.
    let far = format!("a{}z", "x".repeat(30));
    assert_eq!(score(&far, "az"), Some(-20));
}

#[test]
fn letters_that_lengthen_in_lower_case_match() {
    // One upper-case letter, two characters in lower case.
    assert_eq!(score("\u{130}", "i\u{307}"), Some(43));
    assert_eq!(score("ÄÖ", "äö"), Some(43));
}

#[test]
fn what_stands_before_a_word_is_no_letter_or_number() {
    assert_eq!(score("1b", "b"), Some(10));
    assert_eq!(score("-b", "b"), Some(18));
    assert_eq!(score("éb", "b"), Some(10));
}

#[test]
fn case_and_spaces_leave_a_score_alone() {
    assert_eq!(score("Git Commit", "g i T\tc"), score("git commit", "gitc"));
}

#[test]
fn any_whitespace_in_a_query_is_ignored() {
    for c in ('\0'..=char::MAX).filter(|c| c.is_whitespace()) {
        assert_eq!(score("gitcommit", &format!("git{c}com")), score("gitcommit", "gitcom"));
    }
}
