use clipster::{content_hash, preview};

#[test]
fn preview_collapses_whitespace_to_one_line() {
    assert_eq!(preview("  fn main() {\n    todo!()\n}", 100), "fn main() { todo!() }");
}

#[test]
fn preview_truncates_on_char_boundaries() {
    // Naive byte slicing would panic here.
    assert_eq!(preview("héllo wörld", 5), "héllo…");
}

#[test]
fn preview_leaves_short_content_untouched() {
    assert_eq!(preview("short", 100), "short");
}

#[test]
fn preview_does_not_ellipsize_an_exact_fit() {
    assert_eq!(preview("abcde", 5), "abcde");
    assert_eq!(preview("abcdef", 5), "abcde…");
}

#[test]
fn preview_never_emits_a_space_before_the_ellipsis() {
    assert!(!preview("aaaa bbbb", 5).contains(" …"));
}

#[test]
fn hash_is_stable_and_distinguishing() {
    assert_eq!(content_hash("a"), content_hash("a"));
    assert_ne!(content_hash("a"), content_hash("b"));
}

#[test]
fn every_whitespace_character_collapses() {
    for c in '\0'..=char::MAX {
        let shown = preview(&format!("a{c}b"), 10);
        let expected = if c.is_whitespace() { "a b".to_string() } else { format!("a{c}b") };
        assert_eq!(shown, expected);
    }
}

#[test]
fn preview_of_nothing_is_nothing() {
    assert_eq!(preview("", 10), "");
    assert_eq!(preview(" \n\t", 10), "");
    assert_eq!(preview("a ", 10), "a");
    assert_eq!(preview("a", 0), "…");
    assert_eq!(preview(" ", 0), "");
}

#[test]
fn preview_counts_the_space_before_a_word() {
    assert_eq!(preview("aaaa bbbb", 5), "aaaa…");
    assert_eq!(preview("aaaa bbbb", 6), "aaaa b…");
    assert_eq!(preview("aaaa b", 6), "aaaa b");
}

#[test]
fn hash_is_the_sha_256_digest_in_hexadecimal() {
    assert_eq!(
        content_hash(""),
        "e3b0c44298fc1c149afbf4c8996fb92427ae41e4649b934ca495991b7852b855"
    );
    assert_eq!(
        content_hash("hello"),
        "2cf24dba5fb0a30e26e83b2ac5b9e29e1b161e5c1fa7425e73043362938b9824"
    );
}
