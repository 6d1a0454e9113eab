use media_browser::text::{replace_all, to_chars};

#[test]
fn a_string_gives_its_characters_in_order() {
    for s in ["", "a", "häuser/ü.png", "~/x"] {
        assert_eq!(to_chars(s), s.chars().collect::<Vec<char>>());
    }
}

#[test]
fn replacing_takes_the_leftmost_match_first() {
    assert_eq!(replace_all("aaa", "aa", "b"), "ba");
    assert_eq!(replace_all("abab", "ab", ""), "");
    assert_eq!(replace_all("x", "x", "xx"), "xx");
}
