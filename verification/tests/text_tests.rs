use inode::text::{has_prefix, has_suffix, is_whitespace, join_from, split_whitespace, trim};

#[test]
fn whitespace_is_unicode_white_space() {
    for c in [' ', '\t', '\n', '\r', '\u{b}', '\u{c}', '\u{85}', '\u{a0}', '\u{2003}', '\u{3000}'] {
        assert!(is_whitespace(c), "{:?}", c);
        assert_eq!(is_whitespace(c), c.is_whitespace());
    }
    for c in ['a', '0', '_', '\u{1c}', '\u{200b}', 'é'] {
        assert!(!is_whitespace(c), "{:?}", c);
        assert_eq!(is_whitespace(c), c.is_whitespace());
    }
}

#[test]
fn trim_drops_both_ends() {
    assert_eq!(trim("  hello world \n"), "hello world");
    assert_eq!(trim("\u{3000}x\u{a0}"), "x");
    assert_eq!(trim("   "), "");
    assert_eq!(trim(""), "");
    assert_eq!(trim("abc"), "abc");
}

#[test]
fn split_whitespace_matches_std() {
    for line in ["publish  topic   hello  world", "  a\tb\nc  ", "", "   ", "one", "x\u{3000}y"] {
        let expected: Vec<String> = line.split_whitespace().map(|s| s.to_string()).collect();
        assert_eq!(split_whitespace(line), expected);
    }
}

#[test]
fn join_from_joins_the_rest() {
    let ws: Vec<String> = ["slm", "what", "is", "it"].iter().map(|s| s.to_string()).collect();
    assert_eq!(join_from(&ws, 1), "what is it");
    assert_eq!(join_from(&ws, 3), "it");
    assert_eq!(join_from(&ws, 4), "");
}

#[test]
fn affixes() {
    assert!(has_prefix("```json{}", "```json"));
    assert!(!has_prefix("``json", "```json"));
    assert!(has_prefix("abc", ""));
    assert!(has_suffix("{}```", "```"));
    assert!(!has_suffix("``", "```"));
}
