use inode::parse::{is_f32_text, parse_u32};

#[test]
fn parse_u32_like_std() {
    for s in ["42", "+7", "", "+", "-1", "-0", "4294967295", "4294967296", "12a", " 1", "0000000000000000000001", "99999999999999999999"] {
        assert_eq!(parse_u32(s), s.parse::<u32>().ok(), "{:?}", s);
    }
}

#[test]
fn f32_text_like_std() {
    for s in [
        "0.87", "0.00", "0.99", "1", ".5", "5.", "-0.25", "+0.1", "0.1234567", "1000000000",
        "1e-2", "1E2", "2.5e-1", "-2.5E+0", "1e10", "1e39", "-1e400", "7e-99999999999999999999",
        "inf", "INF", "-inf", "+Infinity", "infinity", "NaN", "nan", "-nAn", "iNfInItY",
        "", ".", "-", "+", "abc", "0.x", "1.2.3", " 0.5", "0.5 ", "--1", "+-1", "1e", "1e+", "e5",
        ".e1", "1e1.5", "1ee1", "infin", "infinityy", "na", "nan1", "1_0", "0x10", "١", "∞",
        "0.XX", "high",
    ] {
        assert_eq!(is_f32_text(s), s.parse::<f32>().is_ok(), "{:?}", s);
    }
}
