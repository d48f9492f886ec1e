use lance_engines::decimal::{format_u64, parse_usize};
use lance_engines::text::{chars_of, is_whitespace, split_once, trim};

fn chars(s: &str) -> Vec<char> {
    s.chars().collect()
}

#[test]
fn whitespace_agrees_with_std_on_every_char() {
    for u in 0..=0x10FFFF_u32 {
        if let Some(c) = char::from_u32(u) {
            assert_eq!(is_whitespace(c), c.is_whitespace(), "U+{u:04X}");
        }
    }
}

#[test]
fn trim_agrees_with_std() {
    let cases = [
        "",
        "   ",
        "abc",
        "  abc  ",
        "\t\n a b \r\n",
        "\u{3000}x\u{85}",
        "\u{200B}x",
        " {\"id\": 1} \n",
    ];
    for s in cases {
        assert_eq!(trim(s), s.trim(), "{s:?}");
    }
}

#[test]
fn chars_of_keeps_every_character() {
    assert_eq!(chars_of("héllo✓"), chars("héllo✓"));
}

#[test]
fn parse_usize_agrees_with_std() {
    let cases = [
        "", "0", "7", "+7", "+", "-", "-0", "-7", "007", "12a", " 1", "1 ", "18446744073709551615",
        "18446744073709551616", "99999999999999999999999", "+18446744073709551615", "٣",
    ];
    for s in cases {
        assert_eq!(parse_usize(&chars(s)), s.parse::<usize>().ok(), "{s:?}");
    }
}

#[test]
fn format_u64_agrees_with_display() {
    for n in [0_u64, 1, 9, 10, 99, 100, 12345, u64::MAX] {
        assert_eq!(format_u64(n), n.to_string());
    }
}

#[test]
fn formatted_numbers_parse_back() {
    for n in [0_u64, 5, 10, 4096, 123456789, u32::MAX as u64] {
        assert_eq!(parse_usize(&chars(&format_u64(n))), Some(n as usize));
    }
}

#[test]
fn split_once_splits_at_the_first_tab() {
    assert_eq!(
        split_once(&chars("COUNT\thello\tworld"), '\t'),
        Some(("COUNT".to_string(), "hello\tworld".to_string()))
    );
    assert_eq!(split_once(&chars("\t"), '\t'), Some((String::new(), String::new())));
    assert_eq!(split_once(&chars("COUNT hello"), '\t'), None);
}

#[test]
fn trimming_is_idempotent_and_ignores_surrounding_white_space() {
    for s in ["", "  a b  ", "\u{3000}x\u{2028}", "\t\n", "plain"] {
        let once = trim(s);
        assert_eq!(trim(&once), once);
        assert_eq!(trim(&format!(" \u{a0}{}\r\n", s)), once);
    }
}
