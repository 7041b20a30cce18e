use bini_server::text::{
    chars_of, contains, decimal_text, ends_with, parse_number, same_text, split_all, split_once,
    trim_end_matches, trim_matches, trim_start_matches, Cut,
};

#[test]
fn white_space_is_that_of_std_for_every_character() {
    for code in 0..=0x10ffffu32 {
        if let Some(c) = char::from_u32(code) {
            let text = c.to_string();
            let trimmed = trim_matches(&text, Cut::WhiteSpace);
            assert_eq!(trimmed.is_empty(), c.is_whitespace(), "U+{:04X}", code);
        }
    }
}

#[test]
fn trims_like_std() {
    for text in ["", " ", "a", "  a b \t\r\n", "\u{3000}x\u{a0}", "ß ", "\u{feff} x"] {
        assert_eq!(trim_matches(text, Cut::WhiteSpace), text.trim());
        assert_eq!(trim_start_matches(text, Cut::WhiteSpace), text.trim_start());
        assert_eq!(trim_end_matches(text, Cut::WhiteSpace), text.trim_end());
    }
    for text in ["", "\"", "\"\"", "\"a\"", "\"\"a\"b\"", "a\""] {
        assert_eq!(trim_matches(text, Cut::Only('"')), text.trim_matches('"'));
    }
    assert_eq!(trim_start_matches("vvv1.v", Cut::Only('v')), "1.v");
}

#[test]
fn splits_like_std() {
    for text in ["", "=", "a=b", "a=b=c", "=b", "a", "é=ü"] {
        assert_eq!(split_once(text, '='), text.split_once('='));
        let pieces: Vec<String> = text.split('=').map(|p| p.to_string()).collect();
        assert_eq!(split_all(text, '='), pieces);
    }
}

#[test]
fn searches_like_std() {
    for text in ["", "tun", "utun0", "TUN", "xtu", "aatunaa"] {
        for part in ["", "tun", "utun", "a", "tunx"] {
            assert_eq!(contains(text, part), text.contains(part));
            assert_eq!(ends_with(text, part), text.ends_with(part));
        }
    }
}

#[test]
fn compares_and_collects_characters() {
    assert!(same_text("ß", "ß"));
    assert!(!same_text("ß", "ss"));
    assert_eq!(chars_of("aß➜"), vec!['a', 'ß', '➜']);
}

#[test]
fn writes_decimal_like_std() {
    for n in [0u64, 1, 9, 10, 42, 255, 3000, 65535, 10485760, u64::MAX] {
        assert_eq!(decimal_text(n), n.to_string());
    }
}

#[test]
fn reads_numbers_like_std() {
    let texts = [
        "0", "+0", "-0", "", "+", "++1", "12", "+12", "0012", " 12", "12 ", "1_2", "0x10", "65535",
        "65536", "4294967295", "4294967296", "18446744073709551615", "18446744073709551616",
        "99999999999999999999999", "000000000000000000000000000000007", "٣", "12a",
    ];
    for text in texts {
        assert_eq!(parse_number(text, u64::MAX), text.parse::<u64>().ok(), "{:?}", text);
        assert_eq!(parse_number(text, u32::MAX as u64), text.parse::<u32>().ok().map(u64::from));
        assert_eq!(parse_number(text, u16::MAX as u64), text.parse::<u16>().ok().map(u64::from));
    }
}

#[test]
fn number_is_read_back_as_written() {
    for n in [0u64, 7, 10, 65535, u64::MAX] {
        assert_eq!(parse_number(&decimal_text(n), u64::MAX), Some(n));
    }
}
