use backrun::text::{
    blank, contains, equal_ignoring_case, parse_unsigned, prefixed_hexadecimal, split, trim,
};

const SAMPLES: [&str; 14] = [
    "", " ", ",", "a,b", "a,,b", ",a,", "a b", "  a  ", "\t\u{a0}x\u{3000}\n", "a:b:c", "::",
    "0x12", "\u{2003}", "é,ü",
];

#[test]
fn split_keeps_empty_pieces() {
    assert_eq!(split("a,,b", ','), vec!["a".to_string(), "".to_string(), "b".to_string()]);
    for s in SAMPLES {
        for separator in [',', ':', ' '] {
            let expected: Vec<String> = s.split(separator).map(|p| p.to_string()).collect();
            assert_eq!(split(s, separator), expected);
        }
    }
}

#[test]
fn blanks_are_the_white_space_of_unicode() {
    for n in 0..=0x10FFFFu32 {
        if let Some(c) = char::from_u32(n) {
            assert_eq!(blank(c), c.is_whitespace());
        }
    }
}

#[test]
fn trimming_removes_blanks_at_both_ends() {
    assert_eq!(trim(" \t a b \n"), "a b");
    for s in SAMPLES {
        assert_eq!(trim(s), s.trim());
    }
}

#[test]
fn contains_finds_the_needle_anywhere() {
    assert!(contains("https://polygon.api.blxrbdn.com", "blxrbdn"));
    assert!(!contains("https://rpc.fastlane.finance", "blxrbdn"));
    assert!(contains("abc", ""));
    for s in SAMPLES {
        for needle in SAMPLES {
            assert_eq!(contains(s, needle), s.contains(needle));
        }
    }
}

#[test]
fn unsigned_numbers_are_read_as_rust_reads_them() {
    for s in [
        "", "+", "-", "0", "+0", "007", "+12", "++1", "-1", " 1", "1 ", "12a", "65535", "65536",
        "4294967296", "18446744073709551615", "18446744073709551616", "99999999999999999999999",
        "+18446744073709551615", "00000000000000000000000000000007",
    ] {
        assert_eq!(parse_unsigned(s, u64::MAX), s.parse::<u64>().ok());
        assert_eq!(parse_unsigned(s, u16::MAX as u64), s.parse::<u16>().ok().map(|n| n as u64));
        assert_eq!(parse_unsigned(s, 255), s.parse::<u8>().ok().map(|n| n as u64));
    }
}

#[test]
fn hexadecimal_numbers_have_a_prefix() {
    assert_eq!(prefixed_hexadecimal(0), "0x0");
    assert_eq!(prefixed_hexadecimal(255), "0xff");
    for n in [1u64, 15, 16, 17, 4095, 4096, 74_565, 305_419_896, u64::MAX] {
        assert_eq!(prefixed_hexadecimal(n), format!("0x{:x}", n));
    }
}

#[test]
fn case_of_ascii_letters_is_ignored() {
    assert!(equal_ignoring_case("TrUe", "true"));
    assert!(!equal_ignoring_case("true ", "true"));
    assert!(!equal_ignoring_case("tru", "true"));
    for word in ["1", "true", "yes", "on"] {
        for s in ["1", "TRUE", "True", "yEs", "ON", "oN", "off", "", "0", "ÿes", "on\u{301}"] {
            assert_eq!(equal_ignoring_case(s, word), s.to_lowercase() == word);
        }
    }
}

#[test]
fn only_ascii_letters_become_the_letters_of_a_switch() {
    for n in 0x80..=0x10FFFFu32 {
        if let Some(c) = char::from_u32(n) {
            for low in c.to_lowercase() {
                assert!(!"1truesyon".contains(low));
            }
        }
    }
}
