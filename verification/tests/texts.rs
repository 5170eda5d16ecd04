use beacn_utility::text::{
    chars_of, is_white_space, lowered, numeral, read_small_number, remove_all, same_ignoring_case,
    same_text, split_fields, split_lines, split_words, string_of, strip_head, trimmed,
};

const TEXTS: [&str; 14] = [
    "",
    " ",
    "a",
    "  a b  ",
    "\ta\u{a0}b\u{3000}c\r\n",
    "one\ntwo\r\nthree",
    "one\n\ntwo\n",
    "\n",
    "\r\n\r",
    "a:b::c:",
    ":",
    "dBdB12dBd",
    "Größe\u{2003}ß",
    "\u{200b}x\u{feff}",
];

#[test]
fn white_space_is_that_of_unicode() {
    for n in 0u32..=0x10FFFF {
        if let Some(c) = char::from_u32(n) {
            assert_eq!(is_white_space(c), c.is_whitespace());
        }
    }
}

#[test]
fn texts_come_apart_as_std_takes_them_apart() {
    for t in TEXTS {
        let chars = chars_of(t);
        assert_eq!(chars, t.chars().collect::<Vec<char>>());
        assert_eq!(string_of(&chars), t);
        assert_eq!(string_of(trimmed(&chars)), t.trim());
        assert_eq!(split_words(&chars), t.split_whitespace().collect::<Vec<&str>>());
        assert_eq!(split_fields(&chars, ':'), t.split(':').collect::<Vec<&str>>());
        let lines: Vec<String> = split_lines(&chars).iter().map(|l| string_of(l)).collect();
        assert_eq!(lines, t.lines().collect::<Vec<&str>>());
        assert_eq!(remove_all(&chars, "dB"), t.replace("dB", ""));
        assert_eq!(string_of(&lowered(&chars)), t.to_ascii_lowercase());
        let rest: Option<String> = strip_head(&chars, "one").map(string_of);
        assert_eq!(rest.as_deref(), t.strip_prefix("one"));
    }
}

#[test]
fn texts_are_compared_as_std_compares_them() {
    let all = ["", "Default", "default", "DEFAULT", "defaulT ", "Größe", "GRÖSSE", "gröSSe"];
    for a in all {
        for b in all {
            assert_eq!(same_text(a, b), a == b);
            assert_eq!(same_ignoring_case(a, b), a.eq_ignore_ascii_case(b));
        }
    }
}

#[test]
fn small_numbers_are_read_as_std_reads_them() {
    let texts = [
        "", "+", "-", "0", "-0", "+7", "007", "255", "256", "99999999999999999999", "1 ", "1a",
        "++1", "٣",
    ];
    for t in texts {
        assert_eq!(read_small_number(&chars_of(t)), t.parse::<u8>().ok(), "{t:?}");
    }
}

#[test]
fn numerals_have_no_leading_zeros() {
    for n in [0u128, 9, 10, 255, 4294967295, u128::MAX] {
        assert_eq!(string_of(&numeral(n)), n.to_string());
    }
}
