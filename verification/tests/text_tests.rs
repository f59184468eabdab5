use m3u8_core::text::{
    append_chars, chars_eq, contains_chars, copy_chars, ends_with, find_char, from_chars,
    is_space_char, parse_decimal_chars, push_decimal, rfind_char, split_chars, starts_with,
    to_chars, to_upper, trim, upper_char,
};

fn chars(s: &str) -> Vec<char> {
    s.chars().collect()
}

fn text(v: &[char]) -> String {
    v.iter().collect()
}

const SAMPLES: [&str; 12] = [
    "",
    " ",
    "a",
    "  a b  ",
    "\t\r\nline\u{a0}\u{3000}",
    "\u{2003}x\u{2028}",
    "no-space",
    " \u{85} ",
    "a,b,,c,",
    ",",
    "päth/tö/part_12.ts",
    "=a==b=",
];

#[test]
fn strings_and_characters_convert_both_ways() {
    for s in SAMPLES {
        assert_eq!(to_chars(s), chars(s));
        assert_eq!(from_chars(&chars(s)), s);
        assert_eq!(copy_chars(&chars(s)), chars(s));
    }
    let mut out = chars("ab");
    append_chars(&mut out, &chars("cd"));
    assert_eq!(text(&out), "abcd");
}

#[test]
fn white_space_is_what_the_language_calls_white_space() {
    for n in 0..=0x10FFFFu32 {
        if let Some(c) = char::from_u32(n) {
            assert_eq!(is_space_char(c), c.is_whitespace(), "U+{:04X}", n);
        }
    }
}

#[test]
fn trimming_agrees_with_the_language() {
    for s in SAMPLES {
        assert_eq!(text(trim(&chars(s))), s.trim(), "{:?}", s);
    }
}

#[test]
fn upper_case_touches_ascii_letters_only() {
    for n in 0..=0x10FFFFu32 {
        if let Some(c) = char::from_u32(n) {
            assert_eq!(upper_char(c), c.to_ascii_uppercase(), "U+{:04X}", n);
        }
    }
    assert_eq!(text(&to_upper(&chars("aes-128 ſ é"))), "AES-128 ſ é");
}

#[test]
fn searching_agrees_with_the_language() {
    for s in SAMPLES {
        let v = chars(s);
        for c in [',', '/', '_', 'a', ' ', '='] {
            let first = v.iter().position(|&x| x == c).unwrap_or(v.len());
            assert_eq!(find_char(&v, c), first);
            assert_eq!(rfind_char(&v, c), v.iter().rposition(|&x| x == c));
        }
    }
}

#[test]
fn splitting_agrees_with_the_language() {
    for s in SAMPLES {
        for sep in [',', '\n', '=', '/'] {
            let expected: Vec<String> = s.split(sep).map(String::from).collect();
            let pieces: Vec<String> =
                split_chars(&chars(s), sep).iter().map(|p| text(p)).collect();
            assert_eq!(pieces, expected, "{:?} at {:?}", s, sep);
        }
    }
}

#[test]
fn prefix_suffix_and_run_tests_agree_with_the_language() {
    let needles = ["", "a", " ", "part_", ".ts", ",b", "ö/p", "=="];
    for s in SAMPLES {
        for n in needles {
            assert_eq!(starts_with(&chars(s), &chars(n)), s.starts_with(n), "{:?} {:?}", s, n);
            assert_eq!(ends_with(&chars(s), &chars(n)), s.ends_with(n), "{:?} {:?}", s, n);
            assert_eq!(contains_chars(&chars(s), &chars(n)), s.contains(n), "{:?} {:?}", s, n);
            assert_eq!(chars_eq(&chars(s), &chars(n)), s == n);
        }
    }
}

#[test]
fn decimal_numerals_are_written_without_leading_zeros() {
    for n in [0u128, 1, 9, 10, 11, 99, 100, 255, 1_000_000, u64::MAX as u128, u128::MAX] {
        let mut out = Vec::new();
        push_decimal(&mut out, n);
        assert_eq!(text(&out), n.to_string());
    }
}

#[test]
fn decimal_numerals_are_read_back() {
    for s in ["0", "7", "007", "42", "18446744073709551615", "000018446744073709551615"] {
        assert_eq!(parse_decimal_chars(&chars(s)), s.parse::<u64>().ok(), "{:?}", s);
    }
    for s in ["", "+5", "-1", "1 ", " 1", "1_0", "1.0", "18446744073709551616", "٣"] {
        assert_eq!(parse_decimal_chars(&chars(s)), None, "{:?}", s);
    }
}
