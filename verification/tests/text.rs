use chitta::text::{
    decimal_of, hex_of, integer_of, is_control, is_text_before, is_white_space, join, last_word_of,
    lines, take_chars, trim, trim_end, trim_start,
};

const SAMPLES: [&str; 12] = [
    "",
    " ",
    "a",
    " a b \t",
    "\u{a0}x\u{3000}",
    "one\ntwo\r\nthree",
    "\n\n",
    "x\n",
    "x\r",
    "x\r\r\n\ny",
    "日本 語\u{2028}",
    "\u{200b}zero width is no white space\u{200b}",
];

#[test]
fn trimming_is_that_of_str() {
    for s in SAMPLES {
        assert_eq!(trim(s), s.trim(), "{s:?}");
        assert_eq!(trim_start(s), s.trim_start(), "{s:?}");
        assert_eq!(trim_end(s), s.trim_end(), "{s:?}");
    }
}

#[test]
fn lines_are_those_of_str() {
    for s in SAMPLES {
        let expected: Vec<&str> = s.lines().collect();
        assert_eq!(lines(s), expected, "{s:?}");
    }
}

#[test]
fn last_words_are_those_of_str() {
    for s in SAMPLES {
        let expected = s.rsplit_once(char::is_whitespace).map_or(s, |(_, w)| w);
        assert_eq!(last_word_of(s), expected, "{s:?}");
    }
}

#[test]
fn character_classes_are_those_of_char() {
    for n in 0..0x11_0000u32 {
        if let Some(c) = char::from_u32(n) {
            assert_eq!(is_white_space(c), c.is_whitespace(), "{n:#x}");
            assert_eq!(is_control(c), c.is_control(), "{n:#x}");
        }
    }
}

#[test]
fn order_is_that_of_str() {
    for a in SAMPLES {
        for b in SAMPLES {
            assert_eq!(is_text_before(a, b), a < b, "{a:?} {b:?}");
        }
    }
}

#[test]
fn numbers_are_written_as_usual() {
    for n in [0u64, 7, 10, 99, 1_000_000, u64::MAX] {
        assert_eq!(decimal_of(n), n.to_string());
    }
    for n in [0i64, -1, 12, -120, i64::MAX, i64::MIN] {
        assert_eq!(integer_of(n), n.to_string());
    }
    assert_eq!(hex_of(&[0, 9, 10, 255, 16], 4), "00090aff");
}

#[test]
fn joins_and_prefixes() {
    let parts: Vec<String> = ["a", "b", "c"].iter().map(|s| s.to_string()).collect();
    assert_eq!(join(&parts, ", "), "a, b, c");
    assert_eq!(join(&parts[..1], ", "), "a");
    assert_eq!(join(&[], ", "), "");
    assert_eq!(take_chars("日本語", 2), "日本");
    assert_eq!(take_chars("ab", 2), "ab");
    assert_eq!(take_chars("ab", 9), "ab");
}
