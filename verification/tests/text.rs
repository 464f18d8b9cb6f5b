use vpnyellod::number::{parse, to_decimal};
use vpnyellod::text::{
    chars_of, contains, cut_bytes, find_from, first_piece, has_byte_len, same, split_lines,
    split_on, split_once, split_words, starts_with, string_of, strip_prefix, trim, trim_class,
    trim_end_class, trim_end_str, CharClass,
};

const SAMPLES: [&str; 16] = [
    "",
    " ",
    "a",
    "  a b  ",
    "\t\n x \r\n",
    "one\ntwo\r\nthree",
    "one\n\ntwo\n",
    "\n",
    "\r\n\r\n",
    "ends with cr\r",
    "a\r\r\nb",
    "\u{a0}wide\u{2003}space\u{3000}",
    "żółw — naïve",
    "[Peer]\n\n[Peer]\n\n[Peer]\n",
    "aaaa",
    "10.8.0.1/24",
];

#[test]
fn white_space_is_that_of_std() {
    for u in 0..=0x10ffffu32 {
        if let Some(c) = char::from_u32(u) {
            assert_eq!(CharClass::Space.holds(c), c.is_whitespace(), "{u:x}");
        }
    }
}

#[test]
fn trimming_is_that_of_std() {
    for s in SAMPLES {
        assert_eq!(trim(s), s.trim());
        assert_eq!(trim(&trim(s)), trim(s));
    }
    assert_eq!(trim_class("--a-b--", &CharClass::Only('-')), "a-b");
    assert_eq!(trim_end_class("https://x//", &CharClass::Only('/')), "https://x");
    assert_eq!(trim_end_class("//", &CharClass::Only('/')), "");
    assert_eq!(trim_end_str("1800sec", "sec"), "1800");
    assert_eq!(trim_end_str("5secsec", "sec"), "5");
    assert_eq!(trim_end_str("sec5", "sec"), "sec5");
}

#[test]
fn lines_are_those_of_std() {
    for s in SAMPLES {
        let want: Vec<String> = s.lines().map(|l| l.to_string()).collect();
        assert_eq!(split_lines(s), want, "{s:?}");
    }
}

#[test]
fn words_are_those_of_std() {
    for s in SAMPLES {
        let want: Vec<String> = s.split_whitespace().map(|l| l.to_string()).collect();
        assert_eq!(split_words(s), want, "{s:?}");
    }
}

#[test]
fn pieces_are_those_of_std() {
    for s in SAMPLES {
        let want: Vec<String> = s.split('a').map(|l| l.to_string()).collect();
        assert_eq!(split_on(s, 'a'), want, "{s:?}");
        assert_eq!(first_piece(s, 'a'), s.split('a').next().unwrap());
        let halves = s.split_once('a').map(|(x, y)| (x.to_string(), y.to_string()));
        assert_eq!(split_once(s, 'a'), halves);
    }
}

#[test]
fn searching_is_that_of_std() {
    for s in SAMPLES {
        for n in ["", "a", "aa", "\n", "[Peer]", "—", "space"] {
            assert_eq!(contains(s, n), s.contains(n), "{s:?} {n:?}");
            assert_eq!(starts_with(s, n), s.starts_with(n), "{s:?} {n:?}");
            assert_eq!(strip_prefix(s, n), s.strip_prefix(n).map(|r| r.to_string()));
        }
        for t in SAMPLES {
            assert_eq!(same(s, t), s == t);
        }
    }
    let v = chars_of("xaxaa");
    assert_eq!(find_from(&v, 0, &chars_of("aa")), Some(3));
    assert_eq!(find_from(&v, 2, &chars_of("a")), Some(3));
    assert_eq!(find_from(&v, 4, &chars_of("aa")), None);
    assert_eq!(string_of(&v, 1, 4), "axa");
}

#[test]
fn bytes_are_those_of_utf8() {
    for s in SAMPLES {
        assert!(has_byte_len(s, s.len()));
        assert!(!has_byte_len(s, s.len() + 1));
        for n in 0..12 {
            let want = s.get(..n.min(s.len())).map(|p| p.to_string());
            assert_eq!(cut_bytes(s, n), want, "{s:?} {n}");
        }
    }
    assert!(has_byte_len("𝄞", 4));
}

#[test]
fn numbers_are_those_of_std() {
    for s in [
        "", "0", "7", "007", "+5", "-5", "++5", "+", "12a", " 12", "255", "256", "65535", "65536",
        "18446744073709551615", "18446744073709551616", "99999999999999999999999", "٣",
    ] {
        assert_eq!(parse(s, u64::MAX), s.parse::<u64>().ok(), "{s:?}");
        assert_eq!(parse(s, u16::MAX as u64), s.parse::<u16>().ok().map(|n| n as u64), "{s:?}");
        assert_eq!(parse(s, u32::MAX as u64), s.parse::<u32>().ok().map(|n| n as u64), "{s:?}");
    }
    for n in [0, 9, 10, 99, 100, 51820, 4294967295, u64::MAX] {
        assert_eq!(to_decimal(n), n.to_string());
        assert_eq!(parse(&to_decimal(n), u64::MAX), Some(n));
    }
}
