use state_sync_engine::text::{
    is_whitespace, joined, push_decimal, same_text, starts_with, str_ge, trim,
};

const SAMPLES: [&str; 12] = [
    "", "a", "aa", "ab", "b", "node-a", "node-z", "Z", "\u{e9}", "\u{ffff}", "\u{10000}", "\u{d7ff}x",
];

#[test]
fn order_is_that_of_the_standard_library() {
    for a in SAMPLES {
        for b in SAMPLES {
            assert_eq!(str_ge(a, b), a >= b, "{a:?} {b:?}");
            assert_eq!(same_text(a, b), a == b, "{a:?} {b:?}");
        }
    }
}

#[test]
fn prefixes_are_those_of_the_standard_library() {
    for a in SAMPLES {
        for b in SAMPLES {
            assert_eq!(starts_with(a, b), a.starts_with(b), "{a:?} {b:?}");
        }
    }
    assert!(starts_with("config.timeout", "config."));
    assert!(!starts_with("conf", "config."));
}

#[test]
fn whitespace_is_that_of_unicode() {
    for n in 0..=0x10_ffffu32 {
        if let Some(c) = char::from_u32(n) {
            assert_eq!(is_whitespace(c), c.is_whitespace(), "{n:x}");
        }
    }
}

#[test]
fn trim_takes_both_ends() {
    for s in ["", " ", "\r\n", " a ", "a b", "\u{3000}a\u{a0}b\u{2003}\n", "\t{\"x\": 1} \r\n"] {
        assert_eq!(trim(s), s.trim(), "{s:?}");
    }
}

#[test]
fn decimals_have_no_leading_zeros() {
    for n in [0, 7, 10, 99, 100, 7070, 65535, u64::MAX] {
        let mut s = String::from("n=");
        push_decimal(&mut s, n);
        assert_eq!(s, format!("n={n}"));
    }
}

#[test]
fn joined_appends() {
    assert_eq!(joined("ab", "cd"), "abcd");
}
