use tg_s3_bot::text::{
    begins_with, i64_text, is_white_space, join, last_segment, parse_u64, same_text, split_words,
    to_lower, u64_text, without_slashes,
};

fn all_chars() -> Vec<char> {
    (0u32..0x110000).filter_map(char::from_u32).collect()
}

#[test]
fn white_space_is_unicode_white_space() {
    for c in all_chars() {
        assert_eq!(is_white_space(c), c.is_whitespace(), "{:x}", c as u32);
    }
}

#[test]
fn lower_case_is_ascii_lower_case() {
    for c in all_chars() {
        let s = c.to_string();
        assert_eq!(to_lower(&s), s.to_ascii_lowercase());
    }
    assert_eq!(to_lower("/ReStOrE Äé中"), "/restore Äé中");
}

#[test]
fn words_are_split_at_white_space() {
    for text in [
        "",
        "   ",
        "/set concurrency 8",
        "  /set\tbackup_keep \u{3000} 7\n",
        "\u{a0}a\u{2003}b\u{85}c",
        "一 二  三",
    ] {
        let expected: Vec<String> = text.split_whitespace().map(|w| w.to_string()).collect();
        assert_eq!(split_words(text), expected);
    }
}

#[test]
fn leading_slashes_are_stripped() {
    for text in ["", "  /restore", "//restore", "/ /x", "x/", "\u{3000}\n/a", "///"] {
        assert_eq!(without_slashes(text), text.trim_start_matches('/'));
    }
}

#[test]
fn prefixes() {
    for (s, p) in [("restore now", "restore"), ("resto", "restore"), ("", ""), ("a", "b"), ("根root", "根")] {
        assert_eq!(begins_with(s, p), s.starts_with(p));
    }
    assert!(same_text("密钥", "密钥"));
    assert!(!same_text("密钥", "密"));
}

#[test]
fn numbers_in_decimal() {
    for n in [0u64, 1, 9, 10, 99, 100, 365, 21600, u64::MAX - 1, u64::MAX] {
        assert_eq!(u64_text(n), n.to_string());
        assert_eq!(parse_u64(&u64_text(n)), Some(n));
    }
    for i in [0i64, 1, -1, -10, 42, i64::MIN, i64::MIN + 1, i64::MAX] {
        assert_eq!(i64_text(i), i.to_string());
    }
    assert_eq!(i64_text(i64::MIN), "-9223372036854775808");
}

#[test]
fn numbers_are_read_as_the_standard_library_reads_them() {
    for s in [
        "", "+", "-", "0", "-0", "+0", "007", "+32", "++1", "1+", " 1", "1 ", "1_0", "0x10", "１",
        "18446744073709551615", "18446744073709551616", "18446744073709551620",
        "000000000000000000000000000000000001", "99999999999999999999999", "9999999999999999999a",
        "12.0", "1e3",
    ] {
        assert_eq!(parse_u64(s), s.parse::<u64>().ok(), "{}", s);
    }
}

#[test]
fn last_segments() {
    for s in ["", "a", "a/b", "a/b/", "/", "a//b", "目录/文件.bin"] {
        assert_eq!(last_segment(s), s.rsplit('/').next().unwrap_or(s));
    }
    assert_eq!(last_segment("a/b/"), "");
}

#[test]
fn lines_are_joined() {
    for lines in [vec![], vec!["a"], vec!["", ""], vec!["一", "二", "三"]] {
        let owned: Vec<String> = lines.iter().map(|l| l.to_string()).collect();
        assert_eq!(join(&owned), lines.join("\n"));
    }
}
