//! Numbers, pieces and replacements.

use open_tiles::bytes::{pad_to_4, words16, words32};
use open_tiles::text::{
    chars_of, decimal, parse_unsigned, replace_first, same, split, strip_prefix, strip_suffix,
    trim, trim_leading, trim_trailing,
};

#[test]
fn numbers_read_back() {
    for n in [0u64, 7, 10, 99, 100, 1607, u32::MAX as u64] {
        let s = decimal(n);
        assert_eq!(s, n.to_string());
        assert_eq!(parse_unsigned(&s, u32::MAX), Some(n as u32));
    }
    assert_eq!(decimal(u64::MAX), u64::MAX.to_string());
}

#[test]
fn numbers_are_read_as_std_does() {
    for s in [
        "", "+", "-1", "+1", "++1", "007", "12", "255", "256", "4294967295", "4294967296", "1 ",
        " 1", "1a", "٣", "99999999999999999999999", "00000000000000000000001",
    ] {
        assert_eq!(parse_unsigned(s, u32::MAX), s.parse::<u32>().ok(), "{s:?}");
        assert_eq!(
            parse_unsigned(s, 255),
            s.parse::<u8>().ok().map(u32::from),
            "{s:?}"
        );
    }
}

#[test]
fn pieces_are_what_std_splits() {
    for s in ["", "/", "a", "a/b", "/a//b/", "é/ü"] {
        assert_eq!(split(s, '/'), s.split('/').collect::<Vec<_>>(), "{s:?}");
    }
}

#[test]
fn affixes_and_trimming() {
    assert_eq!(strip_suffix("1607.glb", ".glb").as_deref(), Some("1607"));
    assert_eq!(strip_suffix("glb", ".glb"), None);
    assert_eq!(strip_prefix("s3://b", "s3://").as_deref(), Some("b"));
    assert_eq!(strip_prefix("s3:/", "s3://"), None);
    for s in ["", "  ", " a b ", "\t\"x\"\u{a0}\u{3000}", "\u{200b}y"] {
        assert_eq!(trim(s), s.trim(), "{s:?}");
    }
    assert_eq!(trim_leading("//a/", '/'), "a/");
    assert_eq!(trim_trailing("//a//", '/'), "//a");
    assert!(same("é", "é") && !same("a", "ab"));
    assert_eq!(chars_of("aé"), vec!['a', 'é']);
}

#[test]
fn only_the_first_occurrence_is_replaced() {
    for (s, p, w) in [
        ("aXbXc", "X", "--"),
        ("none", "X", "y"),
        ("aaa", "aa", "b"),
        ("abc", "", "z"),
        ("x", "longer", "z"),
        (":zoom::zoom:", ":zoom:", "3"),
    ] {
        assert_eq!(replace_first(s, p, w), s.replacen(p, w, 1), "{s:?} {p:?}");
    }
}

#[test]
fn words_are_little_endian() {
    assert_eq!(words32(&vec![0x0102_0304, 5]), vec![4, 3, 2, 1, 5, 0, 0, 0]);
    assert_eq!(words16(&vec![0x0102, 65535]), vec![2, 1, 255, 255]);
    for n in 0..9usize {
        let mut v = vec![7u8; n];
        pad_to_4(&mut v, 9);
        assert_eq!(v.len(), n.div_ceil(4) * 4);
        assert!(v[..n].iter().all(|&b| b == 7) && v[n..].iter().all(|&b| b == 9));
    }
}
