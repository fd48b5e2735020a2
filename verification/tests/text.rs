use pc::paths::{insert_path, is_absolute, is_before, is_under, join, path_components};
use pc::text::{
    decimal, ends_with, join_from, lines, parse_u64, same_ignoring_case, signed_decimal, space,
    split, split_whitespace, strip_prefix, text_bytes, to_ascii_lowercase, trim, trim_end_char,
};
use std::path::Path;

#[test]
fn white_space_is_that_of_unicode() {
    for code in 0..=0x10ffff_u32 {
        if let Some(c) = char::from_u32(code) {
            assert_eq!(space(c), c.is_whitespace(), "{code:x}");
        }
    }
}

#[test]
fn text_functions_agree_with_std() {
    for s in [
        "",
        " ",
        "a",
        "  a b\t",
        "a\nb\r\nc",
        "a\n",
        "\n\n",
        "\r\n",
        "x\r",
        "\u{2003}\u{e9}\u{1f600}\u{a0}",
        "A,B,,c",
        "+12",
        "0 1000 1\n",
        "Bearer x",
        "..",
    ] {
        assert_eq!(trim(s), s.trim());
        assert_eq!(trim_end_char(s, '.'), s.trim_end_matches('.'));
        assert_eq!(lines(s), s.lines().collect::<Vec<_>>());
        assert_eq!(split(s, ','), s.split(',').collect::<Vec<_>>());
        assert_eq!(split_whitespace(s), s.split_whitespace().collect::<Vec<_>>());
        assert_eq!(to_ascii_lowercase(s), s.to_ascii_lowercase());
        assert_eq!(text_bytes(s), s.len());
        assert_eq!(ends_with(s, "b"), s.ends_with("b"));
        assert_eq!(strip_prefix(s, "Bearer ").as_deref(), s.strip_prefix("Bearer "));
        assert_eq!(parse_u64(s), s.parse::<u64>().ok());
        let parts = split(s, ' ');
        assert_eq!(join_from(&parts, 0, "/"), s.split(' ').collect::<Vec<_>>().join("/"));
    }
}

#[test]
fn numbers_are_written_and_read() {
    for n in [0, 7, 10, 65_536, u64::MAX] {
        assert_eq!(decimal(n), n.to_string());
        assert_eq!(parse_u64(&n.to_string()), Some(n));
    }
    for n in [0, -1, 255, i32::MIN, i32::MAX] {
        assert_eq!(signed_decimal(n), n.to_string());
    }
    assert_eq!(parse_u64("18446744073709551616"), None);
    assert_eq!(parse_u64("00000000000000000000000001"), Some(1));
    assert_eq!(parse_u64("+"), None);
    assert_eq!(parse_u64("-1"), None);
    assert!(same_ignoring_case("HTTPS", "https"));
}

#[test]
fn paths_agree_with_std() {
    let all = [
        "", "/", ".", "./a", "a", "a/", "a//b", "/a/./b", "/a/../b", "..", "/home/u", "/home/u/.ssh",
        "/home/u/.sshx", "/home/u/", "//home",
    ];
    for a in all {
        assert_eq!(is_absolute(a), Path::new(a).is_absolute(), "{a}");
        let expected: Vec<String> = Path::new(a)
            .components()
            .map(|c| c.as_os_str().to_str().unwrap().to_string())
            .collect();
        assert_eq!(path_components(a), expected, "{a}");
        for b in all {
            assert_eq!(Path::new(&join(a, b)), Path::new(a).join(b), "{a} {b}");
            assert_eq!(join(a, b), Path::new(a).join(b).to_str().unwrap());
            assert_eq!(is_under(a, b), Path::new(a).starts_with(b), "{a} {b}");
            if is_absolute(b) {
                assert_eq!(join(a, b), b);
            } else {
                assert!(is_under(&join(a, b), a), "{a} {b}");
            }
        }
    }
}

#[test]
fn texts_are_ordered_as_in_std() {
    let all = ["", "a", "ab", "b", "\u{e9}", "\u{ffff}", "\u{10000}", "A"];
    for a in all {
        for b in all {
            assert_eq!(is_before(a, b), a < b, "{a} {b}");
        }
    }
}

#[test]
fn path_sets_agree_with_std() {
    let all = ["/usr/lib", "/bin", "/usr", "/usr-x", "/usr/lib", "/etc/ssl", "/usr/lib64", "/a/b/c", "/\u{e9}"];
    let mut set: Vec<String> = Vec::new();
    let mut expected = std::collections::BTreeSet::new();
    for p in all {
        insert_path(&mut set, p.to_string());
        expected.insert(std::path::PathBuf::from(p));
    }
    let expected: Vec<String> =
        expected.into_iter().map(|p| p.to_str().unwrap().to_string()).collect();
    assert_eq!(set, expected);
}
