use std::path::Path;
use wadb::num::{decimal_of, hexadecimal_of, pad_zeros, parse_number, parse_port, parse_word};
use wadb::path::{file_name_of, joined, parent_of, path_has_name, paths_agree};
use wadb::text::{
    chars_of, find_text, join_strings, lines_of, rsplit_at, split_at_text, split_on, string_of,
    trimmed, words_of, write_lines,
};

fn strings(v: &[&[char]]) -> Vec<String> {
    v.iter().map(|s| s.iter().collect()).collect()
}

#[test]
fn text_is_split_as_str_splits_it() {
    for s in [
        "",
        "\n",
        "a\r\nb\n\nc",
        "x\r",
        "x\r\r\n",
        "  two  words\t\u{a0}three\u{3000}",
        "a:b::c:",
        "é日:…",
    ] {
        let c = chars_of(s);
        assert_eq!(strings(&lines_of(&c)), s.lines().collect::<Vec<_>>());
        assert_eq!(
            strings(&words_of(&c)),
            s.split_whitespace().collect::<Vec<_>>()
        );
        assert_eq!(
            strings(&split_on(&c, ':')),
            s.split(':').collect::<Vec<_>>()
        );
        assert_eq!(trimmed(&c).iter().collect::<String>(), s.trim());
        assert_eq!(
            split_at_text(&c, "::").map(|(a, b)| (string_of(a), string_of(b))),
            s.split_once("::")
                .map(|(a, b)| (a.to_string(), b.to_string()))
        );
        assert_eq!(
            rsplit_at(&c, ':').map(|(a, b)| (string_of(a), string_of(b))),
            s.rsplit_once(':')
                .map(|(a, b)| (a.to_string(), b.to_string()))
        );
        assert_eq!(string_of(&c), s);
    }
    assert_eq!(find_text(&chars_of("abcabc"), &chars_of("ca")), Some(2));
    assert_eq!(find_text(&chars_of("abc"), &chars_of("")), Some(0));
    assert_eq!(
        write_lines(&["a".to_string(), String::new()]),
        "a\n\n"
    );
    assert_eq!(
        join_strings(&["a".to_string(), "b".to_string()], ", "),
        "a, b"
    );
}

#[test]
fn numbers_are_written_and_read_as_std_does() {
    for n in [0u64, 7, 10, 255, 65535, 65536, u32::MAX as u64, u64::MAX] {
        assert_eq!(decimal_of(n), n.to_string());
        assert_eq!(hexadecimal_of(n), format!("{n:x}"));
    }
    for s in ["0", "65535", "65536", "+7", "-7", "", "+", "1 ", "007", "٣"] {
        assert_eq!(parse_port(&chars_of(s)), s.parse::<u16>().ok(), "{s}");
        assert_eq!(parse_word(&chars_of(s)), s.parse::<u32>().ok(), "{s}");
        assert_eq!(
            parse_number(&chars_of(s), 16, 0xffff),
            u64::from_str_radix(s, 16).ok().filter(|n| *n <= 0xffff),
            "{s}"
        );
    }
    assert_eq!(pad_zeros("c".into(), 4), "000c");
    assert_eq!(pad_zeros("12345".into(), 4), "12345");
}

#[test]
fn paths_are_read_as_std_does() {
    let all = [
        "", "/", ".", "..", "a", "a/", "/a", "/a/b/", "a/./b", "a//b", "./a", "a/..", "//a", "a/.",
        "/.", "/target/x", "x/target",
    ];
    for p in all {
        assert_eq!(
            parent_of(p),
            Path::new(p).parent().map(|d| d.display().to_string()),
            "parent of {p}"
        );
        assert_eq!(
            file_name_of(p),
            Path::new(p)
                .file_name()
                .map(|d| d.to_str().unwrap().to_string()),
            "name of {p}"
        );
        assert_eq!(
            path_has_name(p, "target"),
            Path::new(p)
                .components()
                .any(|c| c.as_os_str() == "target"),
            "{p}"
        );
        for q in all {
            assert_eq!(
                paths_agree(p, q),
                Path::new(p) == Path::new(q),
                "{p} and {q}"
            );
            assert_eq!(
                joined(p, q),
                Path::new(p).join(q).display().to_string(),
                "{p} and {q}"
            );
        }
    }
}
