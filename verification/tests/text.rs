use cargo_version_info::manifest::{string_at_three, string_at_two};
use cargo_version_info::text::{
    char_is_space, chars_contain, chars_equal, chars_of, copy_chars, split_chars, str_contains,
    string_of, strip_prefix, strip_suffix, strs_equal, trim_chars,
};

fn chars(s: &str) -> Vec<char> {
    s.chars().collect()
}

#[test]
fn strings_and_characters() {
    assert_eq!(chars_of("héllo ✓"), chars("héllo ✓"));
    assert_eq!(chars_of(""), Vec::<char>::new());
    assert_eq!(string_of(&chars("héllo ✓")), "héllo ✓");
    assert_eq!(string_of(&[]), "");
    assert!(strs_equal("abc", "abc"));
    assert!(strs_equal("", ""));
    assert!(!strs_equal("abc", "abd"));
    assert!(!strs_equal("abc", "ab"));
    assert!(chars_equal(&chars("x"), &chars("x")));
    assert!(!chars_equal(&chars("x"), &chars("")));
    assert_eq!(copy_chars(&chars("abcdef"), 2, 4), chars("cd"));
    assert_eq!(copy_chars(&chars("abcdef"), 3, 3), chars(""));
    assert_eq!(copy_chars(&chars("abcdef"), 0, 6), chars("abcdef"));
}

#[test]
fn prefixes_and_suffixes() {
    assert_eq!(strip_prefix(&chars("git@github.com:a/b"), &chars("git@github.com:")), Some(chars("a/b")));
    assert_eq!(strip_prefix(&chars("abc"), &chars("abc")), Some(chars("")));
    assert_eq!(strip_prefix(&chars("abc"), &chars("")), Some(chars("abc")));
    assert_eq!(strip_prefix(&chars("abc"), &chars("abcd")), None);
    assert_eq!(strip_prefix(&chars("abc"), &chars("b")), None);
    assert_eq!(strip_suffix(&chars("repo.git"), &chars(".git")), Some(chars("repo")));
    assert_eq!(strip_suffix(&chars(".git"), &chars(".git")), Some(chars("")));
    assert_eq!(strip_suffix(&chars("repo"), &chars("")), Some(chars("repo")));
    assert_eq!(strip_suffix(&chars("git"), &chars(".git")), None);
    assert_eq!(strip_suffix(&chars("repo.git."), &chars(".git")), None);
}

#[test]
fn splitting() {
    let split = |s: &str, sep: char| -> Vec<String> {
        split_chars(&chars(s), sep).iter().map(|p| p.iter().collect()).collect()
    };
    assert_eq!(split("a/b/c", '/'), vec!["a", "b", "c"]);
    assert_eq!(split("abc", '/'), vec!["abc"]);
    assert_eq!(split("", '/'), vec![""]);
    assert_eq!(split("/", '/'), vec!["", ""]);
    assert_eq!(split("a//b/", '/'), vec!["a", "", "b", ""]);
    assert_eq!(split("1.2.3", '.'), vec!["1", "2", "3"]);
    for s in ["a/b/c", "", "/", "a//b/", "x"] {
        let expected: Vec<String> = s.split('/').map(|p| p.to_string()).collect();
        assert_eq!(split(s, '/'), expected);
    }
}

#[test]
fn trimming() {
    let trim = |s: &str| -> String { trim_chars(&chars(s)).iter().collect() };
    assert_eq!(trim("  a b  "), "a b");
    assert_eq!(trim("a"), "a");
    assert_eq!(trim(""), "");
    assert_eq!(trim(" \t\n"), "");
    assert_eq!(trim("\u{a0}x\u{3000}"), "x");
    assert_eq!(trim("\u{200b}x"), "\u{200b}x");
    for s in ["  a b  ", "\r\n1.2.3\r\n", " ", "", "x ", " x", "\u{2003}y\u{85}"] {
        assert_eq!(trim(s), s.trim());
    }
    for c in ['\t', '\n', '\u{b}', '\u{c}', '\r', ' ', '\u{85}', '\u{a0}', '\u{1680}', '\u{2000}',
        '\u{200a}', '\u{2028}', '\u{2029}', '\u{202f}', '\u{205f}', '\u{3000}', 'a', '0', '\u{8}',
        '\u{e}', '\u{1f}', '\u{200b}', '\u{2060}', '\u{feff}', '\u{180e}']
    {
        assert_eq!(char_is_space(c), c.is_whitespace(), "{:?}", c);
    }
}

#[test]
fn strings_of_a_toml_value() {
    let value: toml::Value = toml::from_str(
        "top = \"t\"\n[package]\nname = \"n\"\nversion = \"1.0.0\"\nedition = 2021\n[package.metadata]\nkey = \"k\"\n[workspace.package]\nversion = \"2.0.0\"\n",
    )
    .unwrap();
    assert_eq!(string_at_two(&value, "package", "version"), Some("1.0.0".to_string()));
    assert_eq!(string_at_two(&value, "package", "name"), Some("n".to_string()));
    assert_eq!(string_at_two(&value, "package", "edition"), None);
    assert_eq!(string_at_two(&value, "package", "metadata"), None);
    assert_eq!(string_at_two(&value, "package", "missing"), None);
    assert_eq!(string_at_two(&value, "missing", "version"), None);
    assert_eq!(string_at_two(&value, "top", "version"), None);
    assert_eq!(string_at_three(&value, "workspace", "package", "version"), Some("2.0.0".to_string()));
    assert_eq!(string_at_three(&value, "package", "metadata", "key"), Some("k".to_string()));
    assert_eq!(string_at_three(&value, "package", "version", "x"), None);
    assert_eq!(string_at_three(&value, "workspace", "missing", "version"), None);
    assert_eq!(string_at_three(&value, "missing", "package", "version"), None);
}

#[test]
fn containment() {
    for (hay, needle) in [
        ("", ""),
        ("a", ""),
        ("", "a"),
        ("abc", "abc"),
        ("abc", "abcd"),
        ("abc", "bc"),
        ("abc", "ab"),
        ("abc", "ac"),
        ("aab", "ab"),
        ("aaaa", "aaa"),
        ("version = \"0.1.0\"\n", "version"),
        ("version = \"0.1.0\"\n", "0.1.0"),
        ("version = \"0.1.0\"\n", "0.2.0"),
        ("héllo ✓", "✓"),
        ("héllo ✓", "o ✓"),
        ("héllo ✓", "e"),
        ("ab\n", "b\n"),
    ] {
        assert_eq!(str_contains(hay, needle), hay.contains(needle), "{hay:?} {needle:?}");
        assert_eq!(chars_contain(&chars(hay), &chars(needle)), hay.contains(needle));
    }
}
