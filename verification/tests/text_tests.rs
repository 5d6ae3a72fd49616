use eisen_core::glob::{glob_match, segment_match};
use eisen_core::keyed::KeyedList;
use eisen_core::text::{
    ends_with, find_in, first_token, from_chars, rfind_in, same, slice, space, split_on,
    starts_with, to_chars, trimmed,
};

fn chars(s: &str) -> Vec<char> {
    to_chars(s)
}

fn text(v: &Vec<char>) -> String {
    from_chars(v)
}

#[test]
fn chars_round_trip() {
    for s in ["", "abc", "/home/\u{1F600}/é.rs", "a\nb\r\n"] {
        assert_eq!(chars(s), s.chars().collect::<Vec<char>>());
        assert_eq!(text(&chars(s)), s);
    }
}

#[test]
fn space_is_unicode_white_space() {
    for n in 0u32..0x3100 {
        if let Some(c) = char::from_u32(n) {
            assert_eq!(space(c), c.is_whitespace(), "U+{:04X}", n);
        }
    }
}

#[test]
fn trimmed_is_std_trim() {
    for s in ["", " ", "  a b \t\n", "\u{00a0}x\u{3000}", "abc", "\r\n", " \u{1F600} "] {
        assert_eq!(text(&trimmed(&chars(s))), s.trim());
    }
}

#[test]
fn split_on_is_std_split() {
    for (s, p) in [
        ("a/b/c", "/"),
        ("/a//b/", "/"),
        ("", "/"),
        ("abc", "/"),
        ("a&&b&&&c", "&&"),
        ("&&", "&&"),
        ("a*b*", "*"),
        ("x::y::z", "::"),
    ] {
        let got: Vec<String> = split_on(&chars(s), &chars(p)).iter().map(text).collect();
        let want: Vec<String> = s.split(p).map(|x| x.to_string()).collect();
        assert_eq!(got, want, "{:?} split on {:?}", s, p);
    }
    let whole: Vec<String> = split_on(&chars("abc"), &chars("")).iter().map(text).collect();
    assert_eq!(whole, vec!["abc".to_string()]);
}

#[test]
fn find_is_std_find() {
    for (s, p) in [("hello world", "o"), ("hello", "l"), ("hello", "lo"), ("hello", "x"), ("", "a"), ("aaa", "aa")] {
        let want = s.find(p);
        assert_eq!(find_in(&chars(s), &chars(p), 0), want);
        assert_eq!(rfind_in(&chars(s), &chars(p)), s.rfind(p));
    }
    assert_eq!(find_in(&chars("abcabc"), &chars("b"), 2), Some(4));
    assert_eq!(find_in(&chars("abc"), &chars("a"), 9), None);
    assert_eq!(find_in(&chars("abc"), &chars(""), 0), Some(0));
}

#[test]
fn prefix_suffix_and_slices() {
    assert!(starts_with(&chars("file:///a"), &chars("file://")));
    assert!(!starts_with(&chars("file:/"), &chars("file://")));
    assert!(starts_with(&chars("x"), &chars("")));
    assert!(ends_with(&chars("lib.so"), &chars(".so")));
    assert!(!ends_with(&chars("so"), &chars(".so")));
    assert_eq!(text(&slice(&chars("abcdef"), 2, 4)), "cd");
    assert!(same(&chars("é"), &chars("é")));
    assert!(!same(&chars("a"), &chars("ab")));
}

#[test]
fn first_token_is_first_word() {
    for s in ["  out.txt 2>&1", "x", "", "   ", "\ta\tb"] {
        let want = s.split_whitespace().next().map(|x| x.to_string());
        assert_eq!(first_token(&chars(s)).map(|v| text(&v)), want);
    }
}

#[test]
fn segment_patterns() {
    let m = |p: &str, s: &str| segment_match(&chars(p), &chars(s));
    assert!(m("*", "anything"));
    assert!(m("*", ""));
    assert!(m("abc", "abc"));
    assert!(!m("abc", "abd"));
    assert!(m("*.config.js", "eslint.config.js"));
    assert!(!m("*.config.js", "config.ts"));
    assert!(m("test_*.py", "test_main.py"));
    assert!(!m("test_*.py", "my_test_main.py"));
    assert!(m("a*b*c", "aXbYc"));
    assert!(!m("a*b*c", "aXcYb"));
    assert!(m("a*", "a"));
    assert!(m("*a*", "bab"));
    // a `*` stands for any text, so a later place of a part counts too
    assert!(m("*.js", "a.js.js"));
    assert!(m("*a", "aba"));
    assert!(m("*.env", "prod.env.env"));
    assert!(m("a*a", "aa"));
    assert!(!m("a*a", "a"));
    assert!(m("a*b*b", "abbb"));
    assert!(m("a**b", "ab"));
    assert!(m("a**b", "axxb"));
    assert!(!m("ab*ba", "aba"));
    assert!(m("*é", "éxé"));
    assert!(!m("*a", "ab"));
    assert!(!m("a*", "ba"));
    assert!(m("**", "anything"));
    assert!(m("", ""));
    assert!(!m("", "a"));
}

#[test]
fn glob_patterns() {
    let m = |p: &str, s: &str| glob_match(&chars(p), &chars(s));
    assert!(m("src/**", "src/a/b.rs"));
    assert!(m("src/**", "src"));
    assert!(m("**", ""));
    assert!(m("**/.env", ".env"));
    assert!(m("**/a/**/b", "x/a/y/z/b"));
    assert!(!m("src/*", "src/a/b"));
    assert!(!m("a", "a/b"));
    assert!(m("", ""));
    assert!(!m("", "a"));
}

#[test]
fn keyed_list_is_a_map() {
    let mut list: KeyedList<String, u32> = KeyedList::new();
    assert!(list.is_empty());
    list.insert("a".to_string(), 1);
    list.insert("b".to_string(), 2);
    list.insert("a".to_string(), 3);
    assert_eq!(list.len(), 2);
    assert_eq!(list.get(&"a".to_string()), Some(&3));
    assert_eq!(list.get(&"c".to_string()), None);
    assert_eq!(list.position(&"b".to_string()), Some(1));
    assert_eq!(list.key(1), "b");
    assert_eq!(*list.value(0), 3);
    list.set(1, 7);
    assert_eq!(list.remove(&"b".to_string()), Some(7));
    assert_eq!(list.remove(&"b".to_string()), None);
    assert!(list.contains_key(&"a".to_string()));
    assert_eq!(list.remove_at(0), 3);
    assert!(list.is_empty());
}
