use mini_http::text::{
    char_is_whitespace, join_slices, matches_at, same_text, search, split_slice, strip, to_chars,
    to_string, tokenize,
};

fn chars(s: &str) -> Vec<char> {
    s.chars().collect()
}

fn strings(parts: Vec<&[char]>) -> Vec<String> {
    parts.into_iter().map(|p| p.iter().collect()).collect()
}

fn split(s: &str, sep: &str) -> Vec<String> {
    let text = chars(s);
    let pattern = chars(sep);
    strings(split_slice(&text, &pattern))
}

fn tokens(s: &str) -> Vec<String> {
    let text = chars(s);
    strings(tokenize(&text))
}

fn trimmed(s: &str) -> String {
    let text = chars(s);
    strip(&text).iter().collect()
}

fn find(s: &str, pat: &str) -> Option<usize> {
    search(&chars(s), &chars(pat))
}

#[test]
fn chars_and_back() {
    assert_eq!(to_chars("a\u{e9}\u{4e16}\u{1f600}"), vec!['a', '\u{e9}', '\u{4e16}', '\u{1f600}']);
    assert_eq!(to_chars(""), Vec::<char>::new());
    assert_eq!(to_string(&['h', '\u{e9}', '!']), "h\u{e9}!");
    assert_eq!(to_string(&[]), "");
}

#[test]
fn same_text_compares_all_characters() {
    assert!(same_text(&chars("abc"), &chars("abc")));
    assert!(same_text(&chars(""), &chars("")));
    assert!(!same_text(&chars("abc"), &chars("abd")));
    assert!(!same_text(&chars("abc"), &chars("ab")));
    assert!(!same_text(&chars("ab"), &chars("abc")));
}

#[test]
fn whitespace_is_unicode_white_space() {
    for c in ['\t', '\n', '\u{b}', '\u{c}', '\r', ' ', '\u{85}', '\u{a0}', '\u{1680}', '\u{2000}',
        '\u{2005}', '\u{200a}', '\u{2028}', '\u{2029}', '\u{202f}', '\u{205f}', '\u{3000}']
    {
        assert!(char_is_whitespace(c), "{:?}", c);
    }
    for c in ['a', '0', '/', '\u{0}', '\u{8}', '\u{e}', '\u{1f}', '!', '\u{84}', '\u{86}',
        '\u{9f}', '\u{a1}', '\u{167f}', '\u{1681}', '\u{180e}', '\u{1fff}', '\u{200b}',
        '\u{2027}', '\u{202a}', '\u{2060}', '\u{2fff}', '\u{3001}', '\u{feff}']
    {
        assert!(!char_is_whitespace(c), "{:?}", c);
    }
}

#[test]
fn whitespace_agrees_with_std_everywhere() {
    for code in 0u32..=0x10ffff {
        if let Some(c) = char::from_u32(code) {
            assert_eq!(char_is_whitespace(c), c.is_whitespace(), "U+{:04X}", code);
        }
    }
}

#[test]
fn matches_at_an_index() {
    let text = chars("abcabc");
    assert!(matches_at(&text, &chars("abc"), 0));
    assert!(matches_at(&text, &chars("abc"), 3));
    assert!(!matches_at(&text, &chars("abc"), 1));
    assert!(matches_at(&text, &chars(""), 6));
    assert!(matches_at(&text, &chars("c"), 5));
    assert!(!matches_at(&text, &chars("c"), 6));
    assert!(!matches_at(&text, &chars("abc"), 4));
    assert!(!matches_at(&text, &chars("abcabca"), 0));
    assert!(!matches_at(&text, &chars(""), 7));
}

#[test]
fn search_finds_the_leftmost_occurrence() {
    assert_eq!(find("hello world", "o"), Some(4));
    assert_eq!(find("hello world", "world"), Some(6));
    assert_eq!(find("hello world", "hello world"), Some(0));
    assert_eq!(find("hello", "hello world"), None);
    assert_eq!(find("aaab", "aab"), Some(1));
    assert_eq!(find("abc", "d"), None);
    assert_eq!(find("", "a"), None);
    assert_eq!(find("abc", ""), Some(0));
    assert_eq!(find("", ""), Some(0));
    assert_eq!(find("a\r\r\nb", "\r\n"), Some(2));
}

#[test]
fn split_on_line_breaks() {
    assert_eq!(split("a\r\nb\r\n\r\nc", "\r\n"), vec!["a", "b", "", "c"]);
    assert_eq!(split("a\r\n", "\r\n"), vec!["a", ""]);
    assert_eq!(split("\r\na", "\r\n"), vec!["", "a"]);
    assert_eq!(split("", "\r\n"), vec![""]);
    assert_eq!(split("abc", "\r\n"), vec!["abc"]);
    assert_eq!(split("a\rb\nc", "\r\n"), vec!["a\rb\nc"]);
    assert_eq!(split("a\r\r\nb", "\r\n"), vec!["a\r", "b"]);
    assert_eq!(split("a\r\n\nb", "\r\n"), vec!["a", "\nb"]);
}

#[test]
fn split_on_slash() {
    assert_eq!(split("/echo/abc", "/"), vec!["", "echo", "abc"]);
    assert_eq!(split("/", "/"), vec!["", ""]);
    assert_eq!(split("//", "/"), vec!["", "", ""]);
    assert_eq!(split("a/b/", "/"), vec!["a", "b", ""]);
    assert_eq!(split("abc", "/"), vec!["abc"]);
}

#[test]
fn split_does_not_overlap() {
    assert_eq!(split("aaaa", "aa"), vec!["", "", ""]);
    assert_eq!(split("aaa", "aa"), vec!["", "a"]);
}

#[test]
fn empty_separator_splits_nothing() {
    assert_eq!(split("abc", ""), vec!["abc"]);
    assert_eq!(split("", ""), vec![""]);
}

#[test]
fn split_agrees_with_std() {
    for s in ["", "a", "/a/b", "a//b/", "\r\n\r\n", "x\r\ny\r", "\n\r\n\r", "a/b\r\nc/d"] {
        for sep in ["/", "\r\n", "\r", "ab"] {
            let expected: Vec<String> = s.split(sep).map(|p| p.to_string()).collect();
            assert_eq!(split(s, sep), expected, "{:?} by {:?}", s, sep);
        }
    }
}

#[test]
fn join_puts_the_separator_between_pieces() {
    let a = chars("a");
    let b = chars("");
    let c = chars("cd");
    let sep = chars("\r\n");
    let joined: String = join_slices(&[&a[..], &b[..], &c[..]], &sep).iter().collect();
    assert_eq!(joined, "a\r\n\r\ncd");
    let one: String = join_slices(&[&c[..]], &sep).iter().collect();
    assert_eq!(one, "cd");
    let none: String = join_slices(&[], &sep).iter().collect();
    assert_eq!(none, "");
    let blank: String = join_slices(&[&b[..], &b[..]], &sep).iter().collect();
    assert_eq!(blank, "\r\n");
}

#[test]
fn join_undoes_split() {
    for s in ["", "a", "/a/b", "a//b/", "///", "x/y"] {
        let text = chars(s);
        let sep = chars("/");
        let parts = split_slice(&text, &sep);
        let back: String = join_slices(&parts, &sep).iter().collect();
        assert_eq!(back, s);
    }
}

#[test]
fn tokens_are_runs_without_whitespace() {
    assert_eq!(tokens("GET / HTTP/1.1"), vec!["GET", "/", "HTTP/1.1"]);
    assert_eq!(tokens("  a \t b\u{3000}c  "), vec!["a", "b", "c"]);
    assert_eq!(tokens(""), Vec::<String>::new());
    assert_eq!(tokens(" \t\r\n "), Vec::<String>::new());
    assert_eq!(tokens("one"), vec!["one"]);
    assert_eq!(tokens("a\u{200b}b"), vec!["a\u{200b}b"]);
}

#[test]
fn tokens_agree_with_std() {
    for s in ["", " ", "a b", "  a  b  ", "a\tb\nc\rd", "\u{a0}x\u{2003}y\u{85}", "x\u{feff} y"] {
        let expected: Vec<String> = s.split_whitespace().map(|p| p.to_string()).collect();
        assert_eq!(tokens(s), expected, "{:?}", s);
    }
}

#[test]
fn strip_removes_whitespace_at_both_ends() {
    assert_eq!(trimmed("  a b  "), "a b");
    assert_eq!(trimmed("a"), "a");
    assert_eq!(trimmed(""), "");
    assert_eq!(trimmed(" \t\r\n"), "");
    assert_eq!(trimmed("\u{a0}x\u{3000}"), "x");
    assert_eq!(trimmed("x  "), "x");
    assert_eq!(trimmed("  x"), "x");
}

#[test]
fn strip_agrees_with_std() {
    for s in ["", " ", "a", " a", "a ", " a b ", "\t\u{2028}a\u{2029}\n", "\u{200b} a"] {
        assert_eq!(trimmed(s), s.trim(), "{:?}", s);
    }
}
