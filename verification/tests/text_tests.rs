use vamp::text::{
    chars_of, contains_chars, replace_chars, spaced_lines, split_on_chars, split_once_chars,
    split_words, string_of, trim_chars,
};

fn cs(s: &str) -> Vec<char> {
    s.chars().collect()
}

fn st(v: &[char]) -> String {
    v.iter().collect()
}

#[test]
fn chars_round_trip() {
    for s in ["", "abc", "héllo wörld", "日本語", "a\u{2003}b"] {
        assert_eq!(chars_of(s), cs(s));
        assert_eq!(string_of(&cs(s)), s);
    }
}

#[test]
fn trim_matches_std() {
    for s in ["", "  ", " a ", "\t\na b\u{3000}", "x", "\u{85}y\u{a0}", "a\u{200b}"] {
        assert_eq!(st(&trim_chars(&cs(s))), s.trim(), "trim of {:?}", s);
    }
}

#[test]
fn words_match_std() {
    for s in ["", "   ", "a", " ls  -la\t/tmp \n", "x\u{2028}y\u{3000}z", "日本 語"] {
        let w: Vec<String> = split_words(&cs(s)).iter().map(|w| st(w)).collect();
        let expected: Vec<&str> = s.split_whitespace().collect();
        assert_eq!(w, expected, "words of {:?}", s);
    }
}

#[test]
fn contains_matches_std() {
    for (s, p) in [("hello", "ll"), ("hello", "lo!"), ("", ""), ("abc", ""), ("ab", "abc"), ("aab", "ab")] {
        assert_eq!(contains_chars(&cs(s), &cs(p)), s.contains(p), "{:?} in {:?}", p, s);
    }
}

#[test]
fn replace_matches_std() {
    for (s, p, r) in [
        ("~/bin:~/lib", "~", "/home/u"),
        ("aaaa", "aa", "b"),
        ("abc", "", "X"),
        ("", "", "X"),
        ("no match", "zz", "y"),
        ("éé", "", "-"),
    ] {
        assert_eq!(st(&replace_chars(&cs(s), &cs(p), &cs(r))), s.replace(p, r), "{:?}", (s, p, r));
    }
}

#[test]
fn replace_absent_pattern_is_identity() {
    assert_eq!(st(&replace_chars(&cs("plain text"), &cs("~"), &cs("/home"))), "plain text");
}

#[test]
fn split_matches_std() {
    for s in ["a | b | c", "a|b", "", " | ", "a |  b", "x | | y"] {
        let got: Vec<String> = split_on_chars(&cs(s), &cs(" | ")).iter().map(|w| st(w)).collect();
        let expected: Vec<&str> = s.split(" | ").collect();
        assert_eq!(got, expected, "split of {:?}", s);
    }
}

#[test]
fn split_once_matches_std() {
    for (s, p) in [("a>>b>>c", ">>"), ("a>b", ">"), ("ab", ">"), (">x", ">")] {
        let got = split_once_chars(&cs(s), &cs(p)).map(|(a, b)| (st(&a), st(&b)));
        let expected = s.split_once(p).map(|(a, b)| (a.to_string(), b.to_string()));
        assert_eq!(got, expected);
    }
}

#[test]
fn spaced_lines_match_std() {
    for s in ["", "one", "one\ntwo\n", "a\r\nb", "a\r", "\n", "x\n\ny"] {
        let expected: String = s.lines().map(|l| format!(" {}", l)).collect();
        assert_eq!(st(&spaced_lines(&cs(s))), expected, "lines of {:?}", s);
    }
}
