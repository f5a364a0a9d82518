use vs_buildtools::text::{
    chars_of, join_chars, lines_chars, lt_chars, replace_chars, split_chars, split_once_chars,
    string_of, trim_chars,
};

fn s(v: &Vec<char>) -> String {
    v.iter().collect()
}

fn all(v: &Vec<Vec<char>>) -> Vec<String> {
    v.iter().map(s).collect()
}

#[test]
fn trim_matches_std() {
    for t in ["", "   ", "  a b \t\n", "\u{3000}x\u{a0}", "x", "\r\n y \u{2028}", "\u{200b}z"] {
        assert_eq!(s(&trim_chars(&chars_of(t))), t.trim());
    }
}

#[test]
fn lines_matches_std() {
    for t in ["", "a", "a\n", "a\r\nb\n\nc", "x\r", "a\rb\n", "\n\n", "\r\n", "a\n\r\n"] {
        let expected: Vec<String> = t.lines().map(|l| l.to_string()).collect();
        assert_eq!(all(&lines_chars(&chars_of(t))), expected, "input {t:?}");
    }
}

#[test]
fn lines_examples() {
    assert_eq!(all(&lines_chars(&chars_of("a\r\nb\n\nc"))), vec!["a", "b", "", "c"]);
    assert!(lines_chars(&chars_of("")).is_empty());
    assert_eq!(all(&lines_chars(&chars_of("x\r"))), vec!["x\r"]);
}

#[test]
fn replace_matches_std() {
    let cases = [
        ("C:\\a;C:\\b", "C:\\", "%~dp0"),
        ("aaa", "aa", "b"),
        ("abc", "x", "y"),
        ("", "a", "b"),
        ("/k /k x", "/k ", "/c "),
        ("CC:\\:\\", "C:\\", ""),
    ];
    for (t, p, r) in cases {
        let got = replace_chars(&chars_of(t), &chars_of(p), &chars_of(r));
        assert_eq!(s(&got), t.replace(p, r), "input {t:?}");
    }
    assert_eq!(s(&replace_chars(&chars_of("aaa"), &chars_of("aa"), &chars_of("b"))), "ba");
}

#[test]
fn split_matches_std() {
    for t in ["", "a", "a//b", "/x/", "Windows Kits/10/Testing"] {
        let expected: Vec<String> = t.split('/').map(|p| p.to_string()).collect();
        assert_eq!(all(&split_chars(&chars_of(t), '/')), expected);
    }
}

#[test]
fn join_matches_std() {
    let parts = vec![chars_of("a"), chars_of(""), chars_of("bc")];
    assert_eq!(s(&join_chars(&parts, &chars_of(" "))), ["a", "", "bc"].join(" "));
    assert_eq!(s(&join_chars(&vec![], &chars_of(" "))), "");
    assert_eq!(s(&join_chars(&vec![chars_of("x")], &chars_of(", "))), "x");
}

#[test]
fn split_once_matches_std() {
    for t in ["A=B=C", "noeq", "=x", "x=", "="] {
        let got = split_once_chars(&chars_of(t), '=').map(|(k, v)| (s(&k), s(&v)));
        let expected = t.split_once('=').map(|(k, v)| (k.to_string(), v.to_string()));
        assert_eq!(got, expected);
    }
}

#[test]
fn order_matches_string_ord() {
    let words = ["", "a", "ab", "b", "PATH", "Path", "path", "é", "z", "Z9"];
    for a in words {
        for b in words {
            assert_eq!(lt_chars(&chars_of(a), &chars_of(b)), a < b, "{a:?} < {b:?}");
        }
    }
}

#[test]
fn string_round_trip() {
    let t = "x\u{3000}y\r\n";
    assert_eq!(string_of(&chars_of(t)), t);
}
