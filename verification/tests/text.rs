use markitel_helper::text::{
    chars_of, contains_exec, find_char_exec, lex_lt_exec, parse_i32_exec, push_decimal,
    replace_all_exec, split_lines, string_of, trim_str,
};

fn cs(s: &str) -> Vec<char> {
    s.chars().collect()
}

#[test]
fn trim_matches_std() {
    for s in ["", "  a b  ", "\u{3000}x\u{85}", "\u{200b}y\u{200b}", "\t\n\r z \u{a0}", "   "] {
        assert_eq!(trim_str(s), s.trim());
    }
}

#[test]
fn lines_match_std() {
    for s in ["", "a", "a\n", "a\r\nb", "a\r", "\n\n", "a\r\r\nb\n", "x\ny\r\n"] {
        let got: Vec<String> = split_lines(&cs(s)).iter().map(|l| l.iter().collect()).collect();
        let want: Vec<String> = s.lines().map(String::from).collect();
        assert_eq!(got, want, "{s:?}");
    }
}

#[test]
fn parse_matches_std() {
    for s in ["0", "+7", "-7", "007", "2147483647", "2147483648", "-2147483648", "-2147483649", "", "+", "-", "1 ", "x1", "99999999999999999999"] {
        assert_eq!(parse_i32_exec(&cs(s)), s.parse::<i32>().ok(), "{s:?}");
    }
}

#[test]
fn decimal_matches_format() {
    for n in [0u32, 7, 10, 99, 100, 2147483647, u32::MAX] {
        let mut out = Vec::new();
        push_decimal(&mut out, n);
        assert_eq!(out.iter().collect::<String>(), format!("{n}"));
    }
}

#[test]
fn replace_matches_std() {
    for (s, p, r) in [("aaa", "aa", "b"), ("abcabc", "bc", "X"), ("", "a", "b"), ("xyz", "q", "r")] {
        assert_eq!(replace_all_exec(&cs(s), &cs(p), &cs(r)).iter().collect::<String>(), s.replace(p, r));
    }
}

#[test]
fn search_and_order() {
    assert!(contains_exec(&cs("hello"), &cs("ll")));
    assert!(contains_exec(&cs("hello"), &cs("")));
    assert!(!contains_exec(&cs("he"), &cs("hello")));
    assert_eq!(find_char_exec(&cs("a=b=c"), '='), Some(1));
    assert_eq!(find_char_exec(&cs("abc"), '='), None);
    assert!(lex_lt_exec(&cs("ab"), &cs("abc")));
    assert!(!lex_lt_exec(&cs("abc"), &cs("abc")));
    assert!(lex_lt_exec(&cs("B"), &cs("a")));
    assert_eq!(string_of(&chars_of("é✓")), "é✓");
}
