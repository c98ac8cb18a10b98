use settlers4_widescreen_tool::text::{
    decimal_chars, find_chars, parse_u32, rfind_char, str_chars, trim, trim_then_unquote,
    u32_to_string,
};

fn chars(s: &str) -> Vec<char> {
    s.chars().collect()
}

#[test]
fn numbers_round_trip() {
    for n in [0u32, 7, 10, 99, 1024, 4294967295] {
        let s = u32_to_string(n);
        assert_eq!(s, n.to_string());
        assert_eq!(parse_u32(&chars(&s)), Some(n));
    }
    assert_eq!(decimal_chars(305), vec!['3', '0', '5']);
}

#[test]
fn parse_matches_str_parse() {
    for s in ["", "+", "-1", "+12", "007", "4294967295", "4294967296", "1 2", "١٢", "99999999999999999999"] {
        assert_eq!(parse_u32(&chars(s)), s.parse::<u32>().ok(), "input {:?}", s);
    }
}

#[test]
fn trimming_matches_str_trim() {
    for s in ["", "  a b  ", "\u{3000}x\u{85}", "\t\n\r\u{a0}", "\"q\""] {
        assert_eq!(trim(&chars(s)), chars(s.trim()));
        assert_eq!(trim_then_unquote(&chars(s)), chars(s.trim().trim_matches('"')));
    }
}

#[test]
fn searching() {
    assert_eq!(find_chars(&chars("abcabc"), &chars("ca")), Some(2));
    assert_eq!(find_chars(&chars("abc"), &chars("x")), None);
    assert_eq!(find_chars(&chars("ab"), &chars("abc")), None);
    assert_eq!(rfind_char(&chars("{}{}"), '}'), Some(3));
    assert_eq!(rfind_char(&chars("{"), '}'), None);
    assert_eq!(str_chars("é×"), vec!['é', '×']);
}
