use listeria::dict::Dict;
use listeria::text::{
    char_is_space, chars_of, decimal_string, find_char, is_keyword, join_strings, replace_char,
    split_chars, string_of, to_ascii_lower, to_ascii_upper, to_keyword, trim, trim_str,
};

fn chars(s: &str) -> Vec<char> {
    s.chars().collect()
}

fn text(v: &Vec<char>) -> String {
    v.iter().collect()
}

#[test]
fn white_space_is_what_the_standard_library_calls_white_space() {
    for n in 0u32..0x11_0000 {
        if let Some(c) = char::from_u32(n) {
            assert_eq!(char_is_space(c), c.is_whitespace(), "character {:x}", n);
        }
    }
}

#[test]
fn trimming_is_what_the_standard_library_does() {
    for s in ["", " ", "a", " a", "a ", " a b ", "\t\n a\u{a0}\u{2003}", "\u{3000}x\u{85}", "\u{200b}x", "  \n "] {
        assert_eq!(text(&trim(&chars(s))), s.trim(), "{:?}", s);
        assert_eq!(trim_str(s), s.trim());
        assert_eq!(to_keyword(s), s.trim().to_uppercase());
    }
}

#[test]
fn characters_and_strings() {
    for s in ["", "abc", "\u{e9}\u{1F600}x"] {
        assert_eq!(chars_of(s), chars(s));
        assert_eq!(string_of(&chars(s)), s);
    }
}

#[test]
fn ascii_case() {
    assert_eq!(text(&to_ascii_upper(&chars("p31 \u{e9}z{`"))), "P31 \u{e9}Z{`");
    assert_eq!(text(&to_ascii_lower(&chars("P31 \u{c9}Z[@"))), "p31 \u{c9}z[@");
    for n in 0u32..0x300 {
        let c = char::from_u32(n).unwrap();
        assert_eq!(to_ascii_upper(&vec![c]), vec![c.to_ascii_uppercase()]);
        assert_eq!(to_ascii_lower(&vec![c]), vec![c.to_ascii_lowercase()]);
    }
    assert!(is_keyword(&chars("NuMbEr"), "number"));
    assert!(!is_keyword(&chars("numbers"), "number"));
    assert!(!is_keyword(&chars("\u{212a}"), "k"));
}

#[test]
fn splitting_joining_replacing() {
    for s in ["", ",", "a", "a,b", ",a,,b,", "a,b,c"] {
        let pieces: Vec<String> = split_chars(&chars(s), ',').iter().map(text).collect();
        let expected: Vec<String> = s.split(',').map(|p| p.to_string()).collect();
        assert_eq!(pieces, expected, "{:?}", s);
        assert_eq!(join_strings(&pieces, ","), s);
        assert_eq!(join_strings(&pieces, " -- "), expected.join(" -- "));
    }
    assert_eq!(join_strings(&vec![], ","), "");
    assert_eq!(text(&replace_char(&chars("a_b__c"), '_', ' ')), "a b  c");
    assert_eq!(find_char(&chars("a:b:c"), ':', 0), 1);
    assert_eq!(find_char(&chars("a:b:c"), ':', 2), 3);
    assert_eq!(find_char(&chars("a:b:c"), ':', 4), 5);
    assert_eq!(find_char(&chars("abc"), ':', 9), 3);
}

#[test]
fn numbers_in_decimal_notation() {
    for n in [0u128, 1, 9, 10, 99, 100, 12345, u64::MAX as u128, u128::MAX] {
        assert_eq!(decimal_string(n), n.to_string());
    }
}

#[test]
fn dictionary_keeps_the_order_of_first_insertion() {
    let mut d: Dict<u32> = Dict::new();
    assert_eq!(d.len(), 0);
    assert!(d.get("a").is_none());
    d.insert("b".to_string(), 1);
    d.insert("a".to_string(), 2);
    d.insert("b".to_string(), 3);
    assert_eq!(d.len(), 2);
    assert_eq!(d.key_at(0), "b");
    assert_eq!(*d.value_at(0), 3);
    assert_eq!(d.key_at(1), "a");
    assert_eq!(d.get("a"), Some(&2));
    assert!(d.contains_key("b"));
    assert!(!d.contains_key("B"));
}
