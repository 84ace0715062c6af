use todo_issue::text::{char_is_whitespace, find, push_decimal, to_chars, trim_bounds};

fn chars(s: &str) -> Vec<char> {
    s.chars().collect()
}

#[test]
fn to_chars_keeps_every_character() {
    assert_eq!(to_chars("a\u{e9}\u{1f600}z"), vec!['a', '\u{e9}', '\u{1f600}', 'z']);
    assert!(to_chars("").is_empty());
}

#[test]
fn find_gives_the_first_occurrence() {
    assert_eq!(find(&chars("abcabc"), &chars("bc")), Some(1));
    assert_eq!(find(&chars("abcabc"), &chars("abc")), Some(0));
    assert_eq!(find(&chars("abcabc"), &chars("c")), Some(2));
    assert_eq!(find(&chars("aaab"), &chars("aab")), Some(1));
    assert_eq!(find(&chars("abc"), &chars("abcd")), None);
    assert_eq!(find(&chars("abc"), &chars("x")), None);
    assert_eq!(find(&chars("abc"), &chars("")), Some(0));
    assert_eq!(find(&chars(""), &chars("")), Some(0));
    assert_eq!(find(&chars(""), &chars("a")), None);
    assert_eq!(find(&chars("\u{e9}\u{e9}//"), &chars("//")), Some(2));
}

#[test]
fn whitespace_is_what_the_standard_says() {
    for code in 0u32..=0x10FFFF {
        if let Some(c) = char::from_u32(code) {
            assert_eq!(char_is_whitespace(c), c.is_whitespace(), "U+{:04X}", code);
        }
    }
}

#[test]
fn trim_bounds_agree_with_trim() {
    for text in ["", " ", "  a  ", "a", "\t a b \n", "\u{3000}x\u{a0}", "   ", "a  ", "  a"] {
        let all = chars(text);
        let (from, to) = trim_bounds(&all, 0, all.len());
        let kept: String = all[from..to].iter().collect();
        assert_eq!(kept, text.trim());
    }
    let all = chars("  ab  cd  ");
    assert_eq!(trim_bounds(&all, 1, 9), (2, 8));
    assert_eq!(trim_bounds(&all, 3, 7), (3, 7));
    assert_eq!(trim_bounds(&all, 3, 6), (3, 4));
    assert_eq!(trim_bounds(&all, 4, 6), (6, 6));
}

#[test]
fn decimal_is_appended() {
    for n in [0usize, 1, 9, 10, 11, 99, 100, 101, 1234567890, usize::MAX] {
        let mut out = String::from("n=");
        push_decimal(&mut out, n);
        assert_eq!(out, format!("n={}", n));
    }
}
