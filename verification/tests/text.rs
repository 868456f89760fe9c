use ipflip::text::{
    contains_text, has_text, join_from, no_later, same_text, split_at_each, split_words,
    starts_with_text, trim, white_space,
};

fn owned(list: &[&str]) -> Vec<String> {
    list.iter().map(|s| s.to_string()).collect()
}

#[test]
fn white_space_is_that_of_unicode() {
    for n in 0u32..=0x10ffff {
        if let Some(c) = char::from_u32(n) {
            assert_eq!(white_space(c), c.is_whitespace(), "{n:x}");
        }
    }
}

#[test]
fn trimming() {
    for s in ["", " ", "\t\r\n", "a", " a", "a ", " a b \u{3000}", "\u{a0}é\u{2003}", "a\u{200b}"] {
        assert_eq!(trim(s), s.trim());
        assert_eq!(trim(trim(s)), trim(s));
    }
}

#[test]
fn splitting() {
    for s in ["", ".", "a", "a.b", "a..b.", ".é.", "1.2.3.4"] {
        let expected: Vec<&str> = s.split('.').collect();
        assert_eq!(split_at_each(s, '.'), expected);
        assert_eq!(join_from(&split_at_each(s, '.'), 0, "."), s);
    }
}

#[test]
fn words_of_a_line() {
    for s in ["", "  ", "a", " a  b\tc ", "Wi-Fi\u{a0}2", "é ü"] {
        let expected: Vec<&str> = s.split_whitespace().collect();
        assert_eq!(split_words(s), expected);
    }
}

#[test]
fn joining_from_an_index() {
    let list = owned(&["a", "b", "c"]);
    assert_eq!(join_from(&list, 0, " "), "a b c");
    assert_eq!(join_from(&list, 1, "--"), "b--c");
    assert_eq!(join_from(&list, 2, " "), "c");
    assert_eq!(join_from(&list, 3, " "), "");
}

#[test]
fn searching() {
    assert!(contains_text("802.11ac", "802.11"));
    assert!(contains_text("abc", ""));
    assert!(contains_text("", ""));
    assert!(contains_text("aab", "ab"));
    assert!(!contains_text("ab", "abc"));
    assert!(!contains_text("wi_fi", "wi-fi"));
    assert!(starts_with_text("Idx  Met", "Idx"));
    assert!(!starts_with_text(" Idx", "Idx"));
    assert!(!starts_with_text("Id", "Idx"));
}

#[test]
fn sameness() {
    assert!(same_text("Ethernet", "Ethernet"));
    assert!(!same_text("Ethernet", "ethernet"));
    assert!(!same_text("a", "a "));
    assert!(has_text(&owned(&["a", "b"]), "b"));
    assert!(!has_text(&owned(&["a", "b"]), "c"));
    assert!(!has_text(&vec![], ""));
}

#[test]
fn order_of_texts_is_that_of_strings() {
    let list = ["", "a", "aa", "ab", "b", "B", "é", "z", "\u{ffff}", "\u{10000}", "ß", "ss"];
    for a in list {
        for b in list {
            assert_eq!(no_later(a, b), a <= b, "{a} {b}");
        }
    }
}
