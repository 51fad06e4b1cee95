use mssh::registry::Registry;
use mssh::text::{
    after_prefix, begins_with, cut_text, decimal_text, remove_text, replace_text, same_text,
    split_text, trim_text, word_list,
};

#[test]
fn split_as_std_does() {
    for s in ["", "/", "a/b", "a//b/", "/a", "abc", "ä/ö/ü"] {
        let expected: Vec<String> = s.split("/").map(|p| p.to_string()).collect();
        assert_eq!(split_text(s, "/"), expected);
    }
    assert_eq!(split_text("a\r\n\r\n\r\n\r\nb", "\r\n\r\n"), vec!["a", "", "b"]);
    assert_eq!(split_text("aaa", "aa"), vec!["", "a"]);
}

#[test]
fn replace_as_std_does() {
    assert_eq!(replace_text("a{x}b{x}", "{x}", "y"), "ayby");
    assert_eq!(replace_text("aaa", "aa", "b"), "aaa".replace("aa", "b"));
    assert_eq!(replace_text("abc", "x", "y"), "abc");
    assert_eq!(replace_text("##a#", "#", ""), "a");
}

#[test]
fn remove_the_first_only() {
    assert_eq!(remove_text("abcabc", "bc"), "aabc");
    assert_eq!(remove_text("abc", "x"), "abc");
    assert_eq!(remove_text("abc", ""), "abc");
}

#[test]
fn words_and_trim_as_std_does() {
    for s in ["", " ", "a", " a  b\tc\r\n", "\u{a0}x\u{3000}y\u{2028}", "\u{200b}z", "a\u{85}b"] {
        let expected: Vec<String> = s.split_whitespace().map(|p| p.to_string()).collect();
        assert_eq!(word_list(s), expected);
        assert_eq!(trim_text(s), s.trim());
    }
}

#[test]
fn white_space_is_that_of_std() {
    for n in 0..0x11000u32 {
        if let Some(c) = char::from_u32(n) {
            assert_eq!(mssh::text::is_white_space(c), c.is_whitespace());
        }
    }
}

#[test]
fn prefixes_and_cuts() {
    assert!(begins_with("#MAIN info", "#MAIN"));
    assert!(!begins_with("#MA", "#MAIN"));
    assert_eq!(after_prefix("abc", "ab").as_deref(), Some("c"));
    assert_eq!(after_prefix("abc", "b"), None);
    assert_eq!(cut_text("a b c", " "), Some(("a".to_string(), "b c".to_string())));
    assert_eq!(cut_text("abc", " "), None);
    assert!(same_text("ä", "ä"));
    assert!(!same_text("a", "b"));
}

#[test]
fn numbers_are_written_in_digits() {
    assert_eq!(decimal_text(0), "0");
    assert_eq!(decimal_text(10), "10");
    assert_eq!(decimal_text(90210), "90210");
    assert_eq!(decimal_text(usize::MAX), usize::MAX.to_string());
}

#[test]
fn registry_keeps_one_value_for_each_name() {
    let mut r: Registry<u32> = Registry::new();
    assert_eq!(r.len(), 0);
    assert!(!r.contains("a"));
    r.insert("a".to_string(), 1);
    r.insert("b".to_string(), 2);
    r.insert("a".to_string(), 3);
    assert_eq!(r.len(), 2);
    assert_eq!(r.get("a"), Some(&3));
    assert_eq!(r.get("c"), None);
    assert_eq!(r.entry(0), (&"a".to_string(), &3));
    assert_eq!(r.remove("a"), Some(3));
    assert_eq!(r.remove("a"), None);
    assert_eq!(r.get("b"), Some(&2));
    assert_eq!(r.entry(0), (&"b".to_string(), &2));
}
