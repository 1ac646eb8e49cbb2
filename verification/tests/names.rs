use derive_core::text::{chars_of, precedes};

fn before(a: &str, b: &str) -> bool {
    precedes(&chars_of(a), &chars_of(b))
}

#[test]
fn chars_of_gives_every_character() {
    assert_eq!(chars_of(""), Vec::<char>::new());
    assert_eq!(chars_of("each"), vec!['e', 'a', 'c', 'h']);
    assert_eq!(chars_of("a\u{e9}\u{4e2d}"), vec!['a', '\u{e9}', '\u{4e2d}']);
}

#[test]
fn precedes_is_the_strict_lexicographic_order() {
    assert!(before("", "a"));
    assert!(!before("", ""));
    assert!(!before("a", ""));
    assert!(before("Variant1", "Variant3"));
    assert!(!before("Variant3", "Variant1"));
    assert!(!before("Variant1", "Variant1"));
    assert!(before("Ab", "Abc"));
    assert!(!before("Abc", "Ab"));
    assert!(before("Z", "a"));
    assert!(before("z", "\u{e9}"));
}

#[test]
fn precedes_agrees_with_the_standard_string_order() {
    let pool = ["", "a", "A", "ab", "aB", "b", "_x", "x1", "x10", "x2", "\u{e9}", "e\u{301}"];
    for a in pool {
        for b in pool {
            assert_eq!(before(a, b), a < b, "{:?} against {:?}", a, b);
        }
    }
}
