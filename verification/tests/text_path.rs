use photo_backup::path::{
    components_from, extension_of, join_components, leaf_of, relative_to, split_components,
};
use photo_backup::text;
use photo_backup::text::{
    chars_of, decimal, is_control, is_whitespace, same_text, sanitize, text_of, trim,
};

fn names(list: &[&str]) -> Vec<String> {
    list.iter().map(|n| n.to_string()).collect()
}

#[test]
fn texts_compare_by_their_characters() {
    assert!(same_text("", ""));
    assert!(same_text("alpha", "alpha"));
    assert!(!same_text("alpha", "alphA"));
    assert!(!same_text("alpha", "alph"));
}

#[test]
fn character_classes_are_those_of_the_standard_library() {
    for code in 0..=0x10FFFFu32 {
        if let Some(c) = char::from_u32(code) {
            assert_eq!(is_control(c), c.is_control(), "control {:x}", code);
            assert_eq!(is_whitespace(c), c.is_whitespace(), "whitespace {:x}", code);
        }
    }
}

#[test]
fn characters_and_texts_convert() {
    assert_eq!(chars_of("a\u{e9}z"), vec!['a', '\u{e9}', 'z']);
    assert!(chars_of("").is_empty());
    assert_eq!(text_of(&vec!['a', '\u{1F600}']), "a\u{1F600}");
    assert_eq!(text::concat("ab", "cd"), "abcd");
    assert_eq!(text::concat("", ""), "");
}

#[test]
fn trimming_is_that_of_the_standard_library() {
    for raw in ["", " ", "a", "  a b  ", "\t\na\r\n", "\u{a0}x\u{3000}", " \u{85} ", "a  ", "  a", "\u{200b}a"] {
        let ours: String = trim(&raw.chars().collect()).into_iter().collect();
        assert_eq!(ours, raw.trim(), "{:?}", raw);
    }
}

#[test]
fn names_are_trimmed_then_cleaned() {
    assert_eq!(sanitize("  alpha  "), "alpha");
    assert_eq!(sanitize("al\u{0}pha"), "al_pha");
    assert_eq!(sanitize("a\u{9f}b"), "a_b");
    // A tab at the end is whitespace and goes; one in the middle is a control code.
    assert_eq!(sanitize("a\tb\t"), "a_b");
    assert_eq!(sanitize("\u{1b}[0m"), "_[0m");
    assert_eq!(sanitize(""), "");
}

#[test]
fn numbers_are_written_in_decimal() {
    assert_eq!(decimal(0), "0");
    assert_eq!(decimal(9), "9");
    assert_eq!(decimal(10), "10");
    assert_eq!(decimal(1024), "1024");
    assert_eq!(decimal(u64::MAX), "18446744073709551615");
    for n in [1u64, 99, 100, 65535, 1_000_000_007] {
        assert_eq!(decimal(n), n.to_string());
    }
}

#[test]
fn paths_split_into_their_components() {
    assert_eq!(split_components("/tmp/srv/alpha/photo1.jpg"), names(&["tmp", "srv", "alpha", "photo1.jpg"]));
    assert_eq!(split_components("alpha//sub/"), names(&["alpha", "sub"]));
    assert_eq!(split_components("a"), names(&["a"]));
    assert!(split_components("").is_empty());
    assert!(split_components("///").is_empty());
    let chars: Vec<char> = "+a/b".chars().collect();
    assert_eq!(components_from(&chars, 1), names(&["a", "b"]));
    assert_eq!(components_from(&chars, 0), names(&["+a", "b"]));
    assert!(components_from(&chars, 4).is_empty());
}

#[test]
fn components_join_with_slashes() {
    let list = names(&["a", "b", "c"]);
    assert_eq!(join_components(&list, 0), "a/b/c");
    assert_eq!(join_components(&list, 1), "b/c");
    assert_eq!(join_components(&list, 2), "c");
    assert_eq!(join_components(&list, 3), "");
}

#[test]
fn paths_are_seen_from_a_directory() {
    assert_eq!(relative_to("/w/a/b.jpg", "/w"), Some("a/b.jpg".to_string()));
    assert_eq!(relative_to("/w/a/b.jpg", "/w/a/"), Some("b.jpg".to_string()));
    assert_eq!(relative_to("/w/a/b.jpg", ""), Some("w/a/b.jpg".to_string()));
    assert_eq!(relative_to("/w/a/b.jpg", "/x"), None);
    assert_eq!(relative_to("/w/a", "/w/a"), None);
    assert_eq!(relative_to("/w", "/w/a"), None);
}

#[test]
fn the_last_component_and_its_extension() {
    assert_eq!(leaf_of("/w/a/b.jpg"), Some("b.jpg".to_string()));
    assert_eq!(leaf_of("b.jpg"), Some("b.jpg".to_string()));
    assert_eq!(leaf_of("/w/a/"), Some("a".to_string()));
    assert_eq!(leaf_of("/"), None);
    assert_eq!(extension_of("b.jpg"), Some("jpg".to_string()));
    assert_eq!(extension_of("b.tar.gz"), Some("gz".to_string()));
    assert_eq!(extension_of("b"), None);
    assert_eq!(extension_of(".hidden"), None);
    assert_eq!(extension_of(".hidden.txt"), Some("txt".to_string()));
    assert_eq!(extension_of("b."), Some(String::new()));
    assert_eq!(extension_of(""), None);
}
