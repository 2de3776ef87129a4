use code_graph::text::{
    char_is_whitespace, has_prefix, join_strs, owned, split_str, strip_prefix, text_eq,
    to_lowercase, trim_str,
};

#[test]
fn lowercase_of_mixed_case_word() {
    assert_eq!(to_lowercase("PuBLiC"), "public");
    assert_eq!(to_lowercase("already"), "already");
    assert_eq!(to_lowercase(""), "");
}

#[test]
fn owned_copies_text() {
    assert_eq!(owned("abc"), String::from("abc"));
}

#[test]
fn text_equality() {
    assert!(text_eq("abc", "abc"));
    assert!(!text_eq("abc", "abd"));
    assert!(!text_eq("abc", "ab"));
    assert!(text_eq("", ""));
}

#[test]
fn prefix_checks() {
    assert!(has_prefix("permits A, B", "permits "));
    assert!(!has_prefix("permit", "permits "));
    assert!(has_prefix("x", ""));
    assert_eq!(strip_prefix("class T", "class "), Some("T"));
    assert_eq!(strip_prefix("typename T", "class "), None);
    assert_eq!(strip_prefix("", ""), Some(""));
}

#[test]
fn whitespace_and_trim() {
    assert!(char_is_whitespace(' '));
    assert!(char_is_whitespace('\n'));
    assert!(char_is_whitespace('\t'));
    assert!(!char_is_whitespace('a'));
    assert_eq!(trim_str("  a b \n"), "a b");
    assert_eq!(trim_str("   "), "");
    assert_eq!(trim_str("x"), "x");
}

#[test]
fn split_keeps_empty_pieces() {
    assert_eq!(split_str("a,b,,c", ','), vec!["a", "b", "", "c"]);
    assert_eq!(split_str("", ','), vec![""]);
    assert_eq!(split_str("one", ','), vec!["one"]);
    assert_eq!(split_str(" A, B", ','), vec![" A", " B"]);
}

#[test]
fn join_with_separator() {
    let pieces = vec![String::from("IOException"), String::from("RuntimeException")];
    assert_eq!(join_strs(&pieces, ","), "IOException,RuntimeException");
    assert_eq!(join_strs(&Vec::new(), ","), "");
    assert_eq!(join_strs(&vec![String::from("x")], ", "), "x");
}

#[test]
fn trim_and_split_agree_with_std() {
    for s in ["", " ", "\u{3000}x\u{A0}", "\t a \r\n", "a,b", ",,", "no sep"] {
        assert_eq!(trim_str(s), s.trim());
        let ours = split_str(s, ',');
        let std_pieces: Vec<String> = s.split(',').map(String::from).collect();
        assert_eq!(ours, std_pieces);
        for c in s.chars() {
            assert_eq!(char_is_whitespace(c), c.is_whitespace());
        }
    }
}
