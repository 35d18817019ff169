use anthea::text::split;

#[test]
fn test_split() {
    assert_eq!(vec!("hello"), split("hello", 10));
    assert_eq!(vec!("hello"), split("hello", 3));
    assert_eq!(vec!("hello world"), split("hello world", 20));
    assert_eq!(vec!("hello", "world"), split("hello world", 10));
    assert_eq!(vec!("hello crual", "world"), split("hello crual world", 15));
    assert_eq!(vec!("ab cd", "ef gh", "ij"), split("ab cd ef gh ij", 5));
    assert_eq!(vec!("ab cd", "ef gh", "ij"), split("ab cd ef gh ij", 6));
}

#[test]
fn split_keeps_short_text_whole() {
    assert_eq!(vec!(""), split("", 4));
    assert_eq!(vec!("a b"), split("a b", 4));
}

#[test]
fn split_counts_bytes_not_chars() {
    // "éé" is four bytes long: at width 4 it is not shorter than the width.
    assert_eq!(vec!("éé"), split("éé", 4));
    assert_eq!(vec!("éé", "ab"), split("éé ab", 4));
}

#[test]
fn split_empty_text_at_zero_width_has_no_line() {
    let empty: Vec<String> = Vec::new();
    assert_eq!(empty, split("", 0));
}

#[test]
fn split_breaks_at_any_unicode_space() {
    assert_eq!(split("ab\tcd\u{a0}ef", 5), vec!["ab\tcd".to_string(), "ef".to_string()]);
    assert_eq!(split("ab\u{3000}cd", 3), vec!["ab".to_string(), "cd".to_string()]);
}

#[test]
fn split_lines_join_back_to_single_spaced_text() {
    for text in ["hello crual world", "ab cd ef gh ij", "a bb ccc dddd eeeee", "supercalifragilistic word"] {
        for width in 0..25 {
            assert_eq!(split(text, width).join(" "), text);
        }
    }
}
