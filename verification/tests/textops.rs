use bibkeys::{contains_text, join_text, parse_bool_text, split_text, str_eq};

#[test]
fn split_on_separator_exact() {
    let parts = split_text("a%%%b%%%c", "%%%");
    assert_eq!(parts, vec!["a".to_string(), "b".to_string(), "c".to_string()]);
}

#[test]
fn split_without_occurrence_is_one_piece() {
    let parts = split_text("abc", ",");
    assert_eq!(parts, vec!["abc".to_string()]);
}

#[test]
fn split_keeps_empty_pieces() {
    let parts = split_text(",a,,b,", ",");
    assert_eq!(
        parts,
        vec!["".to_string(), "a".to_string(), "".to_string(), "b".to_string(), "".to_string()]
    );
}

#[test]
fn split_of_empty_text_is_one_empty_piece() {
    let parts = split_text("", ",");
    assert_eq!(parts, vec!["".to_string()]);
}

#[test]
fn join_with_spaces_exact() {
    let parts = vec!["z".to_string(), "x".to_string(), "y".to_string()];
    assert_eq!(join_text(&parts, " "), "z x y".to_string());
}

#[test]
fn join_of_nothing_is_empty() {
    let parts: Vec<String> = Vec::new();
    assert_eq!(join_text(&parts, " "), "".to_string());
}

#[test]
fn split_then_join_restores_comma_list() {
    let parts = split_text("alpha,beta,gamma", ",");
    assert_eq!(join_text(&parts, ","), "alpha,beta,gamma".to_string());
}

#[test]
fn bool_micro_format() {
    assert_eq!(parse_bool_text("true"), Some(true));
    assert_eq!(parse_bool_text("false"), Some(false));
    assert_eq!(parse_bool_text("True"), None);
    assert_eq!(parse_bool_text(""), None);
}

#[test]
fn string_equality_by_characters() {
    assert!(str_eq("käse", "käse"));
    assert!(!str_eq("a", "ab"));
    assert!(!str_eq("ab", "ac"));
}

#[test]
fn membership_by_characters() {
    let hay = vec!["x".to_string(), "y".to_string()];
    assert!(contains_text(&hay, "y"));
    assert!(!contains_text(&hay, "z"));
}
