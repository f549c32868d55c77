use org2subtext::resolver::LinkIndex;
use org2subtext::resolver::unquote;

#[test]
fn unquote_strips_one_leading_and_one_trailing_character() {
    assert_eq!(unquote("\"My Note\""), "My Note");
    assert_eq!(unquote("\"\""), "");
}

#[test]
fn unquote_of_short_strings_is_empty() {
    assert_eq!(unquote(""), "");
    assert_eq!(unquote("a"), "");
    assert_eq!(unquote("ab"), "");
}

#[test]
fn unquote_handles_multibyte_characters() {
    assert_eq!(unquote("\"héllo\""), "héllo");
}

#[test]
fn resolve_finds_an_inserted_title() {
    let mut index = LinkIndex::new();
    index.insert(String::from("abc"), String::from("My Note"));
    assert_eq!(index.resolve("abc"), Some(String::from("My Note")));
}

#[test]
fn resolve_of_an_unknown_identifier_is_none() {
    let mut index = LinkIndex::new();
    index.insert(String::from("abc"), String::from("My Note"));
    assert_eq!(index.resolve("nope"), None);
}

#[test]
fn resolve_returns_the_first_match_for_a_duplicate_identifier() {
    let mut index = LinkIndex::new();
    index.insert(String::from("abc"), String::from("first"));
    index.insert(String::from("abc"), String::from("second"));
    assert_eq!(index.resolve("abc"), Some(String::from("first")));
}

#[test]
fn resolve_is_idempotent_against_an_unchanged_index() {
    let mut index = LinkIndex::new();
    index.insert(String::from("abc"), String::from("My Note"));
    assert_eq!(index.resolve("abc"), index.resolve("abc"));
}
