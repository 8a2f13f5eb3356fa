use opentag::error::Error;
use opentag::parser::{tag_aliases_parser, tag_name_parser};

#[test]
fn name_parser_accepts_plain_name() {
    let r = tag_name_parser("work");
    assert!(matches!(r, Ok(ref n) if n == "work"));
}

#[test]
fn name_parser_rejects_empty() {
    assert!(matches!(tag_name_parser(""), Err(Error::EmptyName)));
}

#[test]
fn name_parser_rejects_spaces() {
    assert!(matches!(tag_name_parser("my tag"), Err(Error::NameWithSpaces)));
}

#[test]
fn name_parser_rejects_leading_hyphen() {
    assert!(matches!(tag_name_parser("-work"), Err(Error::NameBeginsWithHyphen)));
}

#[test]
fn name_parser_rejects_each_reserved_word() {
    assert!(matches!(tag_name_parser("add"), Err(Error::ReservedName(ref n)) if n == "add"));
    assert!(matches!(tag_name_parser("remove"), Err(Error::ReservedName(ref n)) if n == "remove"));
    assert!(matches!(tag_name_parser("update"), Err(Error::ReservedName(ref n)) if n == "update"));
}

#[test]
fn name_parser_accepts_near_reserved() {
    assert!(matches!(tag_name_parser("added"), Ok(ref n) if n == "added"));
}

#[test]
fn aliases_parser_splits_on_commas() {
    let r = tag_aliases_parser("x,y,z").unwrap();
    assert_eq!(r, vec!["x".to_string(), "y".to_string(), "z".to_string()]);
}

#[test]
fn aliases_parser_keeps_empty_pieces() {
    let r = tag_aliases_parser("x,,y").unwrap();
    assert_eq!(r, vec!["x".to_string(), "".to_string(), "y".to_string()]);
}

#[test]
fn aliases_parser_empty_input_is_one_empty_alias() {
    let r = tag_aliases_parser("").unwrap();
    assert_eq!(r, vec!["".to_string()]);
}

#[test]
fn aliases_parser_rejects_spaces() {
    assert!(matches!(tag_aliases_parser("a, b"), Err(Error::NameWithSpaces)));
}

#[test]
fn aliases_parser_rejects_leading_hyphen() {
    assert!(matches!(tag_aliases_parser("-a,b"), Err(Error::NameBeginsWithHyphen)));
}

#[test]
fn aliases_parser_rejects_first_reserved_piece() {
    let r = tag_aliases_parser("ok,update,add");
    assert!(matches!(r, Err(Error::ReservedName(ref n)) if n == "update"));
}
