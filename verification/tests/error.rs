use opentag::error::Error;

#[test]
fn messages_name_the_offending_tag() {
    assert_eq!(
        Error::NameInUse("work".to_string()).message(),
        "a tag with name `work` already exists"
    );
    assert_eq!(
        Error::ReservedName("add".to_string()).message(),
        "`add` cannot be used as a tag name"
    );
    assert_eq!(
        Error::UnexpectedCommand("frob".to_string()).message(),
        "unexpected command: frob"
    );
}

#[test]
fn fixed_messages_match() {
    assert_eq!(Error::MissingName.message(), "there must be at least one name");
    assert_eq!(Error::NoTagFound.message(), "no tag found");
    assert_eq!(Error::EmptyName.message(), "tag names cannot be empty");
    assert_eq!(Error::NameWithSpaces.message(), "tag names cannot contain spaces");
    assert_eq!(
        Error::NameBeginsWithHyphen.message(),
        "tag names cannot begin with hyphens"
    );
    assert_eq!(Error::TagWithNoPath.message(), "tag has no path or URL");
}
