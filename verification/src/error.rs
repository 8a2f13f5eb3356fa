//! The error type shared by validation, resolution and mutation.

use vstd::prelude::*;
use vstd::string::StringExecFns;

verus! {

/// Everything that can go wrong while validating names, resolving an
/// invocation or mutating the tree. Each kind is detected synchronously and
/// surfaced as a single terminating failure.
#[derive(Debug)]
pub enum Error {
    /// A tag with this name already exists at the targeted level.
    NameInUse(String),
    /// The name is a reserved management word.
    ReservedName(String),
    /// An edit left a tag without any name.
    MissingName,
    /// No tag matches the invocation.
    NoTagFound,
    /// A tag name may not be empty.
    EmptyName,
    /// A tag name may not contain spaces.
    NameWithSpaces,
    /// A tag name may not begin with a hyphen.
    NameBeginsWithHyphen,
    /// The action needs a path, but the tag is a pure grouping node.
    TagWithNoPath,
    /// A management word that the dispatcher does not know.
    UnexpectedCommand(String),
}

impl Error {
    /// The human-readable message for this error.
    pub fn message(&self) -> (r: String)
        ensures
            r@ == self.spec_message(),
    {
        match self {
            Error::NameInUse(n) => "a tag with name `".to_owned().concat(n.as_str()).concat(
                "` already exists",
            ),
            Error::ReservedName(n) => "`".to_owned().concat(n.as_str()).concat(
                "` cannot be used as a tag name",
            ),
            Error::MissingName => "there must be at least one name".to_owned(),
            Error::NoTagFound => "no tag found".to_owned(),
            Error::EmptyName => "tag names cannot be empty".to_owned(),
            Error::NameWithSpaces => "tag names cannot contain spaces".to_owned(),
            Error::NameBeginsWithHyphen => "tag names cannot begin with hyphens".to_owned(),
            Error::TagWithNoPath => "tag has no path or URL".to_owned(),
            Error::UnexpectedCommand(c) => "unexpected command: ".to_owned().concat(c.as_str()),
        }
    }

    /// The message each error kind carries.
    pub open spec fn spec_message(self) -> Seq<char> {
        match self {
            Error::NameInUse(n) => "a tag with name `"@ + n@ + "` already exists"@,
            Error::ReservedName(n) => "`"@ + n@ + "` cannot be used as a tag name"@,
            Error::MissingName => "there must be at least one name"@,
            Error::NoTagFound => "no tag found"@,
            Error::EmptyName => "tag names cannot be empty"@,
            Error::NameWithSpaces => "tag names cannot contain spaces"@,
            Error::NameBeginsWithHyphen => "tag names cannot begin with hyphens"@,
            Error::TagWithNoPath => "tag has no path or URL"@,
            Error::UnexpectedCommand(c) => "unexpected command: "@ + c@,
        }
    }
}

/// The result type shared by the fallible operations of this crate.
pub type TagResult<T> = Result<T, Error>;

} // verus!
