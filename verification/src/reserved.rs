//! The reserved management words, defined in one place: a tag may never be
//! named after one, and an invocation segment equal to one always dispatches
//! to management instead of a tag.

use vstd::prelude::*;

verus! {

/// A management operation, one per reserved word.
#[derive(Clone, Copy, Debug, PartialEq, Eq, Structural)]
pub enum MgmtOp {
    /// Append a new tag under the targeted level.
    Add,
    /// Tombstone the targeted tag.
    Remove,
    /// Edit the fields of the targeted tag.
    Update,
}

/// The management operation a name stands for, if it is reserved.
pub open spec fn mgmt_op_of(name: Seq<char>) -> Option<MgmtOp> {
    if name == "add"@ {
        Some(MgmtOp::Add)
    } else if name == "remove"@ {
        Some(MgmtOp::Remove)
    } else if name == "update"@ {
        Some(MgmtOp::Update)
    } else {
        None
    }
}

/// Whether `name` is one of the reserved management words.
pub open spec fn is_reserved(name: Seq<char>) -> bool {
    mgmt_op_of(name) is Some
}

/// Compares two strings by their characters.
pub fn str_eq(a: &str, b: &str) -> (r: bool)
    ensures
        r == (a@ == b@),
{
    a.to_owned() == b.to_owned()
}

/// Parses a segment as a management word.
pub fn parse_mgmt_op(s: &str) -> (r: Option<MgmtOp>)
    ensures
        r == mgmt_op_of(s@),
{
    if str_eq(s, "add") {
        Some(MgmtOp::Add)
    } else if str_eq(s, "remove") {
        Some(MgmtOp::Remove)
    } else if str_eq(s, "update") {
        Some(MgmtOp::Update)
    } else {
        None
    }
}

/// Whether `s` is a reserved management word.
pub fn is_reserved_name(s: &str) -> (r: bool)
    ensures
        r == is_reserved(s@),
{
    parse_mgmt_op(s).is_some()
}

} // verus!
