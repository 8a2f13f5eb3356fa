//! Naming-policy checks for user-supplied tag names. They run at input
//! parsing time, before any tree mutation, so a rejected name never reaches
//! the mutation engine.

use vstd::prelude::*;
use crate::error::{Error, TagResult};
use crate::reserved::{is_reserved, is_reserved_name};
use crate::strutil::{spec_split, split_str, str_contains_char};

verus! {

/// The index of the first piece that is a reserved word, if any.
pub open spec fn first_reserved(parts: Seq<Seq<char>>) -> Option<int>
    decreases parts.len(),
{
    if parts.len() == 0 {
        None
    } else if is_reserved(parts[0]) {
        Some(0)
    } else {
        match first_reserved(parts.skip(1)) {
            Some(i) => Some(i + 1),
            None => None,
        }
    }
}

/// `first_reserved` returns the least index holding a reserved word, or
/// `None` when none occurs.
pub proof fn lemma_first_reserved(parts: Seq<Seq<char>>)
    ensures
        match first_reserved(parts) {
            Some(i) => 0 <= i < parts.len() && is_reserved(parts[i]) && (forall|j: int|
                0 <= j < i ==> !is_reserved(parts[j])),
            None => forall|j: int| 0 <= j < parts.len() ==> !is_reserved(parts[j]),
        },
    decreases parts.len(),
{
    if parts.len() > 0 && !is_reserved(parts[0]) {
        let t = parts.skip(1);
        lemma_first_reserved(t);
        assert(forall|j: int| 0 <= j < t.len() ==> t[j] == parts[j + 1]);
        match first_reserved(t) {
            Some(i) => {
                assert(parts[i + 1] == t[i]);
                assert forall|j: int| 0 <= j < i + 1 implies !is_reserved(parts[j]) by {
                    if j > 0 {
                        assert(parts[j] == t[j - 1]);
                    }
                }
            },
            None => {
                assert forall|j: int| 0 <= j < parts.len() implies !is_reserved(parts[j]) by {
                    if j > 0 {
                        assert(parts[j] == t[j - 1]);
                    }
                }
            },
        }
    }
}

/// What `tag_name_parser` decides for a candidate primary name.
pub open spec fn name_verdict(s: Seq<char>, r: TagResult<String>) -> bool {
    if s.len() == 0 {
        r matches Err(Error::EmptyName)
    } else if s.contains(' ') {
        r matches Err(Error::NameWithSpaces)
    } else if s[0] == '-' {
        r matches Err(Error::NameBeginsWithHyphen)
    } else if is_reserved(s) {
        r matches Err(Error::ReservedName(n)) && n@ == s
    } else {
        r matches Ok(n) && n@ == s
    }
}

/// Accepts a primary tag name: non-empty, without spaces, not beginning with
/// a hyphen, and not a reserved management word.
pub fn tag_name_parser(s: &str) -> (r: TagResult<String>)
    ensures
        name_verdict(s@, r),
{
    if s.unicode_len() == 0 {
        return Err(Error::EmptyName);
    }
    if str_contains_char(s, ' ') {
        return Err(Error::NameWithSpaces);
    }
    if s.get_char(0) == '-' {
        return Err(Error::NameBeginsWithHyphen);
    }
    if is_reserved_name(s) {
        return Err(Error::ReservedName(s.to_owned()));
    }
    Ok(s.to_owned())
}

/// What `tag_aliases_parser` decides for a comma-separated alias list.
pub open spec fn aliases_verdict(s: Seq<char>, r: TagResult<Vec<String>>) -> bool {
    if s.contains(' ') {
        r matches Err(Error::NameWithSpaces)
    } else if s.len() > 0 && s[0] == '-' {
        r matches Err(Error::NameBeginsWithHyphen)
    } else {
        match first_reserved(spec_split(s, ',')) {
            Some(i) => r matches Err(Error::ReservedName(n)) && n@ == spec_split(s, ',')[i],
            None => r matches Ok(v) && v.deep_view() == spec_split(s, ','),
        }
    }
}

/// Accepts a comma-separated alias list: no spaces, no leading hyphen, and
/// no piece equal to a reserved management word.
pub fn tag_aliases_parser(s: &str) -> (r: TagResult<Vec<String>>)
    ensures
        aliases_verdict(s@, r),
{
    if str_contains_char(s, ' ') {
        return Err(Error::NameWithSpaces);
    }
    if s.unicode_len() > 0 && s.get_char(0) == '-' {
        return Err(Error::NameBeginsWithHyphen);
    }
    let names = split_str(s, ',');
    let ghost parts = spec_split(s@, ',');
    let mut i: usize = 0;
    proof {
        lemma_first_reserved(parts);
        assert(names.deep_view().len() == names@.len());
    }
    while i < names.len()
        invariant
            parts == spec_split(s@, ','),
            !s@.contains(' '),
            !(s@.len() > 0 && s@[0] == '-'),
            names.deep_view() == parts,
            names@.len() == parts.len(),
            0 <= i <= parts.len(),
            forall|j: int| 0 <= j < i ==> !is_reserved(parts[j]),
        decreases names@.len() - i,
    {
        proof {
            assert(names@[i as int]@ == parts[i as int]);
        }
        if is_reserved_name(names[i].as_str()) {
            let n = names[i].clone();
            proof {
                assert(n@ == parts[i as int]);
                lemma_first_reserved(parts);
                assert(first_reserved(parts) == Some(i as int)) by {
                    match first_reserved(parts) {
                        Some(k) => {
                            assert(!is_reserved(parts[k]) || k >= i);
                            assert(k == i);
                        },
                        None => {
                            assert(false);
                        },
                    }
                }
            }
            return Err(Error::ReservedName(n));
        }
        i = i + 1;
    }
    proof {
        lemma_first_reserved(parts);
    }
    Ok(names)
}

} // verus!
