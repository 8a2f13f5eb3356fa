//! The invocation resolver: walks the segments of an invocation down the
//! tree, reserved words first, and locates the tag the invocation names, or
//! the management operation it requests, or reports that nothing matches.

use vstd::prelude::*;
use crate::reserved::{mgmt_op_of, parse_mgmt_op, MgmtOp};
use crate::tag::{Tag, Tags};
use crate::validate::name_in;

verus! {

/// Where an invocation landed: a tag, addressed by its path of sibling
/// indices; a management operation, with the path of the node whose level
/// it should act on (empty for the root level); or nothing.
pub enum Resolved {
    /// The invocation fully names a live tag.
    Tag {
        /// Sibling indices from the root to the named tag.
        path: Vec<usize>,
    },
    /// The invocation stopped at a reserved management word.
    Management {
        /// Sibling indices from the root to the node whose subtags the
        /// operation targets; empty when it targets the root level.
        parent: Vec<usize>,
        /// The management operation named by the reserved word.
        op: MgmtOp,
    },
    /// Some segment matched nothing at its level.
    NotFound,
}

/// The ghost mirror of [`Resolved`], over sequences.
pub enum SpecResolved {
    /// A tag, by its index path.
    Tag(Seq<usize>),
    /// A management operation, by its parent path.
    Management(Seq<usize>, MgmtOp),
    /// Nothing matched.
    NotFound,
}

/// What an exec resolution result denotes.
pub open spec fn resolved_view(r: Resolved) -> SpecResolved {
    match r {
        Resolved::Tag { path } => SpecResolved::Tag(path@),
        Resolved::Management { parent, op } => SpecResolved::Management(parent@, op),
        Resolved::NotFound => SpecResolved::NotFound,
    }
}

/// The index of the first tag at or after `i` one of whose names is `s`,
/// if any. A tombstone has no names and can never match.
pub open spec fn first_match(ts: Seq<Tag>, s: Seq<char>, i: int) -> Option<int>
    decreases ts.len() - i,
{
    if i < 0 || i >= ts.len() {
        None
    } else if ts[i].names_view().contains(s) {
        Some(i)
    } else {
        first_match(ts, s, i + 1)
    }
}

/// `first_match` returns the least matching index at or after `i`, or
/// `None` when no tag of the level carries the name.
pub proof fn lemma_first_match(ts: Seq<Tag>, s: Seq<char>, i: int)
    requires
        0 <= i <= ts.len(),
    ensures
        match first_match(ts, s, i) {
            Some(k) => i <= k < ts.len() && ts[k].names_view().contains(s) && (forall|j: int|
                i <= j < k ==> !(#[trigger] ts[j].names_view()).contains(s)),
            None => forall|j: int| i <= j < ts.len() ==> !(#[trigger] ts[j].names_view()).contains(
                s,
            ),
        },
    decreases ts.len() - i,
{
    if i < ts.len() && !ts[i].names_view().contains(s) {
        lemma_first_match(ts, s, i + 1);
    }
}

/// What resolving `segs` against the level `ts` yields. At each level the
/// reserved words take precedence; then the live tags are scanned in order
/// for a name or alias match; a matched tag with segments left descends
/// into its subtags.
pub open spec fn spec_resolve(ts: Seq<Tag>, segs: Seq<Seq<char>>) -> SpecResolved
    decreases segs.len(),
{
    if segs.len() == 0 {
        SpecResolved::NotFound
    } else {
        let s = segs[0];
        match mgmt_op_of(s) {
            Some(op) => SpecResolved::Management(Seq::empty(), op),
            None => match first_match(ts, s, 0) {
                None => SpecResolved::NotFound,
                Some(i) => if segs.len() == 1 {
                    SpecResolved::Tag(seq![i as usize])
                } else {
                    match spec_resolve(ts[i].subtags@, segs.skip(1)) {
                        SpecResolved::Tag(p) => SpecResolved::Tag(seq![i as usize] + p),
                        SpecResolved::Management(p, op) => SpecResolved::Management(
                            seq![i as usize] + p,
                            op,
                        ),
                        SpecResolved::NotFound => SpecResolved::NotFound,
                    }
                },
            },
        }
    }
}

/// Scans one level for the first tag carrying the name `s`.
fn find_match(tags: &Tags, s: &String) -> (r: Option<usize>)
    ensures
        match r {
            Some(i) => first_match(tags@, s@, 0) == Some(i as int),
            None => first_match(tags@, s@, 0) is None,
        },
{
    let mut i: usize = 0;
    while i < tags.len()
        invariant
            0 <= i <= tags@.len(),
            forall|j: int| 0 <= j < i ==> !(#[trigger] tags@[j].names_view()).contains(s@),
        decreases tags@.len() - i,
    {
        if name_in(&tags[i].names, s) {
            proof {
                assert(tags@[i as int].names.deep_view() == tags@[i as int].names_view());
                lemma_first_match(tags@, s@, 0);
                assert(first_match(tags@, s@, 0) == Some(i as int)) by {
                    match first_match(tags@, s@, 0) {
                        Some(k) => {
                            assert(!tags@[k].names_view().contains(s@) || k >= i);
                            assert(k == i);
                        },
                        None => {
                            assert(false);
                        },
                    }
                }
            }
            return Some(i);
        }
        proof {
            assert(tags@[i as int].names.deep_view() == tags@[i as int].names_view());
        }
        i = i + 1;
    }
    proof {
        lemma_first_match(tags@, s@, 0);
    }
    None
}

/// Resolves `segments[from..]` against the level `tags`.
fn resolve_from(tags: &Tags, segments: &Vec<String>, from: usize) -> (r: Resolved)
    requires
        from < segments@.len(),
    ensures
        resolved_view(r) == spec_resolve(tags@, segments.deep_view().skip(from as int)),
    decreases segments@.len() - from,
{
    let ghost segs = segments.deep_view().skip(from as int);
    proof {
        assert(segments.deep_view().len() == segments@.len());
        assert(segs[0] == segments@[from as int]@);
    }
    let s = &segments[from];
    if let Some(op) = parse_mgmt_op(s.as_str()) {
        let parent: Vec<usize> = Vec::new();
        proof {
            assert(parent@ =~= Seq::<usize>::empty());
        }
        return Resolved::Management { parent, op };
    }
    match find_match(tags, s) {
        None => Resolved::NotFound,
        Some(i) => {
            proof {
                lemma_first_match(tags@, s@, 0);
            }
            if from == segments.len() - 1 {
                let mut path: Vec<usize> = Vec::new();
                path.push(i);
                proof {
                    assert(path@ =~= seq![i]);
                }
                Resolved::Tag { path }
            } else {
                proof {
                    assert(segments.deep_view().skip(from as int).skip(1) =~= segments.deep_view()
                        .skip(from + 1));
                }
                match resolve_from(&tags[i].subtags, segments, from + 1) {
                    Resolved::Tag { mut path } => {
                        let ghost sub = path@;
                        path.insert(0, i);
                        proof {
                            assert(path@ =~= seq![i] + sub);
                        }
                        Resolved::Tag { path }
                    },
                    Resolved::Management { mut parent, op } => {
                        let ghost sub = parent@;
                        parent.insert(0, i);
                        proof {
                            assert(parent@ =~= seq![i] + sub);
                        }
                        Resolved::Management { parent, op }
                    },
                    Resolved::NotFound => Resolved::NotFound,
                }
            }
        },
    }
}

/// Resolves an invocation, one segment per level, against the tree: a
/// reserved first segment at any level dispatches to management for the
/// level reached so far; otherwise the segment must name a live tag, and
/// the walk continues under it.
pub fn resolve(tags: &Tags, segments: &Vec<String>) -> (r: Resolved)
    requires
        segments@.len() > 0,
    ensures
        resolved_view(r) == spec_resolve(tags@, segments.deep_view()),
{
    let r = resolve_from(tags, segments, 0);
    proof {
        assert(segments.deep_view().skip(0) =~= segments.deep_view());
    }
    r
}

} // verus!
