//! The validator: no two sibling tags may share a name, and no name may be a
//! reserved management word. It can run on one level (the incremental check
//! used by `add`) or over the whole tree (the check gating a writeback).

use vstd::prelude::*;
use crate::error::{Error, TagResult};
use crate::reserved::{is_reserved, is_reserved_name};
use crate::tag::{level_names, Tag, Tags};

verus! {

/// A naming conflict, in ghost form: either a name used twice at one level,
/// or a name equal to a reserved word.
pub enum NameConflict {
    /// The name occurs more than once at a level.
    InUse(Seq<char>),
    /// The name is a reserved management word.
    Res(Seq<char>),
}

/// Whether the exec error reports exactly the ghost conflict.
pub open spec fn error_matches(e: Error, c: NameConflict) -> bool {
    match c {
        NameConflict::InUse(n) => e matches Error::NameInUse(s) && s@ == n,
        NameConflict::Res(n) => e matches Error::ReservedName(s) && s@ == n,
    }
}

/// Whether the name at position `j` of a scan conflicts: it already occurred
/// earlier, or it is reserved.
pub open spec fn conflict_at(ns: Seq<Seq<char>>, j: int) -> bool {
    ns.take(j).contains(ns[j]) || is_reserved(ns[j])
}

/// The position of the first conflicting name at or after `j`, if any.
pub open spec fn first_conflict_from(ns: Seq<Seq<char>>, j: int) -> Option<int>
    decreases ns.len() - j,
{
    if j < 0 || j >= ns.len() {
        None
    } else if conflict_at(ns, j) {
        Some(j)
    } else {
        first_conflict_from(ns, j + 1)
    }
}

/// A scan order free of conflicts means: all names distinct, none reserved.
pub open spec fn names_ok(ns: Seq<Seq<char>>) -> bool {
    &&& forall|p: int, q: int| 0 <= p < q < ns.len() ==> ns[p] != ns[q]
    &&& forall|p: int| 0 <= p < ns.len() ==> !is_reserved(#[trigger] ns[p])
}

/// A sibling level is in order when the scan of all its names, in order,
/// finds no conflict.
pub open spec fn level_ok(ts: Seq<Tag>) -> bool {
    names_ok(level_names(ts))
}

/// The ghost conflict a conflicting scan position reports.
pub open spec fn conflict_of(ns: Seq<Seq<char>>, j: int) -> NameConflict {
    if ns.take(j).contains(ns[j]) {
        NameConflict::InUse(ns[j])
    } else {
        NameConflict::Res(ns[j])
    }
}

/// The first conflict of one sibling level, if any.
pub open spec fn level_conflict(ts: Seq<Tag>) -> Option<NameConflict> {
    let ns = level_names(ts);
    match first_conflict_from(ns, 0) {
        None => None,
        Some(j) => Some(conflict_of(ns, j)),
    }
}

/// `first_conflict_from(ns, j)` finds the least conflicting position at or
/// after `j`, or nothing when no such position exists.
pub proof fn lemma_first_conflict_from(ns: Seq<Seq<char>>, j: int)
    requires
        0 <= j <= ns.len(),
    ensures
        match first_conflict_from(ns, j) {
            Some(k) => j <= k < ns.len() && conflict_at(ns, k) && (forall|l: int|
                j <= l < k ==> !conflict_at(ns, l)),
            None => forall|l: int| j <= l < ns.len() ==> !conflict_at(ns, l),
        },
    decreases ns.len() - j,
{
    if j < ns.len() && !conflict_at(ns, j) {
        lemma_first_conflict_from(ns, j + 1);
    }
}

/// A conflict-free scan is exactly a level with distinct, unreserved names.
pub proof fn lemma_names_ok(ns: Seq<Seq<char>>)
    ensures
        (first_conflict_from(ns, 0) is None) == names_ok(ns),
{
    lemma_first_conflict_from(ns, 0);
    if first_conflict_from(ns, 0) is None {
        assert forall|p: int, q: int| 0 <= p < q < ns.len() implies ns[p] != ns[q] by {
            assert(!conflict_at(ns, q));
            if ns[p] == ns[q] {
                assert(ns.take(q)[p] == ns[p]);
                assert(ns.take(q).contains(ns[q]));
            }
        }
        assert forall|p: int| 0 <= p < ns.len() implies !is_reserved(ns[p]) by {
            assert(!conflict_at(ns, p));
        }
    } else {
        let k = first_conflict_from(ns, 0)->0;
        assert(conflict_at(ns, k));
        if ns.take(k).contains(ns[k]) {
            let p = choose|p: int| 0 <= p < k && ns.take(k)[p] == ns[k];
            assert(ns[p] == ns[k]);
            assert(!names_ok(ns));
        } else {
            assert(is_reserved(ns[k]));
            assert(!names_ok(ns));
        }
    }
}

/// Collects every name of one sibling level, in scan order.
pub fn collect_level_names(tags: &Tags) -> (r: Vec<String>)
    ensures
        r.deep_view() == level_names(tags@),
{
    let mut out: Vec<String> = Vec::new();
    let mut i: usize = 0;
    proof {
        assert(out.deep_view() =~= level_names(tags@.take(0)));
    }
    while i < tags.len()
        invariant
            0 <= i <= tags@.len(),
            out.deep_view() == level_names(tags@.take(i as int)),
        decreases tags@.len() - i,
    {
        let names = &tags[i].names;
        let ghost base = level_names(tags@.take(i as int));
        let mut k: usize = 0;
        proof {
            assert(out.deep_view() =~= base + tags@[i as int].names_view().take(0));
        }
        while k < names.len()
            invariant
                0 <= i < tags@.len(),
                0 <= k <= names@.len(),
                names == &tags@[i as int].names,
                out.deep_view() == base + tags@[i as int].names_view().take(k as int),
            decreases names@.len() - k,
        {
            let ghost prev = out.deep_view();
            out.push(names[k].clone());
            proof {
                assert(names@[k as int]@ == tags@[i as int].names_view()[k as int]);
                assert(out.deep_view() =~= prev.push(tags@[i as int].names_view()[k as int]));
                assert(base + tags@[i as int].names_view().take(k + 1) =~= prev.push(
                    tags@[i as int].names_view()[k as int],
                ));
            }
            k = k + 1;
        }
        proof {
            assert(tags@[i as int].names_view().take(names@.len() as int) =~= tags@[i as
                int].names_view());
            lemma_level_names_snoc(tags@, i as int);
        }
        i = i + 1;
    }
    proof {
        assert(tags@.take(tags@.len() as int) =~= tags@);
    }
    out
}

/// Extending a prefix of a level by one tag appends that tag's names to the
/// accumulated scan order.
pub proof fn lemma_level_names_snoc(ts: Seq<Tag>, i: int)
    requires
        0 <= i < ts.len(),
    ensures
        level_names(ts.take(i + 1)) == level_names(ts.take(i)) + ts[i].names_view(),
    decreases i,
{
    if i == 0 {
        assert(ts.take(1)[0] == ts[0]);
        assert(ts.take(1).skip(1) =~= Seq::<Tag>::empty());
        assert(level_names(ts.take(1)) == ts[0].names_view() + level_names(
            Seq::<Tag>::empty(),
        ));
        assert(ts.take(0) =~= Seq::<Tag>::empty());
        assert(level_names(ts.take(1)) =~= level_names(ts.take(0)) + ts[0].names_view());
    } else {
        let rest = ts.skip(1);
        lemma_level_names_snoc(rest, i - 1);
        assert(ts.take(i + 1)[0] == ts[0]);
        assert(ts.take(i + 1).skip(1) =~= rest.take(i));
        assert(ts.take(i).skip(1) =~= rest.take(i - 1));
        assert(ts.take(i)[0] == ts[0]);
        assert(rest[i - 1] == ts[i]);
        assert(level_names(ts.take(i + 1)) == ts[0].names_view() + (level_names(rest.take(i - 1))
            + rest[i - 1].names_view()));
        assert(level_names(ts.take(i)) == ts[0].names_view() + level_names(rest.take(i - 1)));
        assert(ts[0].names_view() + (level_names(rest.take(i - 1)) + ts[i].names_view()) =~= (
        ts[0].names_view() + level_names(rest.take(i - 1))) + ts[i].names_view());
    }
}

/// Whether `name` occurs in the list `seen`.
pub fn name_in(seen: &Vec<String>, name: &String) -> (r: bool)
    ensures
        r == seen.deep_view().contains(name@),
{
    let mut i: usize = 0;
    while i < seen.len()
        invariant
            0 <= i <= seen@.len(),
            forall|j: int| 0 <= j < i ==> seen.deep_view()[j] != name@,
        decreases seen@.len() - i,
    {
        if seen[i] == *name {
            proof {
                assert(seen.deep_view()[i as int] == name@);
            }
            return true;
        }
        i = i + 1;
    }
    false
}

/// What a level scan reports: nothing when the level is in order, else the
/// first conflict, as the matching error.
pub open spec fn level_verdict(ts: Seq<Tag>, r: Option<Error>) -> bool {
    match level_conflict(ts) {
        None => r is None,
        Some(c) => r matches Some(e) && error_matches(e, c),
    }
}

/// Scans one sibling level and reports its first naming conflict: a name
/// seen twice, or a name equal to a reserved word.
pub fn check_level(tags: &Tags) -> (r: Option<Error>)
    ensures
        level_verdict(tags@, r),
        (r is None) == level_ok(tags@),
{
    let names = collect_level_names(tags);
    let ghost ns = level_names(tags@);
    proof {
        lemma_names_ok(ns);
        assert(names.deep_view().len() == names@.len());
    }
    let mut seen: Vec<String> = Vec::new();
    let mut j: usize = 0;
    proof {
        assert(seen.deep_view() =~= ns.take(0));
    }
    while j < names.len()
        invariant
            ns == level_names(tags@),
            names.deep_view() == ns,
            names@.len() == ns.len(),
            0 <= j <= ns.len(),
            seen.deep_view() == ns.take(j as int),
            forall|l: int| 0 <= l < j ==> !conflict_at(ns, l),
        decreases names@.len() - j,
    {
        proof {
            assert(names@[j as int]@ == ns[j as int]);
        }
        let name = &names[j];
        if name_in(&seen, name) {
            proof {
                lemma_first_conflict_from(ns, 0);
                assert(conflict_at(ns, j as int));
                assert(first_conflict_from(ns, 0) == Some(j as int)) by {
                    match first_conflict_from(ns, 0) {
                        Some(k) => {
                            assert(!conflict_at(ns, k) || k >= j);
                            assert(k == j);
                        },
                        None => {
                            assert(false);
                        },
                    }
                }
                lemma_names_ok(ns);
            }
            return Some(Error::NameInUse(name.clone()));
        }
        if is_reserved_name(name.as_str()) {
            proof {
                lemma_first_conflict_from(ns, 0);
                assert(conflict_at(ns, j as int));
                assert(first_conflict_from(ns, 0) == Some(j as int)) by {
                    match first_conflict_from(ns, 0) {
                        Some(k) => {
                            assert(!conflict_at(ns, k) || k >= j);
                            assert(k == j);
                        },
                        None => {
                            assert(false);
                        },
                    }
                }
                lemma_names_ok(ns);
            }
            return Some(Error::ReservedName(name.clone()));
        }
        let ghost prev = seen.deep_view();
        seen.push(name.clone());
        proof {
            assert(seen.deep_view() =~= prev.push(ns[j as int]));
            assert(ns.take(j + 1) =~= ns.take(j as int).push(ns[j as int]));
            assert(!conflict_at(ns, j as int));
        }
        j = j + 1;
    }
    proof {
        lemma_first_conflict_from(ns, 0);
        lemma_names_ok(ns);
        assert(first_conflict_from(ns, 0) is None) by {
            match first_conflict_from(ns, 0) {
                Some(k) => {
                    assert(!conflict_at(ns, k));
                    assert(false);
                },
                None => {},
            }
        }
    }
    None
}

/// A tree is in order when every sibling level, at every depth, is in order.
pub open spec fn tree_ok(ts: Seq<Tag>) -> bool
    decreases ts,
    via tree_ok_decreases
{
    level_ok(ts) && (forall|i: int|
        0 <= i < ts.len() ==> tree_ok(#[trigger] ts[i].subtags@))
}

#[via_fn]
proof fn tree_ok_decreases(ts: Seq<Tag>) {
    assert forall|i: int| 0 <= i < ts.len() implies decreases_to!(ts => ts[i].subtags@) by {
        assert(decreases_to!(ts => ts[i]));
        assert(decreases_to!(ts[i] => ts[i].subtags@));
    }
}

/// The first conflict of the whole tree in pre-order: the level itself
/// first, then each subtree, siblings in order.
pub open spec fn tree_conflict(ts: Seq<Tag>) -> Option<NameConflict>
    decreases ts, 1int, 0int,
{
    match level_conflict(ts) {
        Some(c) => Some(c),
        None => subtree_conflict(ts, 0),
    }
}

/// The first conflict among the subtrees of `ts[i..]`, in pre-order.
pub open spec fn subtree_conflict(ts: Seq<Tag>, i: int) -> Option<NameConflict>
    decreases ts, 0int, ts.len() - i,
    via subtree_conflict_decreases
{
    if i < 0 || i >= ts.len() {
        None
    } else {
        match tree_conflict(ts[i].subtags@) {
            Some(c) => Some(c),
            None => subtree_conflict(ts, i + 1),
        }
    }
}

#[via_fn]
proof fn subtree_conflict_decreases(ts: Seq<Tag>, i: int) {
    if 0 <= i < ts.len() {
        assert(decreases_to!(ts => ts[i]));
        assert(decreases_to!(ts[i] => ts[i].subtags@));
    }
}

/// A tree has no conflict exactly when it is in order.
pub proof fn lemma_tree_conflict_none(ts: Seq<Tag>)
    ensures
        (tree_conflict(ts) is None) == tree_ok(ts),
    decreases ts, 1int, 0int,
{
    lemma_names_ok(level_names(ts));
    lemma_subtree_conflict_none(ts, 0);
    if level_conflict(ts) is None {
        assert((tree_conflict(ts) is None) == (subtree_conflict(ts, 0) is None));
    }
}

/// The subtrees of `ts[i..]` have no conflict exactly when each is in order.
pub proof fn lemma_subtree_conflict_none(ts: Seq<Tag>, i: int)
    requires
        0 <= i <= ts.len(),
    ensures
        (subtree_conflict(ts, i) is None) == (forall|j: int|
            i <= j < ts.len() ==> tree_ok(#[trigger] ts[j].subtags@)),
    decreases ts, 0int, ts.len() - i,
{
    if i < ts.len() {
        assert(decreases_to!(ts => ts[i])) by {
            assert(decreases_to!(ts => ts[i]));
        }
        lemma_tree_conflict_none(ts[i].subtags@);
        lemma_subtree_conflict_none(ts, i + 1);
    }
}

/// Once the first `i` subtrees are clean, the pre-order subtree scan from
/// the start agrees with the scan from `i`.
pub proof fn lemma_subtree_conflict_skip(ts: Seq<Tag>, i: int)
    requires
        0 <= i <= ts.len(),
        forall|j: int| 0 <= j < i ==> tree_conflict(#[trigger] ts[j].subtags@) is None,
    ensures
        subtree_conflict(ts, 0) == subtree_conflict(ts, i),
    decreases i,
{
    if i > 0 {
        lemma_subtree_conflict_skip(ts, i - 1);
        assert(subtree_conflict(ts, i - 1) == subtree_conflict(ts, i));
    }
}

/// What the whole-tree validation reports: success when the tree is in
/// order, else the first pre-order conflict, as the matching error.
pub open spec fn tree_verdict(ts: Seq<Tag>, r: TagResult<()>) -> bool {
    match tree_conflict(ts) {
        None => r is Ok,
        Some(c) => r matches Err(e) && error_matches(e, c),
    }
}

/// Checks the naming invariants over the whole tree: at every level no name
/// may occur twice, and no name may be a reserved word. Reports the first
/// conflict found in pre-order, the level before its subtrees, siblings in
/// order.
pub fn validate_tags(tags: &Tags) -> (r: TagResult<()>)
    ensures
        tree_verdict(tags@, r),
        (r is Ok) == tree_ok(tags@),
    decreases tags@,
{
    proof {
        lemma_tree_conflict_none(tags@);
    }
    if let Some(e) = check_level(tags) {
        return Err(e);
    }
    let ghost ts = tags@;
    let mut i: usize = 0;
    while i < tags.len()
        invariant
            ts == tags@,
            0 <= i <= ts.len(),
            level_conflict(ts) is None,
            forall|j: int| 0 <= j < i ==> tree_conflict(#[trigger] ts[j].subtags@) is None,
        decreases ts.len() - i,
    {
        proof {
            assert(decreases_to!(ts => ts[i as int]));
            assert(decreases_to!(ts[i as int] => ts[i as int].subtags@));
        }
        if let Err(e) = validate_tags(&tags[i].subtags) {
            proof {
                lemma_subtree_conflict_skip(ts, i as int);
                lemma_tree_conflict_none(ts[i as int].subtags@);
            }
            return Err(e);
        }
        proof {
            lemma_tree_conflict_none(ts[i as int].subtags@);
        }
        i = i + 1;
    }
    proof {
        lemma_subtree_conflict_skip(ts, ts.len() as int);
        lemma_tree_conflict_none(ts);
    }
    Ok(())
}

} // verus!
