//! The tag tree data model and its basic spec-level views.

use vstd::prelude::*;

verus! {

/// A node of the tag tree.
///
/// `names` is the list of invocable names: `names[0]` is the primary name,
/// the rest are aliases. A tag whose `names` is empty is a tombstone: it is
/// logically deleted, kept in place only so that sibling indices held by an
/// in-flight editing session stay valid.
pub struct Tag {
    /// The names of the tag; the first one is primary, the rest are aliases.
    pub names: Vec<String>,
    /// The path or URL to open, if any; absent for pure grouping nodes.
    pub path: Option<String>,
    /// Free-text description; its first line doubles as a short summary.
    pub about: Option<String>,
    /// Default application to open `path` with.
    pub app: Option<String>,
    /// Child tags, in insertion order.
    pub subtags: Vec<Tag>,
}

/// A level of the tree: an ordered sequence of sibling tags.
pub type Tags = Vec<Tag>;

impl Tag {
    /// The names of this tag as a sequence of character sequences.
    pub open spec fn names_view(self) -> Seq<Seq<char>> {
        self.names.deep_view()
    }

    /// A tag is live when it has at least one name; otherwise it is a
    /// tombstone.
    pub open spec fn is_live(self) -> bool {
        self.names.len() > 0
    }
}

/// All names appearing at one sibling level, in scan order: the names of
/// `ts[0]`, then of `ts[1]`, and so on. Tombstones contribute nothing.
pub open spec fn level_names(ts: Seq<Tag>) -> Seq<Seq<char>>
    decreases ts.len(),
{
    if ts.len() == 0 {
        Seq::empty()
    } else {
        ts[0].names_view() + level_names(ts.skip(1))
    }
}

impl Tag {
    /// Builds a leaf tag from its fields; it starts with no subtags.
    pub fn new(names: Vec<String>, path: Option<String>, about: Option<String>, app: Option<String>) -> (t: Tag)
        ensures
            t.names == names,
            t.path == path,
            t.about == about,
            t.app == app,
            t.subtags@ =~= Seq::<Tag>::empty(),
    {
        Tag { names, path, about, app, subtags: Vec::new() }
    }
}

/// Every node of the tree is live: nothing has been tombstoned.
pub open spec fn all_live(ts: Seq<Tag>) -> bool
    decreases ts,
    via all_live_decreases
{
    forall|i: int|
        0 <= i < ts.len() ==> (#[trigger] ts[i]).is_live() && all_live(ts[i].subtags@)
}

#[via_fn]
proof fn all_live_decreases(ts: Seq<Tag>) {
    assert forall|i: int| 0 <= i < ts.len() implies decreases_to!(ts => ts[i].subtags@) by {
        assert(decreases_to!(ts => ts[i]));
        assert(decreases_to!(ts[i] => ts[i].subtags@));
    }
}

/// Checks that every node of the tree still has a name; a tree read from
/// storage must look like this, since tombstones are never written out.
pub fn all_tags_named(tags: &Tags) -> (r: bool)
    ensures
        r == all_live(tags@),
    decreases tags@,
{
    let mut i: usize = 0;
    while i < tags.len()
        invariant
            0 <= i <= tags@.len(),
            forall|j: int|
                0 <= j < i ==> (#[trigger] tags@[j]).is_live() && all_live(tags@[j].subtags@),
        decreases tags@.len() - i,
    {
        proof {
            assert(decreases_to!(tags@ => tags@[i as int]));
            assert(decreases_to!(tags@[i as int] => tags@[i as int].subtags@));
        }
        if tags[i].names.len() == 0 {
            return false;
        }
        if !all_tags_named(&tags[i].subtags) {
            return false;
        }
        i = i + 1;
    }
    true
}

/// Whether `p` is a path of in-bounds sibling indices leading from this
/// level to some node.
pub open spec fn valid_path(ts: Seq<Tag>, p: Seq<usize>) -> bool
    decreases p.len(),
{
    &&& p.len() > 0
    &&& 0 <= p[0] < ts.len()
    &&& (p.len() > 1 ==> valid_path(ts[p[0] as int].subtags@, p.skip(1)))
}

/// The node a path of sibling indices leads to.
pub open spec fn tag_at(ts: Seq<Tag>, p: Seq<usize>) -> Tag
    recommends
        valid_path(ts, p),
    decreases p.len(),
{
    if p.len() <= 1 {
        ts[p[0] as int]
    } else {
        tag_at(ts[p[0] as int].subtags@, p.skip(1))
    }
}

/// Walks a path of sibling indices down the tree.
pub fn tag_at_path<'a>(tags: &'a Tags, path: &Vec<usize>, from: usize) -> (t: &'a Tag)
    requires
        from < path@.len(),
        valid_path(tags@, path@.skip(from as int)),
    ensures
        *t == tag_at(tags@, path@.skip(from as int)),
    decreases path@.len() - from,
{
    let i = path[from];
    if from == path.len() - 1 {
        &tags[i]
    } else {
        proof {
            assert(path@.skip(from as int).skip(1) =~= path@.skip(from + 1));
        }
        tag_at_path(&tags[i].subtags, path, from + 1)
    }
}

/// The primary names of the live tags at one level, in order.
pub fn live_primary_names(tags: &Tags) -> (r: Vec<String>)
    ensures
        r.deep_view() == live_primaries(tags@),
{
    let mut out: Vec<String> = Vec::new();
    let mut i: usize = 0;
    proof {
        assert(out.deep_view() =~= live_primaries(tags@.take(0)));
    }
    while i < tags.len()
        invariant
            0 <= i <= tags@.len(),
            out.deep_view() == live_primaries(tags@.take(i as int)),
        decreases tags@.len() - i,
    {
        let ghost prev = out.deep_view();
        if tags[i].names.len() > 0 {
            out.push(tags[i].names[0].clone());
        }
        proof {
            lemma_live_primaries_snoc(tags@, i as int);
            if tags@[i as int].is_live() {
                assert(out.deep_view() =~= prev.push(tags@[i as int].names_view()[0]));
            }
        }
        i = i + 1;
    }
    proof {
        assert(tags@.take(tags@.len() as int) =~= tags@);
    }
    out
}

/// The primary names of the live tags of a level, in order.
pub open spec fn live_primaries(ts: Seq<Tag>) -> Seq<Seq<char>>
    decreases ts.len(),
{
    if ts.len() == 0 {
        Seq::empty()
    } else if ts[0].is_live() {
        seq![ts[0].names_view()[0]] + live_primaries(ts.skip(1))
    } else {
        live_primaries(ts.skip(1))
    }
}

/// Extending a prefix of a level by one tag appends its primary name when it
/// is live, and nothing when it is a tombstone.
pub proof fn lemma_live_primaries_snoc(ts: Seq<Tag>, i: int)
    requires
        0 <= i < ts.len(),
    ensures
        live_primaries(ts.take(i + 1)) == if ts[i].is_live() {
            live_primaries(ts.take(i)).push(ts[i].names_view()[0])
        } else {
            live_primaries(ts.take(i))
        },
    decreases i,
{
    if i == 0 {
        assert(ts.take(1)[0] == ts[0]);
        assert(ts.take(1).skip(1) =~= Seq::<Tag>::empty());
        assert(ts.take(0) =~= Seq::<Tag>::empty());
        if ts[0].is_live() {
            assert(seq![ts[0].names_view()[0]] + live_primaries(Seq::<Tag>::empty())
                =~= live_primaries(ts.take(0)).push(ts[0].names_view()[0]));
        }
    } else {
        let rest = ts.skip(1);
        lemma_live_primaries_snoc(rest, i - 1);
        assert(ts.take(i + 1)[0] == ts[0]);
        assert(ts.take(i)[0] == ts[0]);
        assert(ts.take(i + 1).skip(1) =~= rest.take(i));
        assert(ts.take(i).skip(1) =~= rest.take(i - 1));
        assert(rest[i - 1] == ts[i]);
        let a = seq![ts[0].names_view()[0]];
        let b = live_primaries(rest.take(i - 1));
        if ts[i].is_live() {
            let x = ts[i].names_view()[0];
            assert(a + b.push(x) =~= (a + b).push(x));
        }
    }
}

/// Returns the number of live tags at this level: one per entry of the
/// level's live listing.
pub fn count_live(tags: &Tags) -> (n: usize)
    ensures
        n == live_primaries(tags@).len(),
        n <= tags@.len(),
{
    let mut n: usize = 0;
    let mut i: usize = 0;
    proof {
        assert(tags@.take(0) =~= Seq::<Tag>::empty());
    }
    while i < tags.len()
        invariant
            0 <= i <= tags@.len(),
            n == live_primaries(tags@.take(i as int)).len(),
            n <= i,
        decreases tags@.len() - i,
    {
        proof {
            lemma_live_primaries_snoc(tags@, i as int);
        }
        if tags[i].names.len() > 0 {
            n = n + 1;
        }
        i = i + 1;
    }
    proof {
        assert(tags@.take(tags@.len() as int) =~= tags@);
    }
    n
}

} // verus!
