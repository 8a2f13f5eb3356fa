//! The mutation engine: add, remove (by tombstoning) and update, each
//! working on a node addressed by a path of sibling indices from the root.
//! Removal clears the node's names instead of splicing it out, so sibling
//! indices held by an in-flight editing session stay valid.

use vstd::prelude::*;
use crate::error::{Error, TagResult};
use crate::tag::{level_names, tag_at, valid_path, Tag, Tags};
use crate::validate::collect_level_names;

verus! {

/// The index of the first candidate name that already occurs among `used`,
/// if any.
pub open spec fn first_used(names: Seq<Seq<char>>, used: Seq<Seq<char>>) -> Option<int>
    decreases names.len(),
{
    if names.len() == 0 {
        None
    } else if used.contains(names[0]) {
        Some(0)
    } else {
        match first_used(names.skip(1), used) {
            Some(i) => Some(i + 1),
            None => None,
        }
    }
}

/// `first_used` returns the least index of a candidate name that is already
/// taken, or `None` when all are free.
pub proof fn lemma_first_used(names: Seq<Seq<char>>, used: Seq<Seq<char>>)
    ensures
        match first_used(names, used) {
            Some(i) => 0 <= i < names.len() && used.contains(names[i]) && (forall|j: int|
                0 <= j < i ==> !used.contains(names[j])),
            None => forall|j: int| 0 <= j < names.len() ==> !used.contains(#[trigger] names[j]),
        },
    decreases names.len(),
{
    if names.len() > 0 && !used.contains(names[0]) {
        let t = names.skip(1);
        lemma_first_used(t, used);
        assert(forall|j: int| 0 <= j < t.len() ==> t[j] == names[j + 1]);
        match first_used(t, used) {
            Some(i) => {
                assert(names[i + 1] == t[i]);
                assert forall|j: int| 0 <= j < i + 1 implies !used.contains(names[j]) by {
                    if j > 0 {
                        assert(names[j] == t[j - 1]);
                    }
                }
            },
            None => {
                assert forall|j: int| 0 <= j < names.len() implies !used.contains(names[j]) by {
                    if j > 0 {
                        assert(names[j] == t[j - 1]);
                    }
                }
            },
        }
    }
}

/// Looks for the first of the candidate `names` that is already used by a
/// tag of the level `subtags`, and returns it if found.
pub fn check_if_names_are_used(names: &Vec<String>, subtags: &Tags) -> (r: Option<String>)
    ensures
        match first_used(names.deep_view(), level_names(subtags@)) {
            Some(i) => r matches Some(n) && n@ == names.deep_view()[i],
            None => r is None,
        },
{
    let used = collect_level_names(subtags);
    let ghost ns = names.deep_view();
    let ghost us = level_names(subtags@);
    proof {
        lemma_first_used(ns, us);
        assert(names.deep_view().len() == names@.len());
    }
    let mut i: usize = 0;
    while i < names.len()
        invariant
            ns == names.deep_view(),
            us == level_names(subtags@),
            used.deep_view() == us,
            names@.len() == ns.len(),
            0 <= i <= ns.len(),
            forall|j: int| 0 <= j < i ==> !us.contains(#[trigger] ns[j]),
        decreases names@.len() - i,
    {
        proof {
            assert(names@[i as int]@ == ns[i as int]);
        }
        if crate::validate::name_in(&used, &names[i]) {
            let n = names[i].clone();
            proof {
                lemma_first_used(ns, us);
                assert(first_used(ns, us) == Some(i as int)) by {
                    match first_used(ns, us) {
                        Some(k) => {
                            assert(!us.contains(ns[k]) || k >= i);
                            assert(k == i);
                        },
                        None => {
                            assert(false);
                        },
                    }
                }
            }
            return Some(n);
        }
        i = i + 1;
    }
    proof {
        lemma_first_used(ns, us);
    }
    None
}

/// Appends `tag` to the level `tags` after the incremental validator check:
/// it fails, changing nothing, if any name of `tag` is already used by a
/// sibling at that level.
pub fn add_tag_inline(tag: Tag, tags: &mut Tags) -> (r: TagResult<()>)
    ensures
        match first_used(tag.names_view(), level_names(old(tags)@)) {
            Some(i) => r matches Err(Error::NameInUse(n)) && n@ == tag.names_view()[i]
                && *final(tags) == *old(tags),
            None => r is Ok && final(tags)@ == old(tags)@.push(tag),
        },
{
    if let Some(name) = check_if_names_are_used(&tag.names, tags) {
        return Err(Error::NameInUse(name));
    }
    tags.push(tag);
    Ok(())
}

/// Clears the names of `tag`, tombstoning it; everything else about the
/// node, its subtags included, stays as it was.
pub fn tombstone_tag(tag: &mut Tag)
    ensures
        final(tag).names.len() == 0,
        final(tag).path == old(tag).path,
        final(tag).about == old(tag).about,
        final(tag).app == old(tag).app,
        final(tag).subtags == old(tag).subtags,
{
    tag.names.clear();
}

/// How a tree looks after tombstoning the node at path `p`: every level
/// keeps its length and order, every other node is untouched, and the
/// addressed node keeps everything but its names.
pub open spec fn tree_tombstoned(pre: Seq<Tag>, post: Seq<Tag>, p: Seq<usize>) -> bool
    decreases p.len(),
{
    let i = p[0] as int;
    &&& p.len() > 0
    &&& 0 <= i < pre.len()
    &&& post.len() == pre.len()
    &&& (forall|j: int| 0 <= j < pre.len() && j != i ==> post[j] == pre[j])
    &&& post[i].path == pre[i].path
    &&& post[i].about == pre[i].about
    &&& post[i].app == pre[i].app
    &&& (if p.len() == 1 {
        &&& post[i].names.len() == 0
        &&& post[i].subtags == pre[i].subtags
    } else {
        &&& post[i].names == pre[i].names
        &&& tree_tombstoned(pre[i].subtags@, post[i].subtags@, p.skip(1))
    })
}

/// Tombstones the node addressed by `path[from..]`: its names are cleared
/// in place, its position and subtags are kept, and no other node changes.
pub fn tombstone_at(tags: &mut Tags, path: &Vec<usize>, from: usize)
    requires
        from < path@.len(),
        valid_path(old(tags)@, path@.skip(from as int)),
    ensures
        tree_tombstoned(old(tags)@, final(tags)@, path@.skip(from as int)),
    decreases path@.len() - from,
{
    let i = path[from];
    let t = &mut tags[i];
    if from == path.len() - 1 {
        tombstone_tag(t);
    } else {
        proof {
            assert(path@.skip(from as int).skip(1) =~= path@.skip(from + 1));
        }
        tombstone_at(&mut t.subtags, path, from + 1);
    }
}

/// An edit to one optional text field: leave it, clear it, or set it.
pub enum FieldEdit {
    /// The field was omitted: the prior value stays.
    Keep,
    /// The field was given empty: the prior value is cleared.
    Clear,
    /// The field was given a value: it replaces the prior one.
    Put(String),
}

/// An edit to the alias list: leave it, clear it, or replace it wholesale.
pub enum AliasEdit {
    /// The aliases were omitted: they stay.
    Keep,
    /// The aliases were given empty: only the primary name remains.
    Clear,
    /// The aliases were given: they replace every name after the primary.
    Put(Vec<String>),
}

/// One update operation: each field carries whether it was omitted, cleared
/// or set, so that "clear" and "no-op" stay distinct.
pub struct TagUpdate {
    /// A replacement for the primary name, if given.
    pub name: Option<String>,
    /// What to do with the aliases.
    pub aliases: AliasEdit,
    /// What to do with the path.
    pub path: FieldEdit,
    /// What to do with the about text.
    pub about: FieldEdit,
    /// What to do with the default application.
    pub app: FieldEdit,
}

/// The value of an optional field after an edit.
pub open spec fn apply_field(prior: Option<String>, e: FieldEdit) -> Option<String> {
    match e {
        FieldEdit::Keep => prior,
        FieldEdit::Clear => None,
        FieldEdit::Put(s) => Some(s),
    }
}

/// The name list after an update: a given primary name replaces the first
/// entry, and a given alias list replaces everything after it.
pub open spec fn apply_names(
    prior: Seq<String>,
    name: Option<String>,
    aliases: AliasEdit,
) -> Seq<String> {
    let base = match name {
        Some(n) => prior.update(0, n),
        None => prior,
    };
    match aliases {
        AliasEdit::Keep => base,
        AliasEdit::Clear => base.take(1),
        AliasEdit::Put(v) => if v.len() > 0 {
            base.take(1) + v@
        } else {
            base.take(1)
        },
    }
}

/// Applies `upd` to one tag in place. A field set in the update replaces
/// the prior value, a field given empty clears it, and a field omitted
/// leaves it untouched; subtags are never affected.
pub fn update_tag(tag: &mut Tag, upd: TagUpdate)
    requires
        old(tag).names.len() > 0,
    ensures
        final(tag).names@ == apply_names(old(tag).names@, upd.name, upd.aliases),
        final(tag).path == apply_field(old(tag).path, upd.path),
        final(tag).about == apply_field(old(tag).about, upd.about),
        final(tag).app == apply_field(old(tag).app, upd.app),
        final(tag).subtags == old(tag).subtags,
{
    let TagUpdate { name, aliases, path, about, app } = upd;
    if let Some(n) = name {
        tag.names[0] = n;
    }
    let ghost based = tag.names@;
    match aliases {
        AliasEdit::Keep => {},
        AliasEdit::Clear => {
            tag.names.truncate(1);
            proof {
                assert(tag.names@ =~= based.take(1));
            }
        },
        AliasEdit::Put(v) => {
            if v.len() > 0 {
                tag.names.truncate(1);
                proof {
                    assert(tag.names@ =~= based.take(1));
                }
                let mut k: usize = 0;
                while k < v.len()
                    invariant
                        0 <= k <= v@.len(),
                        tag.names@ == based.take(1) + v@.take(k as int),
                        tag.path == old(tag).path,
                        tag.about == old(tag).about,
                        tag.app == old(tag).app,
                        tag.subtags == old(tag).subtags,
                    decreases v@.len() - k,
                {
                    let ghost prev = tag.names@;
                    tag.names.push(v[k].clone());
                    proof {
                        assert(v@[k as int] == v@.take(k + 1)[k as int]);
                        assert(tag.names@ =~= based.take(1) + v@.take(k + 1));
                    }
                    k = k + 1;
                }
                proof {
                    assert(v@.take(v@.len() as int) =~= v@);
                }
            } else {
                tag.names.truncate(1);
                proof {
                    assert(tag.names@ =~= based.take(1));
                }
            }
        },
    }
    apply_field_edit(&mut tag.path, path);
    apply_field_edit(&mut tag.about, about);
    apply_field_edit(&mut tag.app, app);
}

/// Applies one optional-field edit in place.
fn apply_field_edit(field: &mut Option<String>, e: FieldEdit)
    ensures
        *final(field) == apply_field(*old(field), e),
{
    match e {
        FieldEdit::Keep => {},
        FieldEdit::Clear => {
            *field = None;
        },
        FieldEdit::Put(s) => {
            *field = Some(s);
        },
    }
}

/// How a tree looks after updating the node at path `p` with `upd`: every
/// other node is untouched, and the addressed node's fields follow the
/// update while its subtags stay.
pub open spec fn tree_updated(pre: Seq<Tag>, post: Seq<Tag>, p: Seq<usize>, upd: TagUpdate) -> bool
    decreases p.len(),
{
    let i = p[0] as int;
    &&& p.len() > 0
    &&& 0 <= i < pre.len()
    &&& post.len() == pre.len()
    &&& (forall|j: int| 0 <= j < pre.len() && j != i ==> post[j] == pre[j])
    &&& (if p.len() == 1 {
        &&& post[i].names@ == apply_names(pre[i].names@, upd.name, upd.aliases)
        &&& post[i].path == apply_field(pre[i].path, upd.path)
        &&& post[i].about == apply_field(pre[i].about, upd.about)
        &&& post[i].app == apply_field(pre[i].app, upd.app)
        &&& post[i].subtags == pre[i].subtags
    } else {
        &&& post[i].names == pre[i].names
        &&& post[i].path == pre[i].path
        &&& post[i].about == pre[i].about
        &&& post[i].app == pre[i].app
        &&& tree_updated(pre[i].subtags@, post[i].subtags@, p.skip(1), upd)
    })
}

/// Applies `upd` to the node addressed by `path[from..]`, leaving every
/// other node untouched.
pub fn update_at(tags: &mut Tags, path: &Vec<usize>, from: usize, upd: TagUpdate)
    requires
        from < path@.len(),
        valid_path(old(tags)@, path@.skip(from as int)),
        tag_at(old(tags)@, path@.skip(from as int)).names.len() > 0,
    ensures
        tree_updated(old(tags)@, final(tags)@, path@.skip(from as int), upd),
    decreases path@.len() - from,
{
    let i = path[from];
    let t = &mut tags[i];
    if from == path.len() - 1 {
        update_tag(t, upd);
    } else {
        proof {
            assert(path@.skip(from as int).skip(1) =~= path@.skip(from + 1));
        }
        update_at(&mut t.subtags, path, from + 1, upd);
    }
}

/// The sibling level a (possibly empty) parent path addresses: the roots
/// for the empty path, else the subtags of the addressed node.
pub open spec fn level_at(ts: Seq<Tag>, p: Seq<usize>) -> Seq<Tag> {
    if p.len() == 0 {
        ts
    } else {
        tag_at(ts, p).subtags@
    }
}

/// How a tree looks after appending `tag` at the level addressed by the
/// parent path `p`: every node off the path is untouched, the nodes on it
/// keep their fields, and the addressed level gains `tag` at its end.
pub open spec fn tree_added(pre: Seq<Tag>, post: Seq<Tag>, p: Seq<usize>, tag: Tag) -> bool
    decreases p.len(),
{
    if p.len() == 0 {
        post == pre.push(tag)
    } else {
        let i = p[0] as int;
        &&& 0 <= i < pre.len()
        &&& post.len() == pre.len()
        &&& (forall|j: int| 0 <= j < pre.len() && j != i ==> post[j] == pre[j])
        &&& post[i].names == pre[i].names
        &&& post[i].path == pre[i].path
        &&& post[i].about == pre[i].about
        &&& post[i].app == pre[i].app
        &&& tree_added(pre[i].subtags@, post[i].subtags@, p.skip(1), tag)
    }
}

/// Appends `tag` at the level addressed by `parent[from..]`, without any
/// check; the callers check first.
fn push_at(tags: &mut Tags, parent: &Vec<usize>, from: usize, tag: Tag)
    requires
        from <= parent@.len(),
        from < parent@.len() ==> valid_path(old(tags)@, parent@.skip(from as int)),
    ensures
        tree_added(old(tags)@, final(tags)@, parent@.skip(from as int), tag),
    decreases parent@.len() - from,
{
    if from == parent.len() {
        proof {
            assert(parent@.skip(from as int) =~= Seq::<usize>::empty());
        }
        tags.push(tag);
    } else {
        let i = parent[from];
        let t = &mut tags[i];
        proof {
            assert(parent@.skip(from as int).skip(1) =~= parent@.skip(from + 1));
        }
        push_at(&mut t.subtags, parent, from + 1, tag);
    }
}

/// Adds `tag` under the level addressed by the parent path: the root level
/// for an empty path, else the subtags of the addressed node. It fails,
/// changing nothing, if any name of `tag` is already used at that level.
pub fn add_at(tags: &mut Tags, parent: &Vec<usize>, tag: Tag) -> (r: TagResult<()>)
    requires
        parent@.len() > 0 ==> valid_path(old(tags)@, parent@),
    ensures
        (match first_used(
            tag.names_view(),
            level_names(level_at(old(tags)@, parent@)),
        ) {
            Some(i) => r matches Err(Error::NameInUse(n)) && n@ == tag.names_view()[i]
                && *final(tags) == *old(tags),
            None => r is Ok && tree_added(old(tags)@, final(tags)@, parent@, tag),
        }),
{
    let conflict = if parent.len() == 0 {
        check_if_names_are_used(&tag.names, tags)
    } else {
        proof {
            assert(parent@.skip(0) =~= parent@);
        }
        let t = crate::tag::tag_at_path(tags, parent, 0);
        check_if_names_are_used(&tag.names, &t.subtags)
    };
    if let Some(name) = conflict {
        return Err(Error::NameInUse(name));
    }
    proof {
        assert(parent@.skip(0) =~= parent@);
    }
    push_at(tags, parent, 0, tag);
    Ok(())
}

/// Replaces the whole name list of `tag`; used when an edit session hands
/// back a complete new list.
pub fn replace_names(tag: &mut Tag, names: Vec<String>)
    requires
        names.len() > 0,
    ensures
        final(tag).names == names,
        final(tag).path == old(tag).path,
        final(tag).about == old(tag).about,
        final(tag).app == old(tag).app,
        final(tag).subtags == old(tag).subtags,
{
    tag.names = names;
}

/// How a tree looks after replacing the name list of the node at `p`.
pub open spec fn tree_renamed(pre: Seq<Tag>, post: Seq<Tag>, p: Seq<usize>, names: Seq<String>) -> bool
    decreases p.len(),
{
    let i = p[0] as int;
    &&& p.len() > 0
    &&& 0 <= i < pre.len()
    &&& post.len() == pre.len()
    &&& (forall|j: int| 0 <= j < pre.len() && j != i ==> post[j] == pre[j])
    &&& post[i].path == pre[i].path
    &&& post[i].about == pre[i].about
    &&& post[i].app == pre[i].app
    &&& (if p.len() == 1 {
        &&& post[i].names@ == names
        &&& post[i].subtags == pre[i].subtags
    } else {
        &&& post[i].names == pre[i].names
        &&& tree_renamed(pre[i].subtags@, post[i].subtags@, p.skip(1), names)
    })
}

/// Replaces the name list of the node addressed by `path[from..]`, leaving
/// every other node untouched.
pub fn replace_names_at(tags: &mut Tags, path: &Vec<usize>, from: usize, names: Vec<String>)
    requires
        from < path@.len(),
        valid_path(old(tags)@, path@.skip(from as int)),
        names.len() > 0,
    ensures
        tree_renamed(old(tags)@, final(tags)@, path@.skip(from as int), names@),
    decreases path@.len() - from,
{
    let i = path[from];
    let t = &mut tags[i];
    if from == path.len() - 1 {
        replace_names(t, names);
    } else {
        proof {
            assert(path@.skip(from as int).skip(1) =~= path@.skip(from + 1));
        }
        replace_names_at(&mut t.subtags, path, from + 1, names);
    }
}

} // verus!
