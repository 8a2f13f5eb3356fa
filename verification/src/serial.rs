//! The serializable form of the tree: tombstoned nodes are filtered out
//! recursively, at the root sequence and inside every subtag sequence, so
//! that a logically deleted tag never reaches storage.

use vstd::prelude::*;
use crate::tag::{level_names, Tag, Tags};

verus! {

/// Whether `out` is `src` with every tombstone dropped, recursively, and
/// every live node kept in order with its fields intact.
pub open spec fn live_filtered(src: Seq<Tag>, out: Seq<Tag>) -> bool
    decreases src, 0int,
    via live_filtered_decreases
{
    if src.len() == 0 {
        out.len() == 0
    } else if !src[0].is_live() {
        live_filtered(src.skip(1), out)
    } else {
        &&& out.len() > 0
        &&& tag_filtered(src[0], out[0])
        &&& live_filtered(src.skip(1), out.skip(1))
    }
}

#[via_fn]
proof fn live_filtered_decreases(src: Seq<Tag>, out: Seq<Tag>) {
    if src.len() > 0 {
        assert(decreases_to!(src => src[0]));
    }
}

/// Whether the serialized node `o` is the live node `t` with its subtags
/// filtered.
pub open spec fn tag_filtered(t: Tag, o: Tag) -> bool
    decreases t, 1int,
{
    &&& o.names@ == t.names@
    &&& o.path == t.path
    &&& o.about == t.about
    &&& o.app == t.app
    &&& live_filtered(t.subtags@, o.subtags@)
}

/// Extending a filtered prefix by one tag: a live tag appends its filtered
/// form, a tombstone appends nothing.
proof fn lemma_live_filtered_snoc(src: Seq<Tag>, i: int, out: Seq<Tag>, o: Tag)
    requires
        0 <= i < src.len(),
        live_filtered(src.take(i), out),
    ensures
        src[i].is_live() && tag_filtered(src[i], o) ==> live_filtered(src.take(i + 1), out.push(o)),
        !src[i].is_live() ==> live_filtered(src.take(i + 1), out),
    decreases i,
{
    if i == 0 {
        assert(src.take(0) =~= Seq::<Tag>::empty());
        assert(src.take(1)[0] == src[0]);
        assert(src.take(1).skip(1) =~= Seq::<Tag>::empty());
        if src[0].is_live() && tag_filtered(src[0], o) {
            assert(out.len() == 0);
            assert(out.push(o)[0] == o);
            assert(out.push(o).skip(1) =~= Seq::<Tag>::empty());
            assert(live_filtered(Seq::<Tag>::empty(), Seq::<Tag>::empty()));
        }
    } else {
        let rest = src.skip(1);
        assert(src.take(i)[0] == src[0]);
        assert(src.take(i + 1)[0] == src[0]);
        assert(src.take(i).skip(1) =~= rest.take(i - 1));
        assert(src.take(i + 1).skip(1) =~= rest.take(i));
        assert(rest[i - 1] == src[i]);
        if src[0].is_live() {
            lemma_live_filtered_snoc(rest, i - 1, out.skip(1), o);
            if src[i].is_live() && tag_filtered(src[i], o) {
                assert(out.push(o)[0] == out[0]);
                assert(out.push(o).skip(1) =~= out.skip(1).push(o));
            }
        } else {
            lemma_live_filtered_snoc(rest, i - 1, out, o);
        }
    }
}

/// Builds the serializable form of the tree: every tombstone is dropped,
/// recursively, and every live tag keeps its fields and the filtered form
/// of its subtags, in order.
pub fn live_tags(tags: &Tags) -> (r: Tags)
    ensures
        live_filtered(tags@, r@),
    decreases tags@,
{
    let mut out: Tags = Vec::new();
    let mut i: usize = 0;
    proof {
        assert(out@ =~= Seq::<Tag>::empty());
        assert(live_filtered(tags@.take(0), out@));
    }
    while i < tags.len()
        invariant
            0 <= i <= tags@.len(),
            live_filtered(tags@.take(i as int), out@),
        decreases tags@.len() - i,
    {
        proof {
            assert(decreases_to!(tags@ => tags@[i as int]));
            assert(decreases_to!(tags@[i as int] => tags@[i as int].subtags@));
        }
        let tag = &tags[i];
        if tag.names.len() > 0 {
            let names = tag.names.clone();
            proof {
                assert(names@ =~= tag.names@);
            }
            let filtered = Tag {
                names,
                path: clone_opt(&tag.path),
                about: clone_opt(&tag.about),
                app: clone_opt(&tag.app),
                subtags: live_tags(&tag.subtags),
            };
            let ghost prev = out@;
            proof {
                assert(tag_filtered(tags@[i as int], filtered));
                lemma_live_filtered_snoc(tags@, i as int, prev, filtered);
            }
            out.push(filtered);
        } else {
            proof {
                lemma_live_filtered_snoc(tags@, i as int, out@, tags@[i as int]);
            }
        }
        i = i + 1;
    }
    proof {
        assert(tags@.take(tags@.len() as int) =~= tags@);
    }
    out
}

/// Copies an optional string; the copy equals the source.
pub fn clone_opt(o: &Option<String>) -> (r: Option<String>)
    ensures
        r == *o,
{
    match o {
        Some(s) => Some(s.clone()),
        None => None,
    }
}

/// Filtering preserves the names seen at a level: tombstones had none.
pub proof fn lemma_live_filtered_names(src: Seq<Tag>, out: Seq<Tag>)
    requires
        live_filtered(src, out),
    ensures
        level_names(out) == level_names(src),
    decreases src,
{
    if src.len() == 0 {
        assert(out =~= Seq::<Tag>::empty());
    } else if !src[0].is_live() {
        assert(decreases_to!(src => src[0]));
        lemma_live_filtered_names(src.skip(1), out);
        assert(src[0].names_view().len() == 0);
        assert(src[0].names_view() =~= Seq::<Seq<char>>::empty());
        assert(src[0].names_view() + level_names(src.skip(1)) =~= level_names(src.skip(1)));
    } else {
        lemma_live_filtered_names(src.skip(1), out.skip(1));
        assert(tag_filtered(src[0], out[0]));
        assert(out[0].names@ == src[0].names@);
        assert(out.len() > 0);
        assert(level_names(out) == out[0].names_view() + level_names(out.skip(1)));
        assert(level_names(src) == src[0].names_view() + level_names(src.skip(1)));
        assert(out[0].names_view() =~= src[0].names_view());
    }
}

} // verus!
