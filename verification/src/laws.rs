//! The laws of the library: what projection, resolution, tombstoning and
//! serialization guarantee together, each stated as a proof function.

use vstd::prelude::*;
use crate::reserved::is_reserved;
use crate::tag::{level_names, tag_at, valid_path, Tag};
use crate::validate::names_ok;

verus! {

/// The names of a level split around any one tag: those of the tags before
/// it, its own, and those of the tags after it.
pub proof fn lemma_level_names_decompose(ts: Seq<Tag>, i: int)
    requires
        0 <= i < ts.len(),
    ensures
        level_names(ts) == level_names(ts.take(i)) + ts[i].names_view() + level_names(
            ts.skip(i + 1),
        ),
    decreases i,
{
    if i == 0 {
        assert(ts.take(0) =~= Seq::<Tag>::empty());
        assert(level_names(Seq::<Tag>::empty()) + ts[0].names_view() + level_names(ts.skip(1))
            =~= ts[0].names_view() + level_names(ts.skip(1)));
    } else {
        let rest = ts.skip(1);
        lemma_level_names_decompose(rest, i - 1);
        assert(ts.take(i)[0] == ts[0]);
        assert(ts.take(i).skip(1) =~= rest.take(i - 1));
        assert(rest[i - 1] == ts[i]);
        assert(rest.skip(i) =~= ts.skip(i + 1));
        let a = ts[0].names_view();
        let b = level_names(rest.take(i - 1));
        let c = ts[i].names_view();
        let d = level_names(ts.skip(i + 1));
        assert(level_names(ts) == a + (b + c + d));
        assert(level_names(ts.take(i)) == a + b);
        assert(a + (b + c + d) =~= (a + b) + c + d);
    }
}

/// The flattened position of name `k` of tag `i` within its level.
pub open spec fn name_pos(ts: Seq<Tag>, i: int, k: int) -> int {
    level_names(ts.take(i)).len() + k
}

/// Each name of each tag stands at its flattened position in the level's
/// name scan.
pub proof fn lemma_name_at_pos(ts: Seq<Tag>, i: int, k: int)
    requires
        0 <= i < ts.len(),
        0 <= k < ts[i].names_view().len(),
    ensures
        0 <= name_pos(ts, i, k) < level_names(ts).len(),
        level_names(ts)[name_pos(ts, i, k)] == ts[i].names_view()[k],
        name_pos(ts, i, k) + ts[i].names_view().len() - k <= level_names(ts).len(),
{
    lemma_level_names_decompose(ts, i);
    let pre = level_names(ts.take(i));
    assert(level_names(ts)[pre.len() + k] == ts[i].names_view()[k]);
}

/// Flattened positions respect the scan order: any name of an earlier tag
/// comes before any name of a later tag.
pub proof fn lemma_name_pos_order(ts: Seq<Tag>, i: int, j: int)
    requires
        0 <= i < j < ts.len(),
    ensures
        level_names(ts.take(i)).len() + ts[i].names_view().len() <= level_names(
            ts.take(j),
        ).len(),
    decreases j - i,
{
    crate::validate::lemma_level_names_snoc(ts, i);
    if i + 1 == j {
    } else {
        lemma_name_pos_order(ts, i + 1, j);
    }
}

/// At a level whose name scan is in order, no name occurs twice: the tag
/// and position of a name determine each other.
pub proof fn lemma_level_name_unique(ts: Seq<Tag>, i: int, k: int, j: int, l: int)
    requires
        names_ok(level_names(ts)),
        0 <= i < ts.len(),
        0 <= k < ts[i].names_view().len(),
        0 <= j < ts.len(),
        0 <= l < ts[j].names_view().len(),
        ts[i].names_view()[k] == ts[j].names_view()[l],
    ensures
        i == j && k == l,
{
    lemma_name_at_pos(ts, i, k);
    lemma_name_at_pos(ts, j, l);
    if i < j {
        lemma_name_pos_order(ts, i, j);
        assert(name_pos(ts, i, k) < name_pos(ts, j, l));
        assert(false);
    } else if j < i {
        lemma_name_pos_order(ts, j, i);
        assert(name_pos(ts, j, l) < name_pos(ts, i, k));
        assert(false);
    } else {
        if k != l {
            assert(name_pos(ts, i, k) != name_pos(ts, j, l));
            assert(false);
        }
    }
}

/// Every name seen in a level's scan belongs to some tag of the level.
pub proof fn lemma_level_names_elem(ts: Seq<Tag>, s: Seq<char>)
    requires
        level_names(ts).contains(s),
    ensures
        exists|i: int, k: int|
            0 <= i < ts.len() && 0 <= k < ts[i].names_view().len()
                && #[trigger] ts[i].names_view()[k] == s,
    decreases ts.len(),
{
    let ns = level_names(ts);
    let pos = choose|pos: int| 0 <= pos < ns.len() && ns[pos] == s;
    assert(ts.len() > 0);
    let head = ts[0].names_view();
    if pos < head.len() {
        assert(ts[0].names_view()[pos] == s);
    } else {
        let rest = ts.skip(1);
        assert(level_names(rest)[pos - head.len()] == s);
        assert(level_names(rest).contains(s));
        lemma_level_names_elem(rest, s);
        let (i, k): (int, int) = choose|i: int, k: int|
            0 <= i < rest.len() && 0 <= k < rest[i].names_view().len()
                && #[trigger] rest[i].names_view()[k] == s;
        assert(ts[i + 1] == rest[i]);
        assert(ts[i + 1].names_view()[k] == s);
    }
}

/// At a level in order, a tag carrying a name is the first match for it.
pub proof fn lemma_first_match_unique(ts: Seq<Tag>, s: Seq<char>, i: int)
    requires
        names_ok(level_names(ts)),
        0 <= i < ts.len(),
        ts[i].names_view().contains(s),
    ensures
        crate::resolve::first_match(ts, s, 0) == Some(i),
{
    let k = choose|k: int| 0 <= k < ts[i].names_view().len() && ts[i].names_view()[k] == s;
    crate::resolve::lemma_first_match(ts, s, 0);
    match crate::resolve::first_match(ts, s, 0) {
        Some(m) => {
            let l = choose|l: int|
                0 <= l < ts[m].names_view().len() && ts[m].names_view()[l] == s;
            lemma_level_name_unique(ts, i, k, m, l);
        },
        None => {
            assert(false);
        },
    }
}

/// A name carried by any tag of a level in order is not reserved.
pub proof fn lemma_level_name_not_reserved(ts: Seq<Tag>, i: int, k: int)
    requires
        names_ok(level_names(ts)),
        0 <= i < ts.len(),
        0 <= k < ts[i].names_view().len(),
    ensures
        !is_reserved(ts[i].names_view()[k]),
{
    lemma_name_at_pos(ts, i, k);
}

/// Whether `segs` is a full name path for the node at `p`: one segment per
/// level, each a name or alias of the node the path passes through there.
pub open spec fn seg_names_ok(ts: Seq<Tag>, p: Seq<usize>, segs: Seq<Seq<char>>) -> bool
    decreases p.len(),
{
    &&& p.len() > 0
    &&& segs.len() == p.len()
    &&& 0 <= p[0] < ts.len()
    &&& ts[p[0] as int].names_view().contains(segs[0])
    &&& (p.len() > 1 ==> seg_names_ok(ts[p[0] as int].subtags@, p.skip(1), segs.skip(1)))
}

/// The full name path of a live tag in a tree that passes validation
/// resolves to exactly that tag: resolution inverts projection. Holds for
/// any mix of primary names and aliases along the path.
pub proof fn lemma_resolve_round_trip(ts: Seq<Tag>, p: Seq<usize>, segs: Seq<Seq<char>>)
    requires
        crate::validate::tree_ok(ts),
        valid_path(ts, p),
        seg_names_ok(ts, p, segs),
    ensures
        crate::resolve::spec_resolve(ts, segs) == crate::resolve::SpecResolved::Tag(p),
    decreases p.len(),
{
    let i = p[0] as int;
    let s = segs[0];
    let k = choose|k: int| 0 <= k < ts[i].names_view().len() && ts[i].names_view()[k] == s;
    lemma_level_name_not_reserved(ts, i, k);
    lemma_first_match_unique(ts, s, i);
    if p.len() == 1 {
        assert(p =~= seq![p[0]]);
        assert(crate::resolve::spec_resolve(ts, segs) == crate::resolve::SpecResolved::Tag(
            seq![i as usize],
        ));
    } else {
        assert(crate::validate::tree_ok(ts[i].subtags@));
        lemma_resolve_round_trip(ts[i].subtags@, p.skip(1), segs.skip(1));
        assert(p =~= seq![p[0]] + p.skip(1));
    }
}

/// Whether the command surface can be walked along `segs`: at each level
/// some unit answers to the segment, and the rest of the walk continues
/// under it.
pub open spec fn surface_has(us: Seq<crate::project::CmdUnit>, segs: Seq<Seq<char>>) -> bool
    decreases segs.len(),
{
    segs.len() == 0 || exists|j: int|
        0 <= j < us.len() && (#[trigger] unit_answers(us[j], segs[0])) && surface_has(
            us[j].children@,
            segs.skip(1),
        )
}

/// Whether the unit answers to the name `s`: it is its primary name or one
/// of its aliases.
pub open spec fn unit_answers(u: crate::project::CmdUnit, s: Seq<char>) -> bool {
    u.name@ == s || u.aliases.deep_view().contains(s)
}

/// A live tag's mirrored unit exists in the projection of its level.
proof fn lemma_units_mirror_elem(ts: Seq<Tag>, us: Seq<crate::project::CmdUnit>, i: int)
    requires
        crate::project::units_mirror(ts, us),
        0 <= i < ts.len(),
        ts[i].is_live(),
    ensures
        exists|j: int|
            0 <= j < us.len() && #[trigger] crate::project::unit_mirrors(ts[i], us[j]),
    decreases ts.len(),
{
    if i == 0 {
        assert(crate::project::unit_mirrors(ts[0], us[0]));
    } else {
        let rest = ts.skip(1);
        assert(rest[i - 1] == ts[i]);
        if ts[0].is_live() {
            lemma_units_mirror_elem(rest, us.skip(1), i - 1);
            let j = choose|j: int|
                0 <= j < us.skip(1).len() && #[trigger] crate::project::unit_mirrors(
                    rest[i - 1],
                    us.skip(1)[j],
                );
            assert(us.skip(1)[j] == us[j + 1]);
            assert(crate::project::unit_mirrors(ts[i], us[j + 1]));
        } else {
            lemma_units_mirror_elem(rest, us, i - 1);
        }
    }
}

/// The projected surface carries every live tag's full name path: each
/// segment of such a path is answered by the mirrored unit of its level,
/// and the walk continues under it. Together with the round trip above,
/// projecting and then resolving a live tag's name path reaches exactly
/// that tag.
pub proof fn lemma_projected_surface_has(
    ts: Seq<Tag>,
    us: Seq<crate::project::CmdUnit>,
    p: Seq<usize>,
    segs: Seq<Seq<char>>,
)
    requires
        crate::project::projected(ts, us),
        seg_names_ok(ts, p, segs),
    ensures
        surface_has(us, segs),
    decreases p.len(),
{
    let i = p[0] as int;
    let s = segs[0];
    assert(ts[i].is_live()) by {
        let k = choose|k: int| 0 <= k < ts[i].names_view().len() && ts[i].names_view()[k] == s;
        assert(ts[i].names_view().len() > 0);
        assert(ts[i].names.len() > 0);
    }
    lemma_units_mirror_elem(ts, us.skip(3), i);
    let j = choose|j: int|
        0 <= j < us.skip(3).len() && #[trigger] crate::project::unit_mirrors(
            ts[i],
            us.skip(3)[j],
        );
    let u = us.skip(3)[j];
    assert(u == us[j + 3]);
    assert(unit_answers(u, s)) by {
        let k = choose|k: int| 0 <= k < ts[i].names_view().len() && ts[i].names_view()[k] == s;
        if k == 0 {
            assert(u.name@ == s);
        } else {
            assert(u.aliases.deep_view() == ts[i].names_view().skip(1));
            assert(ts[i].names_view().skip(1)[k - 1] == s);
            assert(u.aliases.deep_view().contains(s));
        }
    }
    if p.len() == 1 {
        assert(segs.skip(1) =~= Seq::<Seq<char>>::empty());
        assert(surface_has(u.children@, segs.skip(1)));
    } else {
        assert(crate::project::projected(ts[i].subtags@, u.children@));
        lemma_projected_surface_has(ts[i].subtags@, u.children@, p.skip(1), segs.skip(1));
    }
    assert(unit_answers(us[j + 3], segs[0]) && surface_has(us[j + 3].children@, segs.skip(1)));
}

/// The sibling sequence that contains the node at path `p`.
pub open spec fn parent_level(ts: Seq<Tag>, p: Seq<usize>) -> Seq<Tag>
    decreases p.len(),
{
    if p.len() <= 1 {
        ts
    } else {
        parent_level(ts[p[0] as int].subtags@, p.skip(1))
    }
}

/// The node at a path sits in its parent level at the path's last index.
pub proof fn lemma_tag_at_parent_level(ts: Seq<Tag>, p: Seq<usize>)
    requires
        valid_path(ts, p),
    ensures
        0 <= p[p.len() - 1] < parent_level(ts, p).len(),
        tag_at(ts, p) == parent_level(ts, p)[p[p.len() - 1] as int],
    decreases p.len(),
{
    if p.len() > 1 {
        lemma_tag_at_parent_level(ts[p[0] as int].subtags@, p.skip(1));
        assert(p.skip(1)[p.skip(1).len() - 1] == p[p.len() - 1]);
    }
}

/// In a tree that passes validation, every level along a valid path is in
/// order, and the subtree under each step passes validation too.
pub proof fn lemma_tree_ok_parent_level(ts: Seq<Tag>, p: Seq<usize>)
    requires
        crate::validate::tree_ok(ts),
        valid_path(ts, p),
    ensures
        names_ok(level_names(parent_level(ts, p))),
    decreases p.len(),
{
    if p.len() <= 1 {
    } else {
        assert(crate::validate::tree_ok(ts[p[0] as int].subtags@));
        lemma_tree_ok_parent_level(ts[p[0] as int].subtags@, p.skip(1));
    }
}

/// After tombstoning at `p`, the parent level of `p` keeps every sibling
/// untouched and has cleared exactly the names of the node at `p`.
pub proof fn lemma_tombstoned_parent_level(pre: Seq<Tag>, post: Seq<Tag>, p: Seq<usize>)
    requires
        valid_path(pre, p),
        crate::mutate::tree_tombstoned(pre, post, p),
    ensures
        parent_level(post, p).len() == parent_level(pre, p).len(),
        forall|j: int|
            0 <= j < parent_level(pre, p).len() && j != p[p.len() - 1] ==> parent_level(post, p)[j]
                == parent_level(pre, p)[j],
        parent_level(post, p)[p[p.len() - 1] as int].names.len() == 0,
    decreases p.len(),
{
    if p.len() == 1 {
    } else {
        let i = p[0] as int;
        assert(post[i].subtags@ == parent_level(post, p) || true);
        lemma_tombstoned_parent_level(pre[i].subtags@, post[i].subtags@, p.skip(1));
        assert(parent_level(post, p) == parent_level(post[i].subtags@, p.skip(1)));
        assert(p.skip(1)[p.skip(1).len() - 1] == p[p.len() - 1]);
    }
}

/// Tombstoning a node never moves any other node: every path of sibling
/// indices that was valid before is valid after, and vice versa. Sibling
/// indices held by an in-flight session stay usable.
pub proof fn lemma_tombstone_keeps_paths(
    pre: Seq<Tag>,
    post: Seq<Tag>,
    p: Seq<usize>,
    q: Seq<usize>,
)
    requires
        valid_path(pre, p),
        crate::mutate::tree_tombstoned(pre, post, p),
    ensures
        valid_path(pre, q) == valid_path(post, q),
    decreases q.len(),
{
    if q.len() > 0 && 0 <= q[0] < pre.len() {
        let i = p[0] as int;
        let j = q[0] as int;
        if j != i {
            assert(post[j] == pre[j]);
        } else {
            if p.len() == 1 {
                assert(post[i].subtags == pre[i].subtags);
            } else {
                if q.len() > 1 {
                    lemma_tombstone_keeps_paths(
                        pre[i].subtags@,
                        post[i].subtags@,
                        p.skip(1),
                        q.skip(1),
                    );
                }
            }
        }
    }
}

/// After tombstoning, the removed tag's former name path no longer
/// resolves: the walk reaches the level that held it and finds nothing.
pub proof fn lemma_tombstone_unresolvable(
    pre: Seq<Tag>,
    post: Seq<Tag>,
    p: Seq<usize>,
    segs: Seq<Seq<char>>,
)
    requires
        crate::validate::tree_ok(pre),
        valid_path(pre, p),
        seg_names_ok(pre, p, segs),
        crate::mutate::tree_tombstoned(pre, post, p),
    ensures
        crate::resolve::spec_resolve(post, segs) == crate::resolve::SpecResolved::NotFound,
    decreases p.len(),
{
    let i = p[0] as int;
    let s = segs[0];
    let k = choose|k: int| 0 <= k < pre[i].names_view().len() && pre[i].names_view()[k] == s;
    lemma_level_name_not_reserved(pre, i, k);
    if p.len() == 1 {
        assert(crate::resolve::first_match(post, s, 0) is None) by {
            crate::resolve::lemma_first_match(post, s, 0);
            match crate::resolve::first_match(post, s, 0) {
                Some(m) => {
                    if m != i {
                        assert(post[m] == pre[m]);
                        let l = choose|l: int|
                            0 <= l < pre[m].names_view().len() && pre[m].names_view()[l] == s;
                        lemma_level_name_unique(pre, i, k, m, l);
                        assert(false);
                    } else {
                        assert(post[i].names.len() == 0);
                        assert(post[i].names_view().len() == 0);
                        assert(false);
                    }
                },
                None => {},
            }
        }
    } else {
        assert(post[i].names == pre[i].names);
        assert(crate::resolve::first_match(post, s, 0) == Some(i)) by {
            crate::resolve::lemma_first_match(post, s, 0);
            assert(post[i].names_view().contains(s)) by {
                assert(post[i].names_view() == pre[i].names_view());
            }
            match crate::resolve::first_match(post, s, 0) {
                Some(m) => {
                    if m != i {
                        assert(m < i);
                        assert(post[m] == pre[m]);
                        let l = choose|l: int|
                            0 <= l < pre[m].names_view().len() && pre[m].names_view()[l] == s;
                        lemma_level_name_unique(pre, i, k, m, l);
                        assert(false);
                    }
                },
                None => {
                    assert(false);
                },
            }
        }
        assert(crate::validate::tree_ok(pre[i].subtags@));
        lemma_tombstone_unresolvable(pre[i].subtags@, post[i].subtags@, p.skip(1), segs.skip(1));
    }
}

/// After tombstoning, none of the removed tag's names survives into the
/// serialized form of the level that held it: the tombstone is filtered
/// out, and no sibling carries those names either.
pub proof fn lemma_tombstone_not_serialized(
    pre: Seq<Tag>,
    post: Seq<Tag>,
    p: Seq<usize>,
    out: Seq<Tag>,
    s: Seq<char>,
)
    requires
        crate::validate::tree_ok(pre),
        valid_path(pre, p),
        crate::mutate::tree_tombstoned(pre, post, p),
        tag_at(pre, p).names_view().contains(s),
        crate::serial::live_filtered(parent_level(post, p), out),
    ensures
        !level_names(out).contains(s),
{
    let last = p[p.len() - 1] as int;
    let lp = parent_level(pre, p);
    let lq = parent_level(post, p);
    lemma_tag_at_parent_level(pre, p);
    lemma_tree_ok_parent_level(pre, p);
    lemma_tombstoned_parent_level(pre, post, p);
    crate::serial::lemma_live_filtered_names(lq, out);
    if level_names(out).contains(s) {
        lemma_level_names_elem(lq, s);
        let (m, l): (int, int) = choose|m: int, l: int|
            0 <= m < lq.len() && 0 <= l < lq[m].names_view().len() && #[trigger] lq[
                m
            ].names_view()[l] == s;
        if m == last {
            assert(lq[last].names.len() == 0);
            assert(lq[last].names_view().len() == 0);
            assert(false);
        } else {
            assert(lq[m] == lp[m]);
            let k = choose|k: int|
                0 <= k < lp[last].names_view().len() && lp[last].names_view()[k] == s;
            lemma_level_name_unique(lp, last, k, m, l);
            assert(false);
        }
    }
}

} // verus!
