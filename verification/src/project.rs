//! The command projector: turns the tag tree into the surface of invocable
//! commands. Every live tag becomes one addressable unit under its primary
//! name, with its aliases as secondary names and its description split into
//! a short and a long form; the reserved management units are injected at
//! every level; tombstones are never projected.

use vstd::prelude::*;
use crate::strutil::{first_line, first_line_str};
use crate::tag::{Tag, Tags};

verus! {

/// One addressable unit of the command surface.
pub struct CmdUnit {
    /// The unit's primary, invocable name.
    pub name: String,
    /// Further names the unit answers to.
    pub aliases: Vec<String>,
    /// A one-line summary, shown in listings.
    pub about: Option<String>,
    /// The full description.
    pub long_about: Option<String>,
    /// Whether this unit is an injected management unit; those are hidden
    /// from listings but always resolvable.
    pub reserved: bool,
    /// The units nested under this one.
    pub children: Vec<CmdUnit>,
}

/// Whether `u` is the injected management unit for the reserved word
/// `name`: marked reserved, with nothing nested under it.
pub open spec fn is_reserved_unit(u: CmdUnit, name: Seq<char>) -> bool {
    &&& u.name@ == name
    &&& u.reserved
    &&& u.children@.len() == 0
}

/// Whether the unit `u` mirrors the live tag `t`: primary name, aliases in
/// order, the description in full and its first line as the summary, and
/// the children mirroring the subtags.
pub open spec fn unit_mirrors(t: Tag, u: CmdUnit) -> bool
    decreases t, 1int,
{
    &&& !u.reserved
    &&& u.name@ == t.names_view()[0]
    &&& u.aliases.deep_view() == t.names_view().skip(1)
    &&& (match t.about {
        None => u.about is None && u.long_about is None,
        Some(a) => u.long_about matches Some(l) && l@ == a@ && (if a@.len() == 0 {
            u.about is None
        } else {
            u.about matches Some(s) && s@ == first_line(a@)
        }),
    })
    &&& projected(t.subtags@, u.children@)
}

/// Whether `us` is the projection of the level `ts`: the three management
/// units first, then one unit per live tag, in order.
pub open spec fn projected(ts: Seq<Tag>, us: Seq<CmdUnit>) -> bool
    decreases ts, 2int,
{
    &&& us.len() >= 3
    &&& is_reserved_unit(us[0], "add"@)
    &&& is_reserved_unit(us[1], "remove"@)
    &&& is_reserved_unit(us[2], "update"@)
    &&& units_mirror(ts, us.skip(3))
}

/// Whether `us` mirrors exactly the live tags of `ts`, in order.
pub open spec fn units_mirror(ts: Seq<Tag>, us: Seq<CmdUnit>) -> bool
    decreases ts, 0int,
    via units_mirror_decreases
{
    if ts.len() == 0 {
        us.len() == 0
    } else if !ts[0].is_live() {
        units_mirror(ts.skip(1), us)
    } else {
        &&& us.len() > 0
        &&& unit_mirrors(ts[0], us[0])
        &&& units_mirror(ts.skip(1), us.skip(1))
    }
}

#[via_fn]
proof fn units_mirror_decreases(ts: Seq<Tag>, us: Seq<CmdUnit>) {
    if ts.len() > 0 {
        assert(decreases_to!(ts => ts[0]));
    }
}

/// Extending a mirrored prefix by one tag: a live tag appends its unit, a
/// tombstone appends nothing.
proof fn lemma_units_mirror_snoc(ts: Seq<Tag>, i: int, us: Seq<CmdUnit>, u: CmdUnit)
    requires
        0 <= i < ts.len(),
        units_mirror(ts.take(i), us),
    ensures
        ts[i].is_live() && unit_mirrors(ts[i], u) ==> units_mirror(ts.take(i + 1), us.push(u)),
        !ts[i].is_live() ==> units_mirror(ts.take(i + 1), us),
    decreases i,
{
    if i == 0 {
        assert(ts.take(0) =~= Seq::<Tag>::empty());
        assert(ts.take(1)[0] == ts[0]);
        assert(ts.take(1).skip(1) =~= Seq::<Tag>::empty());
        if ts[0].is_live() && unit_mirrors(ts[0], u) {
            assert(us.len() == 0);
            assert(us.push(u)[0] == u);
            assert(us.push(u).skip(1) =~= Seq::<CmdUnit>::empty());
            assert(units_mirror(Seq::<Tag>::empty(), Seq::<CmdUnit>::empty()));
        }
    } else {
        let rest = ts.skip(1);
        assert(ts.take(i)[0] == ts[0]);
        assert(ts.take(i + 1)[0] == ts[0]);
        assert(ts.take(i).skip(1) =~= rest.take(i - 1));
        assert(ts.take(i + 1).skip(1) =~= rest.take(i));
        assert(rest[i - 1] == ts[i]);
        if ts[0].is_live() {
            lemma_units_mirror_snoc(rest, i - 1, us.skip(1), u);
            if ts[i].is_live() && unit_mirrors(ts[i], u) {
                assert(us.push(u)[0] == us[0]);
                assert(us.push(u).skip(1) =~= us.skip(1).push(u));
            }
        } else {
            lemma_units_mirror_snoc(rest, i - 1, us, u);
        }
    }
}

/// Builds one injected management unit.
fn reserved_unit(name: &str) -> (u: CmdUnit)
    ensures
        is_reserved_unit(u, name@),
{
    let children: Vec<CmdUnit> = Vec::new();
    CmdUnit {
        name: name.to_owned(),
        aliases: Vec::new(),
        about: None,
        long_about: None,
        reserved: true,
        children,
    }
}

/// Projects one level of the tree: the three management units, then one
/// unit per live tag, in order, each with its subtags projected under it.
pub fn project(tags: &Tags) -> (r: Vec<CmdUnit>)
    ensures
        projected(tags@, r@),
    decreases tags@,
{
    let mut out: Vec<CmdUnit> = Vec::new();
    out.push(reserved_unit("add"));
    out.push(reserved_unit("remove"));
    out.push(reserved_unit("update"));
    let mut i: usize = 0;
    proof {
        assert(out@.skip(3) =~= Seq::<CmdUnit>::empty());
        assert(units_mirror(tags@.take(0), out@.skip(3)));
    }
    while i < tags.len()
        invariant
            0 <= i <= tags@.len(),
            out@.len() >= 3,
            is_reserved_unit(out@[0], "add"@),
            is_reserved_unit(out@[1], "remove"@),
            is_reserved_unit(out@[2], "update"@),
            units_mirror(tags@.take(i as int), out@.skip(3)),
        decreases tags@.len() - i,
    {
        proof {
            assert(decreases_to!(tags@ => tags@[i as int]));
            assert(decreases_to!(tags@[i as int] => tags@[i as int].subtags@));
        }
        let tag = &tags[i];
        if tag.names.len() > 0 {
            let name = tag.names[0].clone();
            let mut aliases: Vec<String> = Vec::new();
            let mut k: usize = 1;
            proof {
                assert(aliases.deep_view() =~= tag.names_view().subrange(1, 1));
            }
            while k < tag.names.len()
                invariant
                    tag == &tags@[i as int],
                    0 <= i < tags@.len(),
                    1 <= k <= tag.names@.len(),
                    aliases.deep_view() == tag.names_view().subrange(1, k as int),
                decreases tag.names@.len() - k,
            {
                let ghost prev = aliases.deep_view();
                aliases.push(tag.names[k].clone());
                proof {
                    assert(tag.names@[k as int]@ == tag.names_view()[k as int]);
                    assert(aliases.deep_view() =~= prev.push(tag.names_view()[k as int]));
                    assert(tag.names_view().subrange(1, k + 1) =~= prev.push(
                        tag.names_view()[k as int],
                    ));
                }
                k = k + 1;
            }
            proof {
                assert(tag.names_view().subrange(1, tag.names@.len() as int) =~= tag.names_view()
                    .skip(1));
            }
            let (about, long_about): (Option<String>, Option<String>) = match &tag.about {
                None => (None, None),
                Some(a) => {
                    let short = if a.as_str().unicode_len() == 0 {
                        None
                    } else {
                        Some(first_line_str(a.as_str()))
                    };
                    (short, Some(a.clone()))
                },
            };
            let children = project(&tag.subtags);
            let unit = CmdUnit { name, aliases, about, long_about, reserved: false, children };
            let ghost prev_units = out@.skip(3);
            proof {
                assert(unit_mirrors(tags@[i as int], unit));
                lemma_units_mirror_snoc(tags@, i as int, prev_units, unit);
            }
            out.push(unit);
            proof {
                assert(out@.skip(3) =~= prev_units.push(unit));
            }
        } else {
            proof {
                lemma_units_mirror_snoc(tags@, i as int, out@.skip(3), out@[0]);
            }
        }
        i = i + 1;
    }
    proof {
        assert(tags@.take(tags@.len() as int) =~= tags@);
    }
    out
}

} // verus!
