//! The decisions of an interactive editing session. The prompting itself
//! happens outside; these functions take what the user typed or picked and
//! decide, exactly, what happens next: which level to prompt over next,
//! which node ends up selected, and how typed text becomes names and field
//! edits.

use vstd::prelude::*;
use crate::error::{Error, TagResult};
use crate::mutate::{level_at, FieldEdit};
use crate::strutil::{
    filter_comment_lines, spec_filter_comments, spec_split_terminator, spec_trim,
    split_terminator_str, trim_str,
};
use crate::tag::{tag_at, tag_at_path, valid_path, Tag, Tags};

verus! {

/// Every tag of one sibling level is live.
pub open spec fn level_all_live(ts: Seq<Tag>) -> bool {
    forall|i: int| 0 <= i < ts.len() ==> (#[trigger] ts[i]).is_live()
}

/// The primary names of one sibling level, index for index; every tag must
/// be live to have one.
pub fn primary_names(tags: &Tags) -> (r: Vec<String>)
    requires
        level_all_live(tags@),
    ensures
        r@.len() == tags@.len(),
        forall|i: int| 0 <= i < tags@.len() ==> r.deep_view()[i] == tags@[i].names_view()[0],
{
    let mut out: Vec<String> = Vec::new();
    let mut i: usize = 0;
    while i < tags.len()
        invariant
            level_all_live(tags@),
            0 <= i <= tags@.len(),
            out@.len() == i,
            forall|j: int| 0 <= j < i ==> out.deep_view()[j] == tags@[j].names_view()[0],
        decreases tags@.len() - i,
    {
        let ghost prev = out.deep_view();
        out.push(tags[i].names[0].clone());
        proof {
            assert(out.deep_view() =~= prev.push(tags@[i as int].names_view()[0]));
            assert(out.deep_view()[i as int] == tags@[i as int].names_view()[0]);
        }
        i = i + 1;
    }
    out
}

/// Where an interactive selection stands after one answer.
pub enum SelectOutcome {
    /// Descend: prompt next over the subtags of this path.
    Prompt(Vec<usize>),
    /// A node was chosen, by this path.
    Chosen(Vec<usize>),
    /// The selection was abandoned at the root.
    Cancelled,
}

/// A path extended by an in-bounds index into its level is again valid.
pub proof fn lemma_valid_path_push(ts: Seq<Tag>, p: Seq<usize>, i: usize)
    requires
        p.len() > 0 ==> valid_path(ts, p),
        0 <= i < level_at(ts, p).len(),
    ensures
        valid_path(ts, p.push(i)),
        tag_at(ts, p.push(i)) == level_at(ts, p)[i as int],
    decreases p.len(),
{
    if p.len() == 0 {
        assert(p.push(i)[0] == i);
        assert(p.push(i).len() == 1);
    } else {
        let q = p.push(i);
        assert(q[0] == p[0]);
        assert(q.skip(1) =~= p.skip(1).push(i));
        if p.len() == 1 {
            assert(p.skip(1) =~= Seq::<usize>::empty());
        }
        lemma_valid_path_push(ts[p[0] as int].subtags@, p.skip(1), i);
    }
}

/// Decides one step of the interactive node selection. Escaping at the
/// root abandons the selection; escaping deeper selects the node prompted
/// under. Picking a node with subtags descends into them; picking a leaf
/// selects it.
pub fn select_step(tags: &Tags, path: Vec<usize>, choice: Option<usize>) -> (r: SelectOutcome)
    requires
        path@.len() > 0 ==> valid_path(tags@, path@),
        choice matches Some(i) ==> i < level_at(tags@, path@).len(),
    ensures
        match choice {
            None => if path@.len() == 0 {
                r is Cancelled
            } else {
                r matches SelectOutcome::Chosen(p) && p@ == path@
            },
            Some(i) => {
                let q = path@.push(i);
                &&& valid_path(tags@, q)
                &&& (if level_at(tags@, path@)[i as int].subtags.len() > 0 {
                    r matches SelectOutcome::Prompt(p) && p@ == q
                } else {
                    r matches SelectOutcome::Chosen(p) && p@ == q
                })
            },
        },
{
    match choice {
        None => {
            if path.len() == 0 {
                SelectOutcome::Cancelled
            } else {
                SelectOutcome::Chosen(path)
            }
        },
        Some(i) => {
            proof {
                lemma_valid_path_push(tags@, path@, i);
            }
            let has_subtags = if path.len() == 0 {
                tags[i].subtags.len() > 0
            } else {
                proof {
                    assert(path@.skip(0) =~= path@);
                }
                let t = tag_at_path(tags, &path, 0);
                t.subtags[i].subtags.len() > 0
            };
            let mut q = path;
            q.push(i);
            if has_subtags {
                SelectOutcome::Prompt(q)
            } else {
                SelectOutcome::Chosen(q)
            }
        },
    }
}

/// The names a typed comma-separated list denotes: the pieces between the
/// commas, each trimmed, a trailing comma opening no extra piece.
pub open spec fn spec_name_list(s: Seq<char>) -> Seq<Seq<char>> {
    spec_split_terminator(s, ',').map(|k: int, l: Seq<char>| spec_trim(l))
}

/// Splits a typed comma-separated name list and trims each piece.
pub fn parse_name_list(s: &str) -> (r: Vec<String>)
    ensures
        r.deep_view() == spec_name_list(s@),
{
    let pieces = split_terminator_str(s, ',');
    let ghost parts = spec_split_terminator(s@, ',');
    let mut out: Vec<String> = Vec::new();
    let mut i: usize = 0;
    proof {
        assert(pieces.deep_view().len() == pieces@.len());
        assert(out.deep_view() =~= parts.map(|k: int, l: Seq<char>| spec_trim(l)).take(0));
    }
    while i < pieces.len()
        invariant
            pieces.deep_view() == parts,
            pieces@.len() == parts.len(),
            0 <= i <= parts.len(),
            out.deep_view() == parts.map(|k: int, l: Seq<char>| spec_trim(l)).take(i as int),
        decreases pieces@.len() - i,
    {
        proof {
            assert(pieces@[i as int]@ == parts[i as int]);
        }
        let ghost prev = out.deep_view();
        let trimmed = trim_str(pieces[i].as_str()).to_owned();
        out.push(trimmed);
        proof {
            assert(out.deep_view() =~= prev.push(spec_trim(parts[i as int])));
            assert(parts.map(|k: int, l: Seq<char>| spec_trim(l)).take(i + 1) =~= prev.push(
                spec_trim(parts[i as int]),
            ));
        }
        i = i + 1;
    }
    proof {
        assert(parts.map(|k: int, l: Seq<char>| spec_trim(l)).take(parts.len() as int)
            =~= parts.map(|k: int, l: Seq<char>| spec_trim(l)));
    }
    out
}

/// Turns an edited text back into a name list: comment lines are dropped,
/// the rest is split at commas and trimmed, and an empty result is the
/// error a tag without names would be.
pub fn names_from_edit(s: &str) -> (r: TagResult<Vec<String>>)
    ensures
        (match r {
            Ok(v) => v.deep_view() == spec_name_list(spec_filter_comments(s@)) && v@.len() > 0,
            Err(e) => e is MissingName && spec_name_list(spec_filter_comments(s@)).len() == 0,
        }),
{
    let filtered = filter_comment_lines(s);
    let names = parse_name_list(filtered.as_str());
    proof {
        assert(names.deep_view().len() == names@.len());
    }
    if names.len() == 0 {
        Err(Error::MissingName)
    } else {
        Ok(names)
    }
}

/// Turns an edited text into the edit of one optional field: comment lines
/// are dropped; an empty remainder clears the field, anything else becomes
/// its new value.
pub fn field_from_edit(s: &str) -> (r: FieldEdit)
    ensures
        (if spec_filter_comments(s@).len() == 0 {
            r is Clear
        } else {
            r matches FieldEdit::Put(t) && t@ == spec_filter_comments(s@)
        }),
{
    let filtered = filter_comment_lines(s);
    if filtered.as_str().unicode_len() == 0 {
        FieldEdit::Clear
    } else {
        FieldEdit::Put(filtered)
    }
}

} // verus!
