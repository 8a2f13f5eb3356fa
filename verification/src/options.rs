//! Action flags and their merging. An invocation may set flags at every
//! level it traverses; boolean flags are OR-ed across levels, and the
//! single-valued application override takes the first value set, walking
//! outermost level first.

use vstd::prelude::*;

verus! {

/// The action flags one invocation level can carry.
pub struct MatchOptions {
    /// Print the path instead of opening it.
    pub print: bool,
    /// Copy the path to the clipboard.
    pub copy: bool,
    /// List the live tags under the resolved level.
    pub list: bool,
    /// Copy the path to the clipboard without opening it.
    pub silent_copy: bool,
    /// Open with this application instead of the default.
    pub app: Option<String>,
    /// Show information about the resolved tag.
    pub info: bool,
}

impl MatchOptions {
    /// The flags of a level that sets nothing.
    pub fn empty() -> (r: MatchOptions)
        ensures
            !r.print && !r.copy && !r.list && !r.silent_copy && !r.info,
            r.app is None,
    {
        MatchOptions { print: false, copy: false, list: false, silent_copy: false, app: None, info: false }
    }
}

/// The index of the outermost level that sets an application override, if
/// any.
pub open spec fn first_app(los: Seq<MatchOptions>) -> Option<int>
    decreases los.len(),
{
    if los.len() == 0 {
        None
    } else if los[0].app is Some {
        Some(0)
    } else {
        match first_app(los.skip(1)) {
            Some(i) => Some(i + 1),
            None => None,
        }
    }
}

/// `first_app` returns the least level with an override, or `None` when no
/// level sets one.
pub proof fn lemma_first_app(los: Seq<MatchOptions>)
    ensures
        match first_app(los) {
            Some(i) => 0 <= i < los.len() && los[i].app is Some && (forall|j: int|
                0 <= j < i ==> (#[trigger] los[j].app) is None),
            None => forall|j: int| 0 <= j < los.len() ==> (#[trigger] los[j].app) is None,
        },
    decreases los.len(),
{
    if los.len() > 0 && los[0].app is None {
        let t = los.skip(1);
        lemma_first_app(t);
        assert(forall|j: int| 0 <= j < t.len() ==> t[j] == los[j + 1]);
        match first_app(t) {
            Some(i) => {
                assert(los[i + 1] == t[i]);
                assert forall|j: int| 0 <= j < i + 1 implies (los[j].app) is None by {
                    if j > 0 {
                        assert(los[j] == t[j - 1]);
                    }
                }
            },
            None => {
                assert forall|j: int| 0 <= j < los.len() implies (los[j].app) is None by {
                    if j > 0 {
                        assert(los[j] == t[j - 1]);
                    }
                }
            },
        }
    }
}

/// Merges the flags of every traversed level into the flags of the final
/// action: each boolean flag is active if any level set it, and the
/// application override is the one of the outermost level that set one.
pub fn merge_options(levels: &Vec<MatchOptions>) -> (r: MatchOptions)
    ensures
        r.print == (exists|i: int| 0 <= i < levels@.len() && (#[trigger] levels@[i]).print),
        r.copy == (exists|i: int| 0 <= i < levels@.len() && (#[trigger] levels@[i]).copy),
        r.list == (exists|i: int| 0 <= i < levels@.len() && (#[trigger] levels@[i]).list),
        r.silent_copy == (exists|i: int|
            0 <= i < levels@.len() && (#[trigger] levels@[i]).silent_copy),
        r.info == (exists|i: int| 0 <= i < levels@.len() && (#[trigger] levels@[i]).info),
        match first_app(levels@) {
            Some(i) => r.app == levels@[i].app,
            None => r.app is None,
        },
{
    let mut r = MatchOptions::empty();
    let mut i: usize = 0;
    proof {
        lemma_first_app(levels@);
    }
    while i < levels.len()
        invariant
            0 <= i <= levels@.len(),
            r.print == (exists|j: int| 0 <= j < i && (#[trigger] levels@[j]).print),
            r.copy == (exists|j: int| 0 <= j < i && (#[trigger] levels@[j]).copy),
            r.list == (exists|j: int| 0 <= j < i && (#[trigger] levels@[j]).list),
            r.silent_copy == (exists|j: int| 0 <= j < i && (#[trigger] levels@[j]).silent_copy),
            r.info == (exists|j: int| 0 <= j < i && (#[trigger] levels@[j]).info),
            match first_app(levels@) {
                Some(k) => if k < i {
                    r.app == levels@[k].app
                } else {
                    r.app is None
                },
                None => r.app is None,
            },
        decreases levels@.len() - i,
    {
        proof {
            lemma_first_app(levels@);
        }
        let level = &levels[i];
        r.print = r.print || level.print;
        r.copy = r.copy || level.copy;
        r.list = r.list || level.list;
        r.silent_copy = r.silent_copy || level.silent_copy;
        r.info = r.info || level.info;
        if r.app.is_none() {
            r.app = level.app.clone();
            proof {
                match levels@[i as int].app {
                    Some(s) => {
                        assert(r.app == levels@[i as int].app);
                    },
                    None => {},
                }
            }
        }
        i = i + 1;
    }
    proof {
        lemma_first_app(levels@);
    }
    r
}

} // verus!
