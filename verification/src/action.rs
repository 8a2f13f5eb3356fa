//! Turning a resolved tag and its merged flags into one concrete action
//! plan: what to copy, what to print, what to open and with which
//! application. The caller carries the plan out; everything decided here is
//! decided exactly.

use vstd::prelude::*;
use crate::error::{Error, TagResult};
use crate::options::MatchOptions;
use crate::tag::Tag;

verus! {

/// The concrete outcome of one tag invocation: each field is one effect to
/// carry out.
pub struct ActionPlan {
    /// List the live subtags of the resolved tag.
    pub list: bool,
    /// Show the tag's information.
    pub show_info: bool,
    /// Put this text on the clipboard.
    pub copy_text: Option<String>,
    /// Print this path.
    pub print_path: Option<String>,
    /// Open this path.
    pub open_path: Option<String>,
    /// Open with this application; absent means the system default.
    pub open_app: Option<String>,
}

/// Relies on shellexpand::tilde: an input that does not begin with `~`
/// comes back unchanged; one that begins with `~` comes back with some
/// prefix (the home directory, or the untouched `~` itself) in place of the
/// leading `~`. What the prefix is depends on the environment, so nothing
/// more is assumed.
#[verifier::external_body]
fn expand_tilde(s: &String) -> (r: String)
    ensures
        s@.len() == 0 ==> r@ == s@,
        s@.len() > 0 && s@[0] != '~' ==> r@ == s@,
        s@.len() > 0 && s@[0] == '~' ==> exists|hd: Seq<char>| r@ == hd + s@.skip(1),
{
    shellexpand::tilde(s.as_str()).into_owned()
}

/// Whether `e` is an acceptable expansion of `orig`: unchanged unless
/// `orig` begins with `~`, in which case some prefix replaces the `~`.
pub open spec fn expanded_ok(orig: Seq<char>, e: Seq<char>) -> bool {
    if orig.len() > 0 && orig[0] == '~' {
        exists|hd: Seq<char>| e == hd + orig.skip(1)
    } else {
        e == orig
    }
}

/// How the path-carrying fields of a plan follow from the flags, given the
/// expanded path `e`: the clipboard gets it when a copy was asked for, it
/// is printed when printing was asked for, and it is opened unless printing
/// or a silent mode suppresses that; an opened path uses the invocation's
/// application override first, else the tag's own.
pub open spec fn plan_paths(p: ActionPlan, opts: MatchOptions, tag: Tag, e: Seq<char>) -> bool {
    let silent = opts.silent_copy || opts.info;
    &&& (if opts.copy || opts.silent_copy {
        p.copy_text matches Some(t) && t@ == e
    } else {
        p.copy_text is None
    })
    &&& (if opts.print {
        p.print_path matches Some(t) && t@ == e
    } else {
        p.print_path is None
    })
    &&& (if !opts.print && !silent {
        p.open_path matches Some(t) && t@ == e
    } else {
        p.open_path is None
    })
    &&& (if !opts.print && !silent {
        p.open_app == (if opts.app is Some {
            opts.app
        } else {
            tag.app
        })
    } else {
        p.open_app is None
    })
}

/// What planning an action decides, for every combination of tag and flags.
pub open spec fn plan_verdict(tag: Tag, opts: MatchOptions, r: TagResult<ActionPlan>) -> bool {
    if opts.list {
        r matches Ok(p) && p.list && !p.show_info && p.copy_text is None && p.print_path is None
            && p.open_path is None && p.open_app is None
    } else if opts.info && (!opts.copy || tag.path is None) {
        r matches Ok(p) && !p.list && p.show_info && p.copy_text is None && p.print_path is None
            && p.open_path is None && p.open_app is None
    } else if tag.path is None {
        r matches Err(Error::TagWithNoPath)
    } else {
        r matches Ok(p) && !p.list && p.show_info == opts.info && (exists|e: Seq<char>|
            expanded_ok((tag.path->0)@, e) && plan_paths(p, opts, tag, e))
    }
}

/// Decides what one invocation of a tag does. Listing asks for nothing
/// else; showing information suppresses everything except an explicit
/// copy; any remaining action needs the tag's path, expanded at a leading
/// `~`, and a grouping node without one is an error.
pub fn plan_action(tag: &Tag, options: MatchOptions) -> (r: TagResult<ActionPlan>)
    ensures
        plan_verdict(*tag, options, r),
{
    if options.list {
        return Ok(
            ActionPlan {
                list: true,
                show_info: false,
                copy_text: None,
                print_path: None,
                open_path: None,
                open_app: None,
            },
        );
    }
    if options.info && (!options.copy || tag.path.is_none()) {
        return Ok(
            ActionPlan {
                list: false,
                show_info: true,
                copy_text: None,
                print_path: None,
                open_path: None,
                open_app: None,
            },
        );
    }
    let path = match &tag.path {
        Some(p) => p,
        None => {
            return Err(Error::TagWithNoPath);
        },
    };
    let expanded = if path.as_str().unicode_len() > 0 && path.as_str().get_char(0) == '~' {
        expand_tilde(path)
    } else {
        path.clone()
    };
    let ghost e = expanded@;
    let silent = options.silent_copy || options.info;
    let copy_text = if options.copy || options.silent_copy {
        Some(expanded.clone())
    } else {
        None
    };
    let print_path = if options.print {
        Some(expanded.clone())
    } else {
        None
    };
    let opens = !options.print && !silent;
    let open_app = if opens {
        if options.app.is_some() {
            options.app.clone()
        } else {
            tag.app.clone()
        }
    } else {
        None
    };
    let open_path = if opens {
        Some(expanded)
    } else {
        None
    };
    let p = ActionPlan { list: false, show_info: options.info, copy_text, print_path, open_path, open_app };
    proof {
        if options.app is Some {
            assert(p.open_app == (if opens {
                options.app
            } else {
                Option::<String>::None
            }));
        } else {
            if tag.app is Some {
                assert(opens ==> p.open_app == tag.app);
            }
        }
        assert(expanded_ok((tag.path->0)@, e) && plan_paths(p, options, *tag, e));
    }
    Ok(p)
}

} // verus!
