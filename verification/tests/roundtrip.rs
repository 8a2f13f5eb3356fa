use opentag::project::{project, CmdUnit};
use opentag::resolve::{resolve, Resolved};
use opentag::tag::Tag;
use opentag::validate::validate_tags;

fn leaf(names: &[&str]) -> Tag {
    Tag::new(
        names.iter().map(|s| s.to_string()).collect(),
        None,
        None,
        None,
    )
}

fn node(names: &[&str], subtags: Vec<Tag>) -> Tag {
    let mut t = leaf(names);
    t.subtags = subtags;
    t
}

/// Collects the primary-name path of every live tag in the tree, with the
/// index path it should resolve to.
fn all_paths(tags: &[Tag], prefix_names: Vec<String>, prefix_idx: Vec<usize>) -> Vec<(Vec<String>, Vec<usize>)> {
    let mut out = Vec::new();
    for (i, t) in tags.iter().enumerate() {
        if t.names.is_empty() {
            continue;
        }
        let mut names = prefix_names.clone();
        names.push(t.names[0].clone());
        let mut idx = prefix_idx.clone();
        idx.push(i);
        out.push((names.clone(), idx.clone()));
        out.extend(all_paths(&t.subtags, names, idx));
    }
    out
}

/// Checks that the surface answers to each segment of the path in turn.
fn surface_walks(units: &[CmdUnit], segments: &[String]) -> bool {
    if segments.is_empty() {
        return true;
    }
    units.iter().any(|u| {
        (u.name == segments[0] || u.aliases.contains(&segments[0]))
            && surface_walks(&u.children, &segments[1..])
    })
}

#[test]
fn every_live_name_path_projects_and_resolves_to_its_tag() {
    let tags = vec![
        node(
            &["work", "w"],
            vec![
                node(&["docs"], vec![leaf(&["deep", "d"])]),
                leaf(&["mail"]),
            ],
        ),
        leaf(&["home"]),
    ];
    assert!(validate_tags(&tags).is_ok());
    let surface = project(&tags);
    for (segments, idx) in all_paths(&tags, Vec::new(), Vec::new()) {
        assert!(surface_walks(&surface, &segments));
        let r = resolve(&tags, &segments);
        assert!(matches!(r, Resolved::Tag { ref path } if *path == idx));
    }
}

#[test]
fn print_invocation_reaches_the_tag_and_prints_its_path() {
    // Tree `[{names:["work"], subtags:[{names:["docs"], path:"/d"}]}]`,
    // invocation `work docs --print`.
    let mut docs = leaf(&["docs"]);
    docs.path = Some("/d".to_string());
    let tags = vec![node(&["work"], vec![docs])];

    let segments = vec!["work".to_string(), "docs".to_string()];
    let r = resolve(&tags, &segments);
    let path = match r {
        Resolved::Tag { path } => path,
        _ => panic!("expected a tag"),
    };
    assert_eq!(path, vec![0, 0]);

    let no_flags = opentag::options::MatchOptions::empty();
    let mut docs_level = opentag::options::MatchOptions::empty();
    docs_level.print = true;
    let merged = opentag::options::merge_options(&vec![no_flags, docs_level]);

    let tag = opentag::tag::tag_at_path(&tags, &path, 0);
    let plan = opentag::action::plan_action(tag, merged).unwrap();
    assert_eq!(plan.print_path, Some("/d".to_string()));
    assert_eq!(plan.open_path, None);
}

#[test]
fn round_trip_skips_tombstones_but_keeps_the_rest() {
    let mut tags = vec![
        node(&["work"], vec![leaf(&["docs"]), leaf(&["mail"])]),
        leaf(&["home"]),
    ];
    // Tombstone `docs`; every other path still resolves to its old index.
    opentag::mutate::tombstone_at(&mut tags, &vec![0, 0], 0);
    for (segments, idx) in all_paths(&tags, Vec::new(), Vec::new()) {
        let r = resolve(&tags, &segments);
        assert!(matches!(r, Resolved::Tag { ref path } if *path == idx));
    }
    let gone = vec!["work".to_string(), "docs".to_string()];
    assert!(matches!(resolve(&tags, &gone), Resolved::NotFound));
}
