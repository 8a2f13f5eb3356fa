use opentag::mutate::tombstone_at;
use opentag::serial::live_tags;
use opentag::tag::Tag;

fn leaf(names: &[&str]) -> Tag {
    Tag::new(
        names.iter().map(|s| s.to_string()).collect(),
        None,
        None,
        None,
    )
}

#[test]
fn live_tree_is_kept_as_is() {
    let mut work = leaf(&["work", "w"]);
    work.path = Some("/w".to_string());
    work.about = Some("the job".to_string());
    work.app = Some("editor".to_string());
    work.subtags = vec![leaf(&["docs"])];
    let out = live_tags(&vec![work]);
    assert_eq!(out.len(), 1);
    assert_eq!(out[0].names, vec!["work".to_string(), "w".to_string()]);
    assert_eq!(out[0].path, Some("/w".to_string()));
    assert_eq!(out[0].about, Some("the job".to_string()));
    assert_eq!(out[0].app, Some("editor".to_string()));
    assert_eq!(out[0].subtags.len(), 1);
    assert_eq!(out[0].subtags[0].names, vec!["docs".to_string()]);
}

#[test]
fn tombstones_are_dropped_at_the_root() {
    let mut dead = leaf(&["gone"]);
    dead.names.clear();
    let out = live_tags(&vec![dead, leaf(&["kept"])]);
    assert_eq!(out.len(), 1);
    assert_eq!(out[0].names, vec!["kept".to_string()]);
}

#[test]
fn tombstones_are_dropped_inside_subtags() {
    let mut work = leaf(&["work"]);
    work.subtags = vec![leaf(&["docs"]), leaf(&["mail"])];
    let mut tags = vec![work];
    tombstone_at(&mut tags, &vec![0, 0], 0);
    let out = live_tags(&tags);
    assert_eq!(out[0].subtags.len(), 1);
    assert_eq!(out[0].subtags[0].names, vec!["mail".to_string()]);
}

#[test]
fn removed_tag_is_absent_while_memory_keeps_its_slot() {
    let mut tags = vec![leaf(&["a"]), leaf(&["b"])];
    tombstone_at(&mut tags, &vec![0], 0);
    // In memory the slot stays, so index 1 still means `b`.
    assert_eq!(tags.len(), 2);
    assert_eq!(tags[1].names, vec!["b".to_string()]);
    // Serialized, the removed tag is gone.
    let out = live_tags(&tags);
    assert_eq!(out.len(), 1);
    assert_eq!(out[0].names, vec!["b".to_string()]);
}
