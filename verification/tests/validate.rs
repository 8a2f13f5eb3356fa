use opentag::error::Error;
use opentag::tag::Tag;
use opentag::validate::{check_level, validate_tags};

fn leaf(names: &[&str]) -> Tag {
    Tag::new(
        names.iter().map(|s| s.to_string()).collect(),
        None,
        None,
        None,
    )
}

fn node(names: &[&str], subtags: Vec<Tag>) -> Tag {
    let mut t = leaf(names);
    t.subtags = subtags;
    t
}

#[test]
fn valid_tree_passes() {
    let tags = vec![
        node(&["work", "w"], vec![leaf(&["docs"]), leaf(&["mail"])]),
        leaf(&["home"]),
    ];
    assert!(validate_tags(&tags).is_ok());
}

#[test]
fn duplicate_across_siblings_is_name_in_use() {
    let tags = vec![leaf(&["work"]), leaf(&["work"])];
    let r = validate_tags(&tags);
    assert!(matches!(r, Err(Error::NameInUse(ref n)) if n == "work"));
}

#[test]
fn duplicate_alias_within_one_tag_is_name_in_use() {
    let tags = vec![leaf(&["work", "work"])];
    let r = validate_tags(&tags);
    assert!(matches!(r, Err(Error::NameInUse(ref n)) if n == "work"));
}

#[test]
fn alias_colliding_with_earlier_primary_is_name_in_use() {
    let tags = vec![leaf(&["work"]), leaf(&["home", "work"])];
    let r = validate_tags(&tags);
    assert!(matches!(r, Err(Error::NameInUse(ref n)) if n == "work"));
}

#[test]
fn reserved_word_as_name_is_reserved_name() {
    let tags = vec![leaf(&["update"])];
    let r = validate_tags(&tags);
    assert!(matches!(r, Err(Error::ReservedName(ref n)) if n == "update"));
}

#[test]
fn same_name_at_different_levels_is_fine() {
    let tags = vec![node(&["work"], vec![leaf(&["work"])])];
    assert!(validate_tags(&tags).is_ok());
}

#[test]
fn nested_conflict_is_found() {
    let tags = vec![node(&["work"], vec![leaf(&["a"]), leaf(&["a"])])];
    let r = validate_tags(&tags);
    assert!(matches!(r, Err(Error::NameInUse(ref n)) if n == "a"));
}

#[test]
fn level_conflict_reported_before_subtree_conflict() {
    // Pre-order: the root level's reserved name wins over the nested
    // duplicate.
    let tags = vec![
        node(&["add"], vec![leaf(&["x"]), leaf(&["x"])]),
    ];
    let r = validate_tags(&tags);
    assert!(matches!(r, Err(Error::ReservedName(ref n)) if n == "add"));
}

#[test]
fn scan_order_picks_first_conflict() {
    // "b" duplicates before "add" is reached.
    let tags = vec![leaf(&["a", "b"]), leaf(&["b"]), leaf(&["add"])];
    let r = validate_tags(&tags);
    assert!(matches!(r, Err(Error::NameInUse(ref n)) if n == "b"));
}

#[test]
fn tombstone_contributes_no_names() {
    let mut dead = leaf(&["work"]);
    dead.names.clear();
    let tags = vec![dead, leaf(&["work"])];
    assert!(validate_tags(&tags).is_ok());
}

#[test]
fn check_level_reports_first_duplicate() {
    let tags = vec![leaf(&["a"]), leaf(&["b", "a"])];
    let r = check_level(&tags);
    assert!(matches!(r, Some(Error::NameInUse(ref n)) if n == "a"));
}

#[test]
fn check_level_clean_is_none() {
    let tags = vec![leaf(&["a"]), leaf(&["b"])];
    assert!(check_level(&tags).is_none());
}
