use opentag::project::project;
use opentag::tag::Tag;

fn leaf(names: &[&str]) -> Tag {
    Tag::new(
        names.iter().map(|s| s.to_string()).collect(),
        None,
        None,
        None,
    )
}

#[test]
fn reserved_units_come_first_at_every_level() {
    let mut work = leaf(&["work"]);
    work.subtags = vec![leaf(&["docs"])];
    let units = project(&vec![work]);
    assert_eq!(units[0].name, "add");
    assert_eq!(units[1].name, "remove");
    assert_eq!(units[2].name, "update");
    assert!(units[0].reserved && units[1].reserved && units[2].reserved);
    let work_unit = &units[3];
    assert_eq!(work_unit.children[0].name, "add");
    assert_eq!(work_unit.children[1].name, "remove");
    assert_eq!(work_unit.children[2].name, "update");
}

#[test]
fn live_tags_are_mirrored_in_order() {
    let units = project(&vec![leaf(&["work", "w"]), leaf(&["home"])]);
    assert_eq!(units.len(), 5);
    assert_eq!(units[3].name, "work");
    assert_eq!(units[3].aliases, vec!["w".to_string()]);
    assert!(!units[3].reserved);
    assert_eq!(units[4].name, "home");
}

#[test]
fn tombstones_are_not_projected() {
    let mut dead = leaf(&["gone"]);
    dead.names.clear();
    let units = project(&vec![dead, leaf(&["kept"])]);
    assert_eq!(units.len(), 4);
    assert_eq!(units[3].name, "kept");
}

#[test]
fn about_splits_into_short_and_long() {
    let mut t = leaf(&["work"]);
    t.about = Some("first line\nrest of the story".to_string());
    let units = project(&vec![t]);
    assert_eq!(units[3].about, Some("first line".to_string()));
    assert_eq!(
        units[3].long_about,
        Some("first line\nrest of the story".to_string())
    );
}

#[test]
fn single_line_about_is_its_own_summary() {
    let mut t = leaf(&["work"]);
    t.about = Some("just this".to_string());
    let units = project(&vec![t]);
    assert_eq!(units[3].about, Some("just this".to_string()));
}

#[test]
fn missing_about_projects_none() {
    let units = project(&vec![leaf(&["work"])]);
    assert_eq!(units[3].about, None);
    assert_eq!(units[3].long_about, None);
}

#[test]
fn nested_subtags_are_projected_recursively() {
    let mut docs = leaf(&["docs"]);
    docs.subtags = vec![leaf(&["deep"])];
    let mut work = leaf(&["work"]);
    work.subtags = vec![docs];
    let units = project(&vec![work]);
    assert_eq!(units[3].children[3].name, "docs");
    assert_eq!(units[3].children[3].children[3].name, "deep");
}
