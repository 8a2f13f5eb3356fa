use opentag::error::Error;
use opentag::mutate::FieldEdit;
use opentag::session::{
    field_from_edit, names_from_edit, parse_name_list, primary_names, select_step, SelectOutcome,
};
use opentag::tag::Tag;

fn leaf(names: &[&str]) -> Tag {
    Tag::new(
        names.iter().map(|s| s.to_string()).collect(),
        None,
        None,
        None,
    )
}

#[test]
fn name_list_is_split_and_trimmed() {
    let r = parse_name_list(" work , w ,");
    assert_eq!(r, vec!["work".to_string(), "w".to_string()]);
}

#[test]
fn empty_name_list_has_no_names() {
    let r = parse_name_list("");
    assert!(r.is_empty());
}

#[test]
fn edited_names_drop_comment_lines() {
    let text = "work, w\n# Please edit the names above.\n# Lines like this are ignored.";
    let r = names_from_edit(text).unwrap();
    assert_eq!(r, vec!["work".to_string(), "w".to_string()]);
}

#[test]
fn edited_names_left_empty_is_missing_name() {
    let text = "# nothing but comments\n\n   \n";
    assert!(matches!(names_from_edit(text), Err(Error::MissingName)));
}

#[test]
fn edited_field_keeps_text_and_clears_on_empty() {
    let r = field_from_edit("/new/path\n# comment");
    assert!(matches!(r, FieldEdit::Put(ref t) if t == "/new/path"));
    let r = field_from_edit("# only a comment\n");
    assert!(matches!(r, FieldEdit::Clear));
}

#[test]
fn primary_names_align_with_indices() {
    let tags = vec![leaf(&["work", "w"]), leaf(&["home"])];
    let names = primary_names(&tags);
    assert_eq!(names, vec!["work".to_string(), "home".to_string()]);
}

#[test]
fn listing_skips_tombstones() {
    let mut dead = leaf(&["gone"]);
    dead.names.clear();
    let tags = vec![leaf(&["work", "w"]), dead, leaf(&["home"])];
    let names = opentag::tag::live_primary_names(&tags);
    assert_eq!(names, vec!["work".to_string(), "home".to_string()]);
}

#[test]
fn all_named_detects_a_tombstone_anywhere() {
    let mut work = leaf(&["work"]);
    work.subtags = vec![leaf(&["docs"])];
    let mut tags = vec![work];
    assert!(opentag::tag::all_tags_named(&tags));
    tags[0].subtags[0].names.clear();
    assert!(!opentag::tag::all_tags_named(&tags));
}

#[test]
fn live_count_ignores_tombstones() {
    let mut dead = leaf(&["gone"]);
    dead.names.clear();
    let tags = vec![leaf(&["work"]), dead, leaf(&["home"])];
    assert_eq!(opentag::tag::count_live(&tags), 2);
}

#[test]
fn escape_at_root_cancels_selection() {
    let tags = vec![leaf(&["work"])];
    let r = select_step(&tags, vec![], None);
    assert!(matches!(r, SelectOutcome::Cancelled));
}

#[test]
fn escape_deeper_selects_the_parent() {
    let mut work = leaf(&["work"]);
    work.subtags = vec![leaf(&["docs"])];
    let tags = vec![work];
    let r = select_step(&tags, vec![0], None);
    assert!(matches!(r, SelectOutcome::Chosen(ref p) if *p == vec![0]));
}

#[test]
fn picking_a_leaf_selects_it() {
    let tags = vec![leaf(&["work"])];
    let r = select_step(&tags, vec![], Some(0));
    assert!(matches!(r, SelectOutcome::Chosen(ref p) if *p == vec![0]));
}

#[test]
fn picking_a_parent_descends_into_it() {
    let mut work = leaf(&["work"]);
    work.subtags = vec![leaf(&["docs"])];
    let tags = vec![work];
    let r = select_step(&tags, vec![], Some(0));
    assert!(matches!(r, SelectOutcome::Prompt(ref p) if *p == vec![0]));
    let r = select_step(&tags, vec![0], Some(0));
    assert!(matches!(r, SelectOutcome::Chosen(ref p) if *p == vec![0, 0]));
}
