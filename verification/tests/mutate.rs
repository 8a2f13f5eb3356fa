use opentag::error::Error;
use opentag::mutate::{
    add_at, add_tag_inline, check_if_names_are_used, replace_names, tombstone_at, update_tag,
    AliasEdit, FieldEdit, TagUpdate,
};
use opentag::tag::Tag;

fn leaf(names: &[&str]) -> Tag {
    Tag::new(
        names.iter().map(|s| s.to_string()).collect(),
        None,
        None,
        None,
    )
}

fn node(names: &[&str], subtags: Vec<Tag>) -> Tag {
    let mut t = leaf(names);
    t.subtags = subtags;
    t
}

fn keep_all() -> TagUpdate {
    TagUpdate {
        name: None,
        aliases: AliasEdit::Keep,
        path: FieldEdit::Keep,
        about: FieldEdit::Keep,
        app: FieldEdit::Keep,
    }
}

#[test]
fn add_appends_new_tag() {
    let mut tags = vec![leaf(&["work"])];
    assert!(add_tag_inline(leaf(&["home"]), &mut tags).is_ok());
    assert_eq!(tags.len(), 2);
    assert_eq!(tags[1].names, vec!["home".to_string()]);
}

#[test]
fn add_with_colliding_name_fails_and_changes_nothing() {
    let mut tags = vec![leaf(&["work", "w"])];
    let r = add_tag_inline(leaf(&["other", "w"]), &mut tags);
    assert!(matches!(r, Err(Error::NameInUse(ref n)) if n == "w"));
    assert_eq!(tags.len(), 1);
    assert_eq!(tags[0].names, vec!["work".to_string(), "w".to_string()]);
}

#[test]
fn add_collision_ignores_tombstones() {
    let mut dead = leaf(&["work"]);
    dead.names.clear();
    let mut tags = vec![dead];
    assert!(add_tag_inline(leaf(&["work"]), &mut tags).is_ok());
    assert_eq!(tags.len(), 2);
}

#[test]
fn check_if_names_are_used_finds_first() {
    let tags = vec![leaf(&["a"]), leaf(&["b"])];
    let names = vec!["x".to_string(), "b".to_string(), "a".to_string()];
    let r = check_if_names_are_used(&names, &tags);
    assert_eq!(r, Some("b".to_string()));
}

#[test]
fn check_if_names_are_used_none_when_free() {
    let tags = vec![leaf(&["a"])];
    let names = vec!["x".to_string()];
    assert!(check_if_names_are_used(&names, &tags).is_none());
}

#[test]
fn add_at_root_and_nested() {
    let mut tags = vec![node(&["work"], vec![leaf(&["docs"])])];
    assert!(add_at(&mut tags, &vec![], leaf(&["home"])).is_ok());
    assert_eq!(tags.len(), 2);
    assert!(add_at(&mut tags, &vec![0], leaf(&["mail"])).is_ok());
    assert_eq!(tags[0].subtags.len(), 2);
    assert_eq!(tags[0].subtags[1].names, vec!["mail".to_string()]);
}

#[test]
fn add_at_nested_collision_leaves_tree_alone() {
    let mut tags = vec![node(&["work"], vec![leaf(&["docs"])])];
    let r = add_at(&mut tags, &vec![0], leaf(&["docs"]));
    assert!(matches!(r, Err(Error::NameInUse(ref n)) if n == "docs"));
    assert_eq!(tags[0].subtags.len(), 1);
}

#[test]
fn tombstone_clears_names_and_keeps_everything_else() {
    let mut tags = vec![node(&["work"], vec![leaf(&["docs"]), leaf(&["mail"])])];
    tombstone_at(&mut tags, &vec![0, 0], 0);
    assert!(tags[0].subtags[0].names.is_empty());
    // Sibling indices are untouched.
    assert_eq!(tags[0].subtags.len(), 2);
    assert_eq!(tags[0].subtags[1].names, vec!["mail".to_string()]);
    assert_eq!(tags[0].names, vec!["work".to_string()]);
}

#[test]
fn update_sets_path_when_given() {
    let mut t = leaf(&["work"]);
    let mut upd = keep_all();
    upd.path = FieldEdit::Put("/tmp/x".to_string());
    update_tag(&mut t, upd);
    assert_eq!(t.path, Some("/tmp/x".to_string()));
}

#[test]
fn update_clears_path_when_given_empty_but_keeps_it_when_omitted() {
    let mut t = leaf(&["work"]);
    t.path = Some("/tmp/x".to_string());

    update_tag(&mut t, keep_all());
    assert_eq!(t.path, Some("/tmp/x".to_string()));

    let mut upd = keep_all();
    upd.path = FieldEdit::Clear;
    update_tag(&mut t, upd);
    assert_eq!(t.path, None);
}

#[test]
fn update_clear_and_keep_for_about() {
    let mut t = leaf(&["work"]);
    t.about = Some("notes".to_string());
    update_tag(&mut t, keep_all());
    assert_eq!(t.about, Some("notes".to_string()));
    let mut upd = keep_all();
    upd.about = FieldEdit::Clear;
    update_tag(&mut t, upd);
    assert_eq!(t.about, None);
}

#[test]
fn update_clear_and_keep_for_app() {
    let mut t = leaf(&["work"]);
    t.app = Some("editor".to_string());
    update_tag(&mut t, keep_all());
    assert_eq!(t.app, Some("editor".to_string()));
    let mut upd = keep_all();
    upd.app = FieldEdit::Clear;
    update_tag(&mut t, upd);
    assert_eq!(t.app, None);
}

#[test]
fn update_replaces_primary_name_only() {
    let mut t = leaf(&["work", "w"]);
    let mut upd = keep_all();
    upd.name = Some("job".to_string());
    update_tag(&mut t, upd);
    assert_eq!(t.names, vec!["job".to_string(), "w".to_string()]);
}

#[test]
fn update_replaces_aliases_wholesale() {
    let mut t = leaf(&["work", "w", "wk"]);
    let mut upd = keep_all();
    upd.aliases = AliasEdit::Put(vec!["j".to_string()]);
    update_tag(&mut t, upd);
    assert_eq!(t.names, vec!["work".to_string(), "j".to_string()]);
}

#[test]
fn update_empty_alias_list_truncates_to_primary() {
    let mut t = leaf(&["work", "w", "wk"]);
    let mut upd = keep_all();
    upd.aliases = AliasEdit::Clear;
    update_tag(&mut t, upd);
    assert_eq!(t.names, vec!["work".to_string()]);
}

#[test]
fn update_omitted_aliases_stay() {
    let mut t = leaf(&["work", "w"]);
    update_tag(&mut t, keep_all());
    assert_eq!(t.names, vec!["work".to_string(), "w".to_string()]);
}

#[test]
fn replace_names_swaps_whole_list() {
    let mut t = leaf(&["work", "w"]);
    t.path = Some("/x".to_string());
    replace_names(&mut t, vec!["job".to_string(), "j".to_string()]);
    assert_eq!(t.names, vec!["job".to_string(), "j".to_string()]);
    assert_eq!(t.path, Some("/x".to_string()));
}
