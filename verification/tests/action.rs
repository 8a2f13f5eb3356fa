use opentag::action::plan_action;
use opentag::error::Error;
use opentag::options::MatchOptions;
use opentag::tag::Tag;

fn tag_with_path(path: Option<&str>) -> Tag {
    Tag::new(
        vec!["docs".to_string()],
        path.map(|s| s.to_string()),
        None,
        None,
    )
}

fn flags() -> MatchOptions {
    MatchOptions::empty()
}

#[test]
fn print_flag_prints_the_path_and_opens_nothing() {
    // The scenario: `work docs --print` on a tag with path `/d` prints
    // exactly `/d`.
    let t = tag_with_path(Some("/d"));
    let mut o = flags();
    o.print = true;
    let p = plan_action(&t, o).unwrap();
    assert_eq!(p.print_path, Some("/d".to_string()));
    assert_eq!(p.open_path, None);
    assert_eq!(p.copy_text, None);
    assert!(!p.list && !p.show_info);
}

#[test]
fn default_action_opens_the_path_unchanged() {
    let t = tag_with_path(Some("/some/file"));
    let p = plan_action(&t, flags()).unwrap();
    assert_eq!(p.open_path, Some("/some/file".to_string()));
    assert_eq!(p.open_app, None);
    assert_eq!(p.print_path, None);
}

#[test]
fn copy_also_opens_silent_copy_does_not() {
    let t = tag_with_path(Some("/d"));
    let mut o = flags();
    o.copy = true;
    let p = plan_action(&t, o).unwrap();
    assert_eq!(p.copy_text, Some("/d".to_string()));
    assert_eq!(p.open_path, Some("/d".to_string()));

    let mut o = flags();
    o.silent_copy = true;
    let p = plan_action(&t, o).unwrap();
    assert_eq!(p.copy_text, Some("/d".to_string()));
    assert_eq!(p.open_path, None);
}

#[test]
fn copy_and_print_both_active() {
    let t = tag_with_path(Some("/d"));
    let mut o = flags();
    o.copy = true;
    o.print = true;
    let p = plan_action(&t, o).unwrap();
    assert_eq!(p.copy_text, Some("/d".to_string()));
    assert_eq!(p.print_path, Some("/d".to_string()));
    assert_eq!(p.open_path, None);
}

#[test]
fn action_on_grouping_node_is_an_error() {
    let t = tag_with_path(None);
    let r = plan_action(&t, flags());
    assert!(matches!(r, Err(Error::TagWithNoPath)));
}

#[test]
fn list_asks_for_nothing_else() {
    let t = tag_with_path(None);
    let mut o = flags();
    o.list = true;
    let p = plan_action(&t, o).unwrap();
    assert!(p.list);
    assert!(p.copy_text.is_none() && p.print_path.is_none() && p.open_path.is_none());
}

#[test]
fn info_alone_suppresses_the_open() {
    let t = tag_with_path(Some("/d"));
    let mut o = flags();
    o.info = true;
    let p = plan_action(&t, o).unwrap();
    assert!(p.show_info);
    assert!(p.open_path.is_none() && p.copy_text.is_none());
}

#[test]
fn info_with_copy_still_copies() {
    let t = tag_with_path(Some("/d"));
    let mut o = flags();
    o.info = true;
    o.copy = true;
    let p = plan_action(&t, o).unwrap();
    assert!(p.show_info);
    assert_eq!(p.copy_text, Some("/d".to_string()));
    assert_eq!(p.open_path, None);
}

#[test]
fn invocation_app_overrides_tag_app() {
    let mut t = tag_with_path(Some("/d"));
    t.app = Some("viewer".to_string());
    let p = plan_action(&t, flags()).unwrap();
    assert_eq!(p.open_app, Some("viewer".to_string()));

    let mut o = flags();
    o.app = Some("editor".to_string());
    let p = plan_action(&t, o).unwrap();
    assert_eq!(p.open_app, Some("editor".to_string()));
}

#[test]
fn tilde_path_is_expanded_or_left_for_the_shell() {
    let t = tag_with_path(Some("~/notes.txt"));
    let p = plan_action(&t, flags()).unwrap();
    let opened = p.open_path.unwrap();
    // Whatever the environment, the expansion keeps the suffix after `~`.
    assert!(opened.ends_with("/notes.txt"));
}
