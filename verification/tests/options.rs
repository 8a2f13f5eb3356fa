use opentag::options::{merge_options, MatchOptions};

fn level() -> MatchOptions {
    MatchOptions::empty()
}

#[test]
fn boolean_flags_or_across_levels() {
    // `parent --copy child --print`: copy set at the outer level, print at
    // the inner one; both are active for the final action.
    let mut outer = level();
    outer.copy = true;
    let mut inner = level();
    inner.print = true;
    let merged = merge_options(&vec![outer, inner]);
    assert!(merged.copy);
    assert!(merged.print);
    assert!(!merged.list);
    assert!(!merged.silent_copy);
    assert!(!merged.info);
}

#[test]
fn app_override_first_set_wins_outermost_first() {
    // `parent --app=foo child`: no override at the child, so the outer one
    // applies.
    let mut outer = level();
    outer.app = Some("foo".to_string());
    let inner = level();
    let merged = merge_options(&vec![outer, inner]);
    assert_eq!(merged.app, Some("foo".to_string()));
}

#[test]
fn app_override_outer_beats_inner() {
    let mut outer = level();
    outer.app = Some("foo".to_string());
    let mut inner = level();
    inner.app = Some("bar".to_string());
    let merged = merge_options(&vec![outer, inner]);
    assert_eq!(merged.app, Some("foo".to_string()));
}

#[test]
fn app_override_from_inner_when_outer_unset() {
    let outer = level();
    let mut inner = level();
    inner.app = Some("bar".to_string());
    let merged = merge_options(&vec![outer, inner]);
    assert_eq!(merged.app, Some("bar".to_string()));
}

#[test]
fn merge_of_nothing_sets_nothing() {
    let merged = merge_options(&vec![level(), level(), level()]);
    assert!(!merged.print && !merged.copy && !merged.list && !merged.silent_copy && !merged.info);
    assert_eq!(merged.app, None);
}
