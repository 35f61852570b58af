use accesskit_web::registry::{ElementRegistry, FilterResult, FocusChange};

fn registry_with(entries: &[(u64, &'static str)]) -> ElementRegistry<&'static str> {
    let mut r = ElementRegistry::new();
    for (id, e) in entries {
        r.insert(*id, *e);
    }
    r
}

#[test]
fn new_registry_is_empty() {
    let r: ElementRegistry<u32> = ElementRegistry::new();
    assert_eq!(r.len(), 0);
    assert!(!r.contains(1));
    assert_eq!(r.get(1), None);
}

#[test]
fn inserted_element_is_found() {
    let mut r = registry_with(&[(1, "root")]);
    r.insert(2, "button");
    assert_eq!(r.get(2), Some(&"button"));
    assert!(r.contains(2));
    assert_eq!(r.len(), 2);
    r.insert(2, "div");
    assert_eq!(r.get(2), Some(&"div"));
    assert_eq!(r.len(), 2);
}

#[test]
fn added_node_goes_under_its_parent() {
    let r = registry_with(&[(1, "root"), (2, "group")]);
    assert_eq!(r.node_added_parent(FilterResult::Include, 3, Some(2)), Some(&"group"));
    assert_eq!(r.node_added_parent(FilterResult::Include, 3, Some(1)), Some(&"root"));
}

#[test]
fn added_node_without_registered_parent_is_skipped() {
    let r = registry_with(&[(1, "root")]);
    assert_eq!(r.node_added_parent(FilterResult::Include, 3, Some(9)), None);
    assert_eq!(r.node_added_parent(FilterResult::Include, 3, None), None);
}

#[test]
fn excluded_node_gets_no_element() {
    let r = registry_with(&[(1, "root")]);
    assert_eq!(r.node_added_parent(FilterResult::ExcludeNode, 3, Some(1)), None);
    assert_eq!(r.node_added_parent(FilterResult::ExcludeSubtree, 3, Some(1)), None);
}

#[test]
fn no_second_element() {
    let mut r = registry_with(&[(1, "root")]);
    assert_eq!(r.node_added_parent(FilterResult::Include, 3, Some(1)), Some(&"root"));
    r.insert(3, "child");
    assert_eq!(r.node_added_parent(FilterResult::Include, 3, Some(1)), None);
}

#[test]
fn updated_node_uses_its_own_element() {
    let r = registry_with(&[(1, "root"), (4, "input")]);
    assert_eq!(r.node_updated_element(FilterResult::Include, 4), Some(&"input"));
    assert_eq!(r.node_updated_element(FilterResult::Include, 5), None);
    assert_eq!(r.node_updated_element(FilterResult::ExcludeNode, 4), None);
    assert_eq!(r.node_updated_element(FilterResult::ExcludeSubtree, 4), None);
}

fn describe(change: FocusChange<'_, &'static str>) -> String {
    match change {
        FocusChange::Focus(e) => format!("focus {}", e),
        FocusChange::Blur(e) => format!("blur {}", e),
        FocusChange::Unchanged => "unchanged".to_string(),
    }
}

#[test]
fn focus_moves_to_new_node() {
    let r = registry_with(&[(1, "a"), (2, "b")]);
    assert_eq!(describe(r.focus_moved(Some(1), Some(2))), "focus b");
    assert_eq!(describe(r.focus_moved(None, Some(1))), "focus a");
}

#[test]
fn focus_loss_blurs_old_node() {
    let r = registry_with(&[(1, "a"), (2, "b")]);
    assert_eq!(describe(r.focus_moved(Some(1), None)), "blur a");
    assert_eq!(describe(r.focus_moved(Some(7), None)), "unchanged");
    assert_eq!(describe(r.focus_moved(None, None)), "unchanged");
}

#[test]
fn focus_to_node_without_element_changes_nothing() {
    let r = registry_with(&[(1, "a")]);
    assert_eq!(describe(r.focus_moved(Some(1), Some(9))), "unchanged");
}

#[test]
fn removed_node_is_gone() {
    let mut r = registry_with(&[(1, "a"), (2, "b")]);
    assert_eq!(r.node_removed(2), Some("b"));
    assert!(!r.contains(2));
    assert_eq!(r.get(1), Some(&"a"));
    assert_eq!(r.node_removed(2), None);
    assert_eq!(r.len(), 1);
}
