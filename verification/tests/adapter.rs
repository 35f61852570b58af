use accesskit_web::adapter::{Adapter, HostFocusPlan, UpdatePlan};
use accesskit_web::registry::ElementRegistry;

#[test]
fn adapter_without_initial_tree_waits_with_host_focused() {
    let a: Adapter<&str, u32> = Adapter::new();
    assert!(!a.is_active());
    assert!(a.elements().is_none());
    assert_eq!(a.update_if_active(), UpdatePlan::BuildTree { is_host_focused: true });
}

#[test]
fn initial_tree_is_built_host_focused() {
    let mut a: Adapter<&str, u32> = Adapter::new();
    assert_eq!(a.update_if_active(), UpdatePlan::BuildTree { is_host_focused: true });
    let mut elements = ElementRegistry::new();
    elements.insert(1, 10u32);
    a.activate("tree", elements);
    assert!(a.is_active());
    assert_eq!(a.elements().unwrap().get(1), Some(&10));
    assert_eq!(a.update_if_active(), UpdatePlan::ApplyToTree);
}

#[test]
fn start_routes_agree() {
    let mut at_once: Adapter<&str, u32> = Adapter::new();
    let plan_at_once = at_once.update_if_active();
    let mut later: Adapter<&str, u32> = Adapter::new();
    later.update_host_focus_state(true);
    let plan_later = later.update_if_active();
    assert_eq!(plan_at_once, plan_later);
    at_once.activate("tree", ElementRegistry::new());
    later.activate("tree", ElementRegistry::new());
    let (t1, e1) = at_once.active_parts_mut().unwrap();
    let (t2, e2) = later.active_parts_mut().unwrap();
    assert_eq!(t1, t2);
    assert_eq!(e1.len(), e2.len());
}

#[test]
fn recorded_focus_reaches_new_tree() {
    let mut a: Adapter<&str, u32> = Adapter::new();
    assert_eq!(a.update_host_focus_state(false), HostFocusPlan::Recorded);
    assert_eq!(a.update_if_active(), UpdatePlan::BuildTree { is_host_focused: false });
}

#[test]
fn last_host_focus_wins() {
    let mut a: Adapter<&str, u32> = Adapter::new();
    a.update_host_focus_state(false);
    a.update_host_focus_state(true);
    assert_eq!(a.update_if_active(), UpdatePlan::BuildTree { is_host_focused: true });
    a.update_host_focus_state(false);
    a.update_host_focus_state(false);
    assert_eq!(a.update_if_active(), UpdatePlan::BuildTree { is_host_focused: false });
}

#[test]
fn active_adapter_stays_active() {
    let mut a: Adapter<&str, u32> = Adapter::new();
    a.activate("tree", ElementRegistry::new());
    assert!(a.is_active());
    assert_eq!(a.update_host_focus_state(false), HostFocusPlan::ApplyToTree { is_focused: false });
    assert!(a.is_active());
    assert_eq!(a.update_if_active(), UpdatePlan::ApplyToTree);
}

#[test]
fn active_parts_reach_tree_and_elements() {
    let mut a: Adapter<String, u32> = Adapter::new();
    assert!(a.active_parts_mut().is_none());
    a.activate("v1".to_string(), ElementRegistry::new());
    {
        let (tree, elements) = a.active_parts_mut().unwrap();
        assert_eq!(tree, "v1");
        tree.push_str("+update");
        elements.insert(5, 50);
    }
    let (tree, elements) = a.active_parts_mut().unwrap();
    assert_eq!(tree, "v1+update");
    assert_eq!(elements.get(5), Some(&50));
    assert_eq!(a.elements().unwrap().len(), 1);
}
