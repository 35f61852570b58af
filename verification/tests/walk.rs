use accesskit_web::walk::{InitialTreeWalk, WalkStep};
use std::collections::HashMap;

/// Runs a walk over a tree given as children lists, failing the nodes in
/// `failing`; returns the order in which elements were made.
fn run(root: u64, children: &HashMap<u64, Vec<u64>>, failing: &[u64]) -> (Vec<WalkStep>, Vec<u64>) {
    let mut walk: InitialTreeWalk<u64> = InitialTreeWalk::new(root);
    let mut steps = Vec::new();
    let mut made = Vec::new();
    while let Some(step) = walk.next() {
        steps.push(step);
        if let Some(parent) = step.parent {
            assert!(walk.elements().contains(parent));
        }
        if failing.contains(&step.node) {
            walk.failed();
        } else {
            made.push(step.node);
            walk.created(step.node * 10, children.get(&step.node).cloned().unwrap_or_default());
        }
    }
    let elements = walk.finish();
    assert_eq!(elements.len(), made.len());
    for n in &made {
        assert_eq!(elements.get(*n), Some(&(n * 10)));
    }
    (steps, made)
}

fn sample() -> HashMap<u64, Vec<u64>> {
    let mut t = HashMap::new();
    t.insert(1, vec![2, 3]);
    t.insert(2, vec![4, 5]);
    t.insert(3, vec![6]);
    t
}

#[test]
fn walk_visits_depth_first_in_order() {
    let (steps, made) = run(1, &sample(), &[]);
    assert_eq!(made, vec![1, 2, 4, 5, 3, 6]);
    assert_eq!(steps[0], WalkStep { node: 1, parent: None });
    assert_eq!(steps[1], WalkStep { node: 2, parent: Some(1) });
    assert_eq!(steps[2], WalkStep { node: 4, parent: Some(2) });
    assert_eq!(steps[4], WalkStep { node: 3, parent: Some(1) });
    assert_eq!(steps[5], WalkStep { node: 6, parent: Some(3) });
}

#[test]
fn failed_node_skips_its_subtree() {
    let (steps, made) = run(1, &sample(), &[2]);
    assert_eq!(made, vec![1, 3, 6]);
    assert!(steps.iter().all(|s| s.node != 4 && s.node != 5));
}

#[test]
fn failed_root_makes_nothing() {
    let (steps, made) = run(1, &sample(), &[1]);
    assert!(made.is_empty());
    assert_eq!(steps.len(), 1);
}

#[test]
fn open_step_is_handed_out_again() {
    let mut walk: InitialTreeWalk<u8> = InitialTreeWalk::new(7);
    assert_eq!(walk.next(), Some(WalkStep { node: 7, parent: None }));
    assert_eq!(walk.next(), Some(WalkStep { node: 7, parent: None }));
    walk.created(1, vec![]);
    assert_eq!(walk.next(), None);
    walk.created(2, vec![9]);
    assert_eq!(walk.next(), None);
    assert_eq!(walk.finish().len(), 1);
}

#[test]
fn children_come_out_in_reported_order() {
    let mut walk: InitialTreeWalk<u8> = InitialTreeWalk::new(1);
    assert_eq!(walk.next(), Some(WalkStep { node: 1, parent: None }));
    walk.created(0, vec![5, 3, 9]);
    let mut seen = Vec::new();
    while let Some(step) = walk.next() {
        assert_eq!(step.parent, Some(1));
        seen.push(step.node);
        walk.created(0, vec![]);
    }
    assert_eq!(seen, vec![5, 3, 9]);
}
