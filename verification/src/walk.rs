use crate::registry::ElementRegistry;
use vstd::prelude::*;

verus! {

/// A node of the accessibility tree waiting for its element, and the node
/// under whose element it goes (`None`: directly under the root container).
#[derive(Clone, Copy, Debug, PartialEq, Eq, Structural)]
pub struct WalkStep {
    pub node: u64,
    pub parent: Option<u64>,
}

/// Whether `node` was reported as an exposed child of `parent`.
pub open spec fn is_child_of(children: Map<u64, Set<u64>>, parent: u64, node: u64) -> bool {
    children.contains_key(parent) && children[parent].contains(node)
}

/// Whether the node created `i`-th is a reported child of a node created
/// before it.
pub open spec fn derived(order: Seq<u64>, children: Map<u64, Set<u64>>, i: int) -> bool {
    exists|j: int| 0 <= j < i && #[trigger] is_child_of(children, order[j], order[i])
}

/// The reported children after node `n` reports `new` as its exposed
/// children: a node reported twice keeps what it reported before.
pub open spec fn children_after(m: Map<u64, Set<u64>>, n: u64, new: Seq<u64>) -> Map<u64, Set<u64>> {
    m.insert(
        n,
        if m.contains_key(n) {
            m[n].union(new.to_set())
        } else {
            new.to_set()
        },
    )
}

proof fn lemma_children_grow(m: Map<u64, Set<u64>>, n: u64, new: Seq<u64>, p: u64, x: u64)
    ensures
        is_child_of(m, p, x) ==> is_child_of(children_after(m, n, new), p, x),
        new.contains(x) ==> is_child_of(children_after(m, n, new), n, x),
        is_child_of(children_after(m, n, new), p, x) ==> is_child_of(m, p, x) || (p == n
            && new.contains(x)),
{
}

/// The steps that the children of `parent` add to the queue: the last one
/// queued, which is handed out first, is the first child, so the children
/// come out in the order in which they were reported.
pub open spec fn queued_children(children: Seq<u64>, parent: u64) -> Seq<WalkStep> {
    Seq::new(
        children.len(),
        |i: int| WalkStep { node: children[children.len() - 1 - i], parent: Some(parent) },
    )
}

/// After a node's children are queued on top of `queue`, the queue holds
/// exactly one more step per reported child, the steps below are untouched,
/// and the `k`-th step handed out from the top is its `k`-th child, for each
/// of its children; so no child is queued twice or left out.
pub proof fn lemma_children_come_out_in_order(queue: Seq<WalkStep>, children: Seq<u64>, parent: u64)
    ensures
        (queue + queued_children(children, parent)).len() == queue.len() + children.len(),
        forall|i: int|
            0 <= i < queue.len() ==> #[trigger] (queue + queued_children(children, parent))[i]
                == queue[i],
        forall|k: int|
            0 <= k < children.len() ==> #[trigger] (queue + queued_children(children, parent))[(
            queue.len() + children.len() - 1 - k) as int] == (WalkStep {
                node: children[k],
                parent: Some(parent),
            }),
{
}

/// The walk that mirrors a new tree in the DOM: from the root down, depth
/// first, each exposed node gets an element under its parent's element, and
/// a node whose element could not be made is skipped with all that lies
/// below it.
pub struct InitialTreeWalk<E> {
    root: u64,
    pending: Vec<WalkStep>,
    open: Option<WalkStep>,
    elements: ElementRegistry<E>,
    order: Ghost<Seq<u64>>,
    children: Ghost<Map<u64, Set<u64>>>,
    skipped: Ghost<Set<u64>>,
}

impl<E> InitialTreeWalk<E> {
    pub closed spec fn root_spec(&self) -> u64 {
        self.root
    }

    /// The elements made so far, by node.
    pub closed spec fn elements_spec(&self) -> Map<u64, E> {
        self.elements@
    }

    /// The nodes in the order in which their elements were made.
    pub closed spec fn order(&self) -> Seq<u64> {
        self.order@
    }

    /// The exposed children reported for each node that got an element.
    pub closed spec fn reported_children(&self) -> Map<u64, Set<u64>> {
        self.children@
    }

    /// The nodes whose element could not be made.
    pub closed spec fn skipped(&self) -> Set<u64> {
        self.skipped@
    }

    /// The step handed out and not yet answered.
    pub closed spec fn open_step(&self) -> Option<WalkStep> {
        self.open
    }

    /// The steps waiting to be handed out; the last one comes next.
    pub closed spec fn queue(&self) -> Seq<WalkStep> {
        self.pending@
    }

    /// Whether every node reached has been answered.
    pub closed spec fn is_done(&self) -> bool {
        self.pending@.len() == 0 && self.open is None
    }

    pub closed spec fn step_ok(&self, s: WalkStep) -> bool {
        match s.parent {
            None => s.node == self.root,
            Some(p) => self.elements@.contains_key(p) && is_child_of(self.children@, p, s.node),
        }
    }

    pub closed spec fn is_pending(&self, x: u64) -> bool {
        exists|k: int| 0 <= k < self.pending@.len() && #[trigger] self.pending@[k].node == x
    }

    pub closed spec fn awaits(&self, x: u64) -> bool {
        self.is_pending(x) || (self.open matches Some(s) && s.node == x)
    }

    pub closed spec fn wf(&self) -> bool {
        &&& self.elements@.dom() == self.order@.to_set()
        &&& self.children@.dom() == self.order@.to_set()
        &&& (self.order@.len() > 0 ==> self.order@[0] == self.root)
        &&& forall|i: int|
            0 < i < self.order@.len() ==> self.order@[i] == self.root || #[trigger] derived(
                self.order@,
                self.children@,
                i,
            )
        &&& forall|k: int| 0 <= k < self.pending@.len() ==> self.step_ok(#[trigger] self.pending@[k])
        &&& (self.open matches Some(s) ==> self.step_ok(s))
        &&& forall|c: u64, x: u64| #[trigger] is_child_of(self.children@, c, x) ==> {
            ||| self.elements@.contains_key(x)
            ||| self.skipped@.contains(x)
            ||| self.awaits(x)
        }
        &&& forall|x: u64| #[trigger] self.skipped@.contains(x) ==> {
            ||| x == self.root
            ||| exists|c: u64| is_child_of(self.children@, c, x)
        }
        &&& {
            ||| self.elements@.contains_key(self.root)
            ||| self.skipped@.contains(self.root)
            ||| self.awaits(self.root)
        }
    }

    /// Starts the walk at the tree's root.
    pub fn new(root: u64) -> (w: Self)
        ensures
            w.wf(),
            w.root_spec() == root,
            w.elements_spec() == Map::<u64, E>::empty(),
            w.order() == Seq::<u64>::empty(),
            w.skipped() == Set::<u64>::empty(),
            w.open_step() is None,
            w.queue() == seq![WalkStep { node: root, parent: None }],
            !w.is_done(),
    {
        let mut pending = Vec::new();
        pending.push(WalkStep { node: root, parent: None });
        let w = InitialTreeWalk {
            root,
            pending,
            open: None,
            elements: ElementRegistry::new(),
            order: Ghost(Seq::empty()),
            children: Ghost(Map::empty()),
            skipped: Ghost(Set::empty()),
        };
        assert(w.pending@[0].node == root);
        assert(w.elements@.dom() =~= w.order@.to_set());
        assert(w.children@.dom() =~= w.order@.to_set());
        w
    }

    /// The next node to give an element, with the node under whose element it
    /// goes; `None` once every node reached has been answered. A step stays
    /// open, and is handed out again, until `created` or `failed` answers it.
    pub fn next(&mut self) -> (step: Option<WalkStep>)
        requires
            old(self).wf(),
        ensures
            final(self).wf(),
            final(self).root_spec() == old(self).root_spec(),
            final(self).elements_spec() == old(self).elements_spec(),
            final(self).order() == old(self).order(),
            final(self).reported_children() == old(self).reported_children(),
            final(self).skipped() == old(self).skipped(),
            step == final(self).open_step(),
            step is None == old(self).is_done(),
            old(self).open_step() is Some ==> step == old(self).open_step() && final(self).queue()
                == old(self).queue(),
            old(self).open_step() is None && old(self).queue().len() > 0 ==> step == Some(
                old(self).queue().last(),
            ) && final(self).queue() == old(self).queue().drop_last(),
            step matches Some(s) ==> match s.parent {
                Some(p) => final(self).elements_spec().contains_key(p) && is_child_of(
                    final(self).reported_children(),
                    p,
                    s.node,
                ),
                None => s.node == final(self).root_spec(),
            },
    {
        if self.open.is_some() {
            return self.open;
        }
        let ghost old_pending = self.pending@;
        let popped = self.pending.pop();
        match popped {
            Some(s) => {
                self.open = Some(s);
                proof {
                    assert(self.step_ok(old_pending[old_pending.len() - 1]));
                    assert forall|c: u64, x: u64| #[trigger]
                        is_child_of(self.children@, c, x) implies {
                        ||| self.elements@.contains_key(x)
                        ||| self.skipped@.contains(x)
                        ||| self.awaits(x)
                    } by {
                        if !self.elements@.contains_key(x) && !self.skipped@.contains(x) {
                            let k = choose|k: int|
                                0 <= k < old_pending.len() && #[trigger] old_pending[k].node == x;
                            if k < old_pending.len() - 1 {
                                assert(self.pending@[k].node == x);
                            }
                        }
                    }
                    assert forall|k: int| 0 <= k < self.pending@.len() implies self.step_ok(
                        #[trigger] self.pending@[k],
                    ) by {
                        assert(self.pending@[k] == old_pending[k]);
                    }
                    if !self.elements@.contains_key(self.root) && !self.skipped@.contains(self.root) {
                        let k = choose|k: int|
                            0 <= k < old_pending.len() && #[trigger] old_pending[k].node == self.root;
                        if k < old_pending.len() - 1 {
                            assert(self.pending@[k].node == self.root);
                        }
                    }
                }
                Some(s)
            },
            None => None,
        }
    }

    /// Answers the open step: its node got `element`, and these are its
    /// exposed children, which are visited next, in order, below it. With no
    /// open step, nothing changes.
    pub fn created(&mut self, element: E, children: Vec<u64>)
        requires
            old(self).wf(),
        ensures
            final(self).wf(),
            final(self).root_spec() == old(self).root_spec(),
            final(self).skipped() == old(self).skipped(),
            final(self).open_step() is None,
            match old(self).open_step() {
                Some(s) => {
                    &&& final(self).elements_spec() == old(self).elements_spec().insert(s.node, element)
                    &&& final(self).order() == old(self).order().push(s.node)
                    &&& final(self).reported_children() == children_after(
                        old(self).reported_children(),
                        s.node,
                        children@,
                    )
                    &&& final(self).queue() == old(self).queue() + queued_children(children@, s.node)
                    &&& final(self).queue().len() == old(self).queue().len() + children@.len()
                    &&& forall|k: int|
                        0 <= k < children@.len() ==> #[trigger] final(self).queue()[final(self).queue().len() - 1 - k]
                            == (WalkStep { node: children@[k], parent: Some(s.node) })
                },
                None => {
                    &&& final(self).queue() == old(self).queue()
                    &&& final(self).elements_spec() == old(self).elements_spec()
                    &&& final(self).order() == old(self).order()
                    &&& final(self).reported_children() == old(self).reported_children()
                },
            },
    {
        match self.open {
            None => {},
            Some(s) => {
                let n = s.node;
                let ghost old_order = self.order@;
                let ghost old_children = self.children@;
                let ghost old_elements = self.elements@;
                let ghost old_pending = self.pending@;
                let ghost new_children = children_after(old_children, n, children@);
                self.elements.insert(n, element);
                self.order = Ghost(old_order.push(n));
                self.children = Ghost(new_children);
                self.open = None;
                proof {
                    assert(old(self).step_ok(s));
                    assert(self.elements@.dom() =~= self.order@.to_set()) by {
                        assert forall|x: u64| self.order@.to_set().contains(x) <==> (
                        old_order.to_set().contains(x) || x == n) by {
                            if self.order@.to_set().contains(x) {
                                let i = choose|i: int| 0 <= i < self.order@.len() && self.order@[i] == x;
                                if i < old_order.len() {
                                    assert(old_order[i] == x);
                                }
                            }
                            if old_order.to_set().contains(x) {
                                let i = choose|i: int| 0 <= i < old_order.len() && old_order[i] == x;
                                assert(self.order@[i] == x);
                            }
                            if x == n {
                                assert(self.order@[old_order.len() as int] == x);
                            }
                        }
                    }
                    assert(self.children@.dom() =~= self.order@.to_set());
                    if old_order.len() == 0 {
                        match s.parent {
                            Some(p) => {
                                assert(old_elements.contains_key(p));
                                assert(old_order.to_set().contains(p));
                                assert(false);
                            },
                            None => {},
                        }
                    }
                    assert forall|i: int|
                        0 < i < self.order@.len() implies self.order@[i] == self.root
                        || #[trigger] derived(self.order@, self.children@, i) by {
                        if i < old_order.len() {
                            assert(self.order@[i] == old_order[i]);
                            if old_order[i] != self.root {
                                assert(derived(old_order, old_children, i));
                                let j = choose|j: int|
                                    0 <= j < i && #[trigger] is_child_of(
                                        old_children,
                                        old_order[j],
                                        old_order[i],
                                    );
                                lemma_children_grow(old_children, n, children@, old_order[j], old_order[i]);
                                assert(self.order@[j] == old_order[j]);
                                assert(is_child_of(self.children@, self.order@[j], self.order@[i]));
                            }
                        } else {
                            match s.parent {
                                Some(p) => {
                                    assert(old_order.to_set().contains(p));
                                    let j = choose|j: int| 0 <= j < old_order.len() && old_order[j] == p;
                                    lemma_children_grow(old_children, n, children@, p, n);
                                    assert(self.order@[j] == p);
                                    assert(is_child_of(self.children@, self.order@[j], self.order@[i]));
                                },
                                None => {},
                            }
                        }
                    }
                    assert forall|k: int| 0 <= k < self.pending@.len() implies self.step_ok(
                        #[trigger] self.pending@[k],
                    ) by {
                        assert(old(self).step_ok(old_pending[k]));
                        match old_pending[k].parent {
                            Some(p) => lemma_children_grow(old_children, n, children@, p, old_pending[k].node),
                            None => {},
                        }
                    }
                    assert forall|x: u64| #[trigger] self.skipped@.contains(x) implies {
                        ||| x == self.root
                        ||| exists|c: u64| is_child_of(self.children@, c, x)
                    } by {
                        assert(old(self).skipped@.contains(x));
                        if x != self.root {
                            let c = choose|c: u64| is_child_of(old_children, c, x);
                            lemma_children_grow(old_children, n, children@, c, x);
                        }
                    }
                    if !self.elements@.contains_key(self.root) && !self.skipped@.contains(self.root) {
                        assert(old(self).is_pending(self.root));
                        let k = choose|k: int|
                            0 <= k < old_pending.len() && #[trigger] old_pending[k].node == self.root;
                        assert(self.pending@[k].node == self.root);
                    }
                    assert(queued_children(children@, n).take(0) =~= Seq::<WalkStep>::empty());
                    assert(self.pending@ =~= old_pending + queued_children(children@, n).take(0));
                    assert forall|c: u64, x: u64| #[trigger]
                        is_child_of(self.children@, c, x) implies {
                        ||| self.elements@.contains_key(x)
                        ||| self.skipped@.contains(x)
                        ||| self.is_pending(x)
                        ||| children@.take(children.len() as int).contains(x)
                    } by {
                        lemma_children_grow(old_children, n, children@, c, x);
                        if is_child_of(old_children, c, x) {
                            assert(old(self).elements@.contains_key(x) || old(self).skipped@.contains(x)
                                || old(self).awaits(x));
                            if old(self).is_pending(x) {
                                let k = choose|k: int| 0 <= k < old_pending.len() && #[trigger] old_pending[k].node == x;
                                assert(self.pending@[k].node == x);
                            }
                        } else {
                            assert(children@.take(children.len() as int) =~= children@);
                        }
                    }
                }
                let mut idx = children.len();
                while idx > 0
                    invariant
                        0 <= idx <= children.len(),
                        self.root == old(self).root,
                        self.open is None,
                        self.skipped@ == old(self).skipped@,
                        self.elements@ == old_elements.insert(n, element),
                        self.order@ == old_order.push(n),
                        self.children@ == new_children,
                        new_children == children_after(old_children, n, children@),
                        self.elements@.dom() == self.order@.to_set(),
                        self.children@.dom() == self.order@.to_set(),
                        (self.order@.len() > 0 ==> self.order@[0] == self.root),
                        forall|i: int|
                            0 < i < self.order@.len() ==> self.order@[i] == self.root || #[trigger] derived(
                                self.order@,
                                self.children@,
                                i,
                            ),
                        forall|k: int| 0 <= k < self.pending@.len() ==> self.step_ok(#[trigger] self.pending@[k]),
                        forall|x: u64| #[trigger] self.skipped@.contains(x) ==> {
                            ||| x == self.root
                            ||| exists|c: u64| is_child_of(self.children@, c, x)
                        },
                        forall|c: u64, x: u64| #[trigger] is_child_of(self.children@, c, x) ==> {
                            ||| self.elements@.contains_key(x)
                            ||| self.skipped@.contains(x)
                            ||| self.is_pending(x)
                            ||| children@.take(idx as int).contains(x)
                        },
                        self.elements@.contains_key(self.root) || self.skipped@.contains(self.root)
                            || self.is_pending(self.root),
                        self.pending@ == old_pending + queued_children(children@, n).take(
                            children.len() - idx,
                        ),
                    decreases idx,
                {
                    idx = idx - 1;
                    let ghost before = self.pending@;
                    let node = children[idx];
                    self.pending.push(WalkStep { node, parent: Some(n) });
                    proof {
                        assert(self.pending@ =~= old_pending + queued_children(children@, n).take(
                            children.len() - idx,
                        ));
                        if !self.elements@.contains_key(self.root) && !self.skipped@.contains(
                            self.root,
                        ) {
                            let k = choose|k: int|
                                0 <= k < before.len() && #[trigger] before[k].node == self.root;
                            assert(self.pending@[k].node == self.root);
                        }
                        lemma_children_grow(old_children, n, children@, n, node);
                        assert(children@.contains(node)) by {
                            assert(children@[idx as int] == node);
                        }
                        assert forall|k: int| 0 <= k < self.pending@.len() implies self.step_ok(
                            #[trigger] self.pending@[k],
                        ) by {
                            if k < before.len() {
                                assert(self.pending@[k] == before[k]);
                            }
                        }
                        assert forall|c: u64, x: u64| #[trigger]
                            is_child_of(self.children@, c, x) implies {
                            ||| self.elements@.contains_key(x)
                            ||| self.skipped@.contains(x)
                            ||| self.is_pending(x)
                            ||| children@.take(idx as int).contains(x)
                        } by {
                            if x == node {
                                assert(self.pending@[before.len() as int].node == x);
                            } else if exists|k: int| 0 <= k < before.len() && #[trigger] before[k].node == x {
                                let k = choose|k: int| 0 <= k < before.len() && #[trigger] before[k].node == x;
                                assert(self.pending@[k].node == x);
                            } else if children@.take(idx + 1).contains(x) {
                                let s1 = children@.take(idx + 1);
                                let j = choose|j: int| 0 <= j < s1.len() && #[trigger] s1[j] == x;
                                if j < idx {
                                    assert(children@.take(idx as int)[j] == x);
                                } else {
                                    assert(s1[j] == node);
                                }
                            }
                        }
                    }
                }
                proof {
                    assert forall|c: u64, x: u64| #[trigger]
                        is_child_of(self.children@, c, x) implies {
                        ||| self.elements@.contains_key(x)
                        ||| self.skipped@.contains(x)
                        ||| self.awaits(x)
                    } by {
                        assert(children@.take(0) =~= Seq::<u64>::empty());
                    }
                    assert(queued_children(children@, n).take(children.len() as int)
                        =~= queued_children(children@, n));
                }
            },
        }
    }

    /// Answers the open step: its node's element could not be made, so the
    /// node and everything below it get none.
    pub fn failed(&mut self)
        requires
            old(self).wf(),
        ensures
            final(self).wf(),
            final(self).root_spec() == old(self).root_spec(),
            final(self).elements_spec() == old(self).elements_spec(),
            final(self).order() == old(self).order(),
            final(self).reported_children() == old(self).reported_children(),
            final(self).skipped() == (match old(self).open_step() {
                Some(s) => old(self).skipped().insert(s.node),
                None => old(self).skipped(),
            }),
            final(self).open_step() is None,
            final(self).queue() == old(self).queue(),
    {
        match self.open {
            Some(s) => {
                self.skipped = Ghost(self.skipped@.insert(s.node));
                self.open = None;
                proof {
                    assert forall|c: u64, x: u64| #[trigger]
                        is_child_of(self.children@, c, x) implies {
                        ||| self.elements@.contains_key(x)
                        ||| self.skipped@.contains(x)
                        ||| self.awaits(x)
                    } by {}
                    assert forall|x: u64| #[trigger] self.skipped@.contains(x) implies {
                        ||| x == self.root
                        ||| exists|c: u64| is_child_of(self.children@, c, x)
                    } by {
                        if x == s.node {
                            assert(old(self).step_ok(s));
                            match s.parent {
                                Some(p) => {
                                    assert(is_child_of(self.children@, p, x));
                                    assert(exists|c: u64| is_child_of(self.children@, c, x));
                                },
                                None => {
                                    assert(x == self.root);
                                },
                            }
                        } else {
                            assert(old(self).skipped@.contains(x));
                            assert(self.children@ == old(self).children@);
                            assert(x == self.root || exists|c: u64| is_child_of(self.children@, c, x));
                        }
                    }
                }
            },
            None => {},
        }
    }

    /// Ends the walk, handing over the elements made.
    pub fn finish(self) -> (r: ElementRegistry<E>)
        ensures
            r@ == self.elements_spec(),
    {
        self.elements
    }

    /// Once the walk is done, its elements mirror the tree as far as it could
    /// be built: the root has an element or failed; the first element is the
    /// root's; every other one belongs to
    /// the root or to a reported child of a node whose element was made
    /// earlier, so every element's node is reachable from the root; every
    /// reported child of a node with an element has one too, unless its own
    /// element failed; a failed node is the root or a reported child, and
    /// reports no children of its own unless it also got an element, so
    /// nothing below it is visited.
    pub proof fn lemma_finished_walk_mirrors_tree(&self)
        requires
            self.wf(),
            self.is_done(),
        ensures
            self.elements_spec().dom() == self.order().to_set(),
            self.reported_children().dom() == self.order().to_set(),
            self.order().len() > 0 ==> self.order()[0] == self.root_spec(),
            forall|i: int|
                0 < i < self.order().len() ==> self.order()[i] == self.root_spec() || #[trigger] derived(
                    self.order(),
                    self.reported_children(),
                    i,
                ),
            forall|c: u64, x: u64| #[trigger]
                is_child_of(self.reported_children(), c, x) ==> self.elements_spec().contains_key(x)
                    || self.skipped().contains(x),
            forall|x: u64| #[trigger]
                self.skipped().contains(x) ==> x == self.root_spec() || exists|c: u64|
                    is_child_of(self.reported_children(), c, x),
            forall|x: u64| #[trigger]
                self.skipped().contains(x) && !self.elements_spec().contains_key(x)
                    ==> !self.reported_children().contains_key(x),
            self.elements_spec().contains_key(self.root_spec()) || self.skipped().contains(
                self.root_spec(),
            ),
    {
        assert forall|x: u64| #[trigger]
            self.skipped().contains(x) implies x == self.root_spec() || exists|c: u64|
                is_child_of(self.reported_children(), c, x) by {
            assert(self.skipped@.contains(x));
            assert(x == self.root || exists|c: u64| is_child_of(self.children@, c, x));
            if x != self.root {
                let c = choose|c: u64| is_child_of(self.children@, c, x);
                assert(is_child_of(self.reported_children(), c, x));
            }
        }
        if self.is_pending(self.root) {
            let k = choose|k: int| 0 <= k < self.pending@.len() && #[trigger] self.pending@[k].node == self.root;
        }
        assert forall|c: u64, x: u64| #[trigger]
            is_child_of(self.reported_children(), c, x) implies self.elements_spec().contains_key(x)
            || self.skipped().contains(x) by {
            if self.is_pending(x) {
                let k = choose|k: int| 0 <= k < self.pending@.len() && #[trigger] self.pending@[k].node == x;
            }
        }
    }

    /// The elements made so far, for finding a parent's element.
    pub fn elements(&self) -> (r: &ElementRegistry<E>)
        ensures
            r@ == self.elements_spec(),
    {
        &self.elements
    }
}

} // verus!
