use std::collections::HashMap;
use vstd::prelude::*;

verus! {

broadcast use vstd::std_specs::hash::group_hash_axioms;

/// Whether a node of the accessibility tree is exposed, mirroring the
/// filter result that the tree consumer reports for it.
#[derive(Clone, Copy, Debug, PartialEq, Eq, Structural)]
pub enum FilterResult {
    Include,
    ExcludeNode,
    ExcludeSubtree,
}

/// What a focus change asks of the DOM, by node id.
#[derive(Clone, Copy, Debug, PartialEq, Eq, Structural)]
pub enum FocusTarget {
    /// Give focus to the element of this node.
    Focus(u64),
    /// Take focus away from the element of this node.
    Blur(u64),
    /// Leave the DOM focus as it is.
    Unchanged,
}

/// What a focus change asks of the DOM, with the element it applies to.
pub enum FocusChange<'a, E> {
    Focus(&'a E),
    Blur(&'a E),
    Unchanged,
}

/// The elements that mirror the accessibility tree, keyed by node id.
pub struct ElementRegistry<E> {
    elements: HashMap<u64, E>,
}

impl<E> View for ElementRegistry<E> {
    type V = Map<u64, E>;

    closed spec fn view(&self) -> Map<u64, E> {
        self.elements@
    }
}

/// The element registered for `id` in `m`, if any.
pub open spec fn lookup<E>(m: Map<u64, E>, id: u64) -> Option<E> {
    if m.contains_key(id) {
        Some(m[id])
    } else {
        None
    }
}

/// Where a node that the tree reports as added gets its element: under the
/// element of its nearest exposed ancestor, and only if the node itself is
/// exposed, has no element yet, and that ancestor has one.
pub open spec fn added_node_parent<E>(
    m: Map<u64, E>,
    filter: FilterResult,
    id: u64,
    filtered_parent: Option<u64>,
) -> Option<u64> {
    if filter == FilterResult::Include && !m.contains_key(id) {
        match filtered_parent {
            Some(p) => if m.contains_key(p) {
                Some(p)
            } else {
                None
            },
            None => None,
        }
    } else {
        None
    }
}

/// Which element a focus change applies to: the newly focused node's element
/// if there is a newly focused node, else the element of the node that lost
/// focus.
pub open spec fn focus_target<E>(m: Map<u64, E>, old_focus: Option<u64>, new_focus: Option<u64>) -> FocusTarget {
    match new_focus {
        Some(n) => if m.contains_key(n) {
            FocusTarget::Focus(n)
        } else {
            FocusTarget::Unchanged
        },
        None => match old_focus {
            Some(o) => if m.contains_key(o) {
                FocusTarget::Blur(o)
            } else {
                FocusTarget::Unchanged
            },
            None => FocusTarget::Unchanged,
        },
    }
}

/// Whether `change` carries the elements that `target` names in `m`.
pub open spec fn change_matches<E>(m: Map<u64, E>, change: FocusChange<'_, E>, target: FocusTarget) -> bool {
    match (change, target) {
        (FocusChange::Focus(e), FocusTarget::Focus(id)) => *e == m[id],
        (FocusChange::Blur(e), FocusTarget::Blur(id)) => *e == m[id],
        (FocusChange::Unchanged, FocusTarget::Unchanged) => true,
        _ => false,
    }
}

/// The element recorded for a node is the one found for it afterwards.
pub proof fn lemma_inserted_element_is_found<E>(m: Map<u64, E>, id: u64, element: E)
    ensures
        lookup(m.insert(id, element), id) == Some(element),
{
}

/// A removed node has no element any more, so removing it again hands
/// nothing back; the other nodes keep theirs.
pub proof fn lemma_removed_node_is_gone<E>(m: Map<u64, E>, id: u64, other: u64)
    ensures
        lookup(m.remove(id), id) is None,
        other != id ==> lookup(m.remove(id), other) == lookup(m, other),
{
}

/// A node never gets a second element: once its element is recorded, a
/// repeated report of its addition places nothing.
pub proof fn lemma_no_second_element<E>(
    m: Map<u64, E>,
    id: u64,
    element: E,
    filter: FilterResult,
    filtered_parent: Option<u64>,
)
    ensures
        added_node_parent(m.insert(id, element), filter, id, filtered_parent) is None,
{
}

/// Only an exposed node whose nearest exposed ancestor has an element gets
/// one, and it goes under that ancestor's element.
pub proof fn lemma_added_node_goes_under_its_parent<E>(
    m: Map<u64, E>,
    filter: FilterResult,
    id: u64,
    filtered_parent: Option<u64>,
)
    ensures
        added_node_parent(m, filter, id, filtered_parent) is Some ==> {
            &&& filter == FilterResult::Include
            &&& !m.contains_key(id)
            &&& filtered_parent == added_node_parent(m, filter, id, filtered_parent)
            &&& m.contains_key(filtered_parent->0)
        },
{
}

/// A newly focused node that has an element takes the DOM focus, whatever
/// node lost it; the node that lost focus is blurred only when no node gained
/// it.
pub proof fn lemma_focus_before_blur<E>(m: Map<u64, E>, old_focus: Option<u64>, new_focus: Option<u64>)
    ensures
        forall|n: u64|
            new_focus == Some(n) && m.contains_key(n) ==> focus_target(m, old_focus, new_focus)
                == FocusTarget::Focus(n),
        focus_target(m, old_focus, new_focus) is Blur ==> new_focus is None,
        forall|n: u64|
            new_focus == Some(n) && !m.contains_key(n) ==> focus_target(m, old_focus, new_focus)
                == FocusTarget::Unchanged,
        forall|o: u64|
            new_focus is None && old_focus == Some(o) && m.contains_key(o) ==> focus_target(
                m,
                old_focus,
                new_focus,
            ) == FocusTarget::Blur(o),
        forall|o: u64|
            new_focus is None && old_focus == Some(o) && !m.contains_key(o) ==> focus_target(
                m,
                old_focus,
                new_focus,
            ) == FocusTarget::Unchanged,
        new_focus is None && old_focus is None ==> focus_target(m, old_focus, new_focus)
            == FocusTarget::Unchanged,
{
}

/// An exposed node with no element yet, whose nearest exposed ancestor has an
/// element, is always placed under that element; a node that is not exposed,
/// already has an element, has no exposed ancestor, or whose ancestor has no
/// element, is never placed.
pub proof fn lemma_added_node_is_placed<E>(
    m: Map<u64, E>,
    filter: FilterResult,
    id: u64,
    filtered_parent: Option<u64>,
)
    ensures
        forall|p: u64|
            filter == FilterResult::Include && !m.contains_key(id) && filtered_parent == Some(p)
                && m.contains_key(p) ==> added_node_parent(m, filter, id, filtered_parent) == Some(p),
        filter != FilterResult::Include ==> added_node_parent(m, filter, id, filtered_parent) is None,
        m.contains_key(id) ==> added_node_parent(m, filter, id, filtered_parent) is None,
        filtered_parent is None ==> added_node_parent(m, filter, id, filtered_parent) is None,
        forall|p: u64|
            filtered_parent == Some(p) && !m.contains_key(p) ==> added_node_parent(
                m,
                filter,
                id,
                filtered_parent,
            ) is None,
{
}

/// The registry after `insert` was called for each of `adds` in turn.
pub open spec fn insert_all<E>(m: Map<u64, E>, adds: Seq<(u64, E)>) -> Map<u64, E>
    decreases adds.len(),
{
    if adds.len() == 0 {
        m
    } else {
        insert_all(m, adds.drop_last()).insert(adds.last().0, adds.last().1)
    }
}

/// The registry after `node_removed` was called for each of `ids` in turn.
pub open spec fn remove_all<E>(m: Map<u64, E>, ids: Seq<u64>) -> Map<u64, E>
    decreases ids.len(),
{
    if ids.len() == 0 {
        m
    } else {
        remove_all(m, ids.drop_last()).remove(ids.last())
    }
}

proof fn lemma_insert_all_dom<E>(m: Map<u64, E>, adds: Seq<(u64, E)>)
    ensures
        forall|id: u64| #[trigger]
            insert_all(m, adds).contains_key(id) <==> (m.contains_key(id) || exists|i: int|
                0 <= i < adds.len() && adds[i].0 == id),
    decreases adds.len(),
{
    if adds.len() > 0 {
        lemma_insert_all_dom(m, adds.drop_last());
        assert forall|id: u64| #[trigger]
            insert_all(m, adds).contains_key(id) <==> (m.contains_key(id) || exists|i: int|
                0 <= i < adds.len() && adds[i].0 == id) by {
            let prev = insert_all(m, adds.drop_last());
            assert(insert_all(m, adds) == prev.insert(adds.last().0, adds.last().1));
            assert(prev.contains_key(id) <==> (m.contains_key(id) || exists|i: int|
                0 <= i < adds.drop_last().len() && adds.drop_last()[i].0 == id));
            if adds.last().0 == id {
                assert(adds[adds.len() - 1].0 == id);
            }
            if exists|i: int| 0 <= i < adds.len() && adds[i].0 == id {
                let i = choose|i: int| 0 <= i < adds.len() && adds[i].0 == id;
                if i < adds.len() - 1 {
                    assert(adds.drop_last()[i].0 == id);
                }
            }
            if exists|i: int| 0 <= i < adds.len() - 1 && adds.drop_last()[i].0 == id {
                let i = choose|i: int| 0 <= i < adds.len() - 1 && adds.drop_last()[i].0 == id;
                assert(adds[i].0 == id);
            }
        }
    }
}

proof fn lemma_remove_all_dom<E>(m: Map<u64, E>, ids: Seq<u64>)
    ensures
        forall|id: u64| #[trigger]
            remove_all(m, ids).contains_key(id) <==> (m.contains_key(id) && !ids.contains(id)),
    decreases ids.len(),
{
    if ids.len() > 0 {
        lemma_remove_all_dom(m, ids.drop_last());
        assert forall|id: u64| #[trigger]
            remove_all(m, ids).contains_key(id) <==> (m.contains_key(id) && !ids.contains(id)) by {
            let prev = remove_all(m, ids.drop_last());
            assert(remove_all(m, ids) == prev.remove(ids.last()));
            assert(prev.contains_key(id) <==> (m.contains_key(id) && !ids.drop_last().contains(id)));
            if ids.contains(id) && id != ids.last() {
                let i = choose|i: int| 0 <= i < ids.len() && ids[i] == id;
                assert(ids.drop_last()[i] == id);
            }
            if ids.drop_last().contains(id) {
                let i = choose|i: int| 0 <= i < ids.len() - 1 && ids.drop_last()[i] == id;
                assert(ids[i] == id);
            }
            if id == ids.last() {
                assert(ids[ids.len() - 1] == id);
            }
        }
    }
}

/// The registry keeps no element for a node that has left the tree. The tree
/// reports a change as the nodes added, whose elements are recorded, and then
/// the nodes removed, whose elements are dropped. If every element belonged
/// to a node of the old tree, every added node is in the new tree, and every
/// node of the old tree that is not in the new one is reported removed, then
/// afterwards every element belongs to a node of the new tree.
pub proof fn lemma_registry_stays_within_tree<E>(
    m: Map<u64, E>,
    old_nodes: Set<u64>,
    new_nodes: Set<u64>,
    adds: Seq<(u64, E)>,
    removed: Seq<u64>,
)
    requires
        forall|id: u64| m.contains_key(id) ==> old_nodes.contains(id),
        forall|i: int| 0 <= i < adds.len() ==> new_nodes.contains(#[trigger] adds[i].0),
        forall|id: u64| old_nodes.contains(id) && !new_nodes.contains(id) ==> removed.contains(id),
    ensures
        forall|id: u64| #[trigger]
            remove_all(insert_all(m, adds), removed).contains_key(id) ==> new_nodes.contains(id),
{
    lemma_insert_all_dom(m, adds);
    lemma_remove_all_dom(insert_all(m, adds), removed);
    assert forall|id: u64| #[trigger]
        remove_all(insert_all(m, adds), removed).contains_key(id) implies new_nodes.contains(id) by {
        assert(insert_all(m, adds).contains_key(id));
        if !m.contains_key(id) {
            let i = choose|i: int| 0 <= i < adds.len() && adds[i].0 == id;
            assert(new_nodes.contains(adds[i].0));
        }
    }
}

impl<E> ElementRegistry<E> {
    pub fn new() -> (r: Self)
        ensures
            r@ == Map::<u64, E>::empty(),
    {
        ElementRegistry { elements: HashMap::new() }
    }

    pub fn len(&self) -> (n: usize)
        ensures
            n == self@.len(),
    {
        self.elements.len()
    }

    pub fn contains(&self, id: u64) -> (b: bool)
        ensures
            b == self@.contains_key(id),
    {
        self.elements.contains_key(&id)
    }

    pub fn get(&self, id: u64) -> (e: Option<&E>)
        ensures
            e is Some == self@.contains_key(id),
            e is Some ==> *e->0 == self@[id],
    {
        self.elements.get(&id)
    }

    /// Records the element created for node `id`, replacing any earlier one.
    pub fn insert(&mut self, id: u64, element: E)
        ensures
            final(self)@ == old(self)@.insert(id, element),
    {
        self.elements.insert(id, element);
    }

    /// Decides where the element of a node that the tree reports as added
    /// goes: the element under which it is to be created, or `None` when the
    /// node gets no element.
    pub fn node_added_parent(&self, filter: FilterResult, id: u64, filtered_parent: Option<u64>) -> (parent: Option<&E>)
        ensures
            parent is Some == added_node_parent(self@, filter, id, filtered_parent) is Some,
            parent is Some ==> *parent->0 == self@[added_node_parent(self@, filter, id, filtered_parent)->0],
            forall|p: u64|
                filter == FilterResult::Include && !self@.contains_key(id) && filtered_parent == Some(p)
                    && self@.contains_key(p) ==> parent is Some && *parent->0 == self@[p],
    {
        match filter {
            FilterResult::Include => {},
            _ => return None,
        }
        if self.elements.contains_key(&id) {
            return None;
        }
        match filtered_parent {
            Some(p) => self.elements.get(&p),
            None => None,
        }
    }

    /// The element whose attributes follow an update of node `id`: its own
    /// element, provided the node is exposed and has one.
    pub fn node_updated_element(&self, filter: FilterResult, id: u64) -> (e: Option<&E>)
        ensures
            e is Some == (filter == FilterResult::Include && self@.contains_key(id)),
            e is Some ==> *e->0 == self@[id],
    {
        match filter {
            FilterResult::Include => self.elements.get(&id),
            _ => None,
        }
    }

    /// What a move of the tree's focus from `old_focus` to `new_focus` asks of
    /// the DOM.
    pub fn focus_moved(&self, old_focus: Option<u64>, new_focus: Option<u64>) -> (change: FocusChange<'_, E>)
        ensures
            change_matches(self@, change, focus_target(self@, old_focus, new_focus)),
    {
        match new_focus {
            Some(n) => match self.elements.get(&n) {
                Some(e) => FocusChange::Focus(e),
                None => FocusChange::Unchanged,
            },
            None => match old_focus {
                Some(o) => match self.elements.get(&o) {
                    Some(e) => FocusChange::Blur(e),
                    None => FocusChange::Unchanged,
                },
                None => FocusChange::Unchanged,
            },
        }
    }

    /// Forgets the element of a node that the tree reports as removed, and
    /// hands it back so that it can be taken out of the document.
    pub fn node_removed(&mut self, id: u64) -> (removed: Option<E>)
        ensures
            final(self)@ == old(self)@.remove(id),
            removed == lookup(old(self)@, id),
    {
        self.elements.remove(&id)
    }
}

} // verus!
