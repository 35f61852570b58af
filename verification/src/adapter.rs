use crate::registry::ElementRegistry;
use vstd::prelude::*;

verus! {

/// The lifecycle of an adapter, as plain values: before the application has
/// supplied a tree it only remembers whether the host window has focus; once
/// the tree exists it keeps the tree and the elements that mirror it.
pub enum AdapterView<T, E> {
    Pending { is_host_focused: bool },
    Active { tree: T, elements: Map<u64, E> },
}

/// What an update of the accessibility tree asks of the caller.
#[derive(Clone, Copy, Debug, PartialEq, Eq, Structural)]
pub enum UpdatePlan {
    /// No tree exists yet: build it from the update, telling it whether the
    /// host has focus, add its elements to the document, and hand them to
    /// `Adapter::activate`.
    BuildTree { is_host_focused: bool },
    /// The tree exists: apply the update to it and mirror the changes in the
    /// registry, both of which `Adapter::active_parts_mut` gives access to.
    ApplyToTree,
}

/// What a change of the host window's focus asks of the caller.
#[derive(Clone, Copy, Debug, PartialEq, Eq, Structural)]
pub enum HostFocusPlan {
    /// No tree exists yet: the adapter has recorded the focus state for the
    /// tree it will build.
    Recorded,
    /// The tree exists: pass the new focus state on to it and mirror the
    /// changes in the registry.
    ApplyToTree { is_focused: bool },
}

/// The state in which an adapter starts: waiting for a tree, with the host
/// taken to have focus. A tree that the application supplies at once is built
/// by the plan of the first update, like any later one.
pub open spec fn initial_view<T, E>() -> AdapterView<T, E> {
    AdapterView::Pending { is_host_focused: true }
}

/// The state after the tree that an update plan asked for has been built and
/// mirrored.
pub open spec fn after_activation<T, E>(tree: T, elements: Map<u64, E>) -> AdapterView<T, E> {
    AdapterView::Active { tree, elements }
}

pub open spec fn update_plan_of<T, E>(v: AdapterView<T, E>) -> UpdatePlan {
    match v {
        AdapterView::Pending { is_host_focused } => UpdatePlan::BuildTree { is_host_focused },
        AdapterView::Active { .. } => UpdatePlan::ApplyToTree,
    }
}

pub open spec fn host_focus_plan_of<T, E>(v: AdapterView<T, E>, is_focused: bool) -> HostFocusPlan {
    match v {
        AdapterView::Pending { .. } => HostFocusPlan::Recorded,
        AdapterView::Active { .. } => HostFocusPlan::ApplyToTree { is_focused },
    }
}

/// The state after the host's focus changed: a waiting adapter records the
/// new focus state, an active one is left as it is (the tree holds it).
pub open spec fn after_host_focus<T, E>(v: AdapterView<T, E>, is_focused: bool) -> AdapterView<T, E> {
    match v {
        AdapterView::Pending { .. } => AdapterView::Pending { is_host_focused: is_focused },
        AdapterView::Active { tree, elements } => AdapterView::Active { tree, elements },
    }
}

/// The focus state of the host window that a waiting adapter last heard of
/// is the one its tree is built with.
pub proof fn lemma_recorded_focus_reaches_new_tree<T, E>(v: AdapterView<T, E>, is_focused: bool)
    requires
        v is Pending,
    ensures
        host_focus_plan_of(v, is_focused) == HostFocusPlan::Recorded,
        update_plan_of(after_host_focus(v, is_focused)) == (UpdatePlan::BuildTree {
            is_host_focused: is_focused,
        }),
{
}

/// Of two focus changes that reach a waiting adapter, the later one wins.
pub proof fn lemma_last_host_focus_wins<T, E>(v: AdapterView<T, E>, first: bool, second: bool)
    ensures
        after_host_focus(after_host_focus(v, first), second) == after_host_focus(v, second),
{
}

/// A new adapter builds its first tree as if the host had focus, unless told
/// otherwise first: a tree supplied at start-up is built host-focused.
pub proof fn lemma_fresh_adapter_assumes_host_focus<T, E>()
    ensures
        initial_view::<T, E>() is Pending,
        update_plan_of(initial_view::<T, E>()) == (UpdatePlan::BuildTree { is_host_focused: true }),
{
}

/// Starting with a tree supplied at once, and starting without one and then
/// receiving that tree as the first update, take the same course: the same
/// build plan, and the same state once the built tree and its elements are
/// handed back.
pub proof fn lemma_start_routes_agree<T, E>(tree: T, elements: Map<u64, E>)
    ensures
        update_plan_of(initial_view::<T, E>()) == update_plan_of(
            after_host_focus(initial_view::<T, E>(), true),
        ),
        update_plan_of(initial_view::<T, E>()) == (UpdatePlan::BuildTree { is_host_focused: true }),
        after_activation(tree, elements) == (AdapterView::Active { tree, elements }),
{
}

/// An active adapter stays active: a change of the host's focus neither
/// replaces its tree nor touches its elements, but is passed on to the tree,
/// and every update is applied to the existing tree.
pub proof fn lemma_active_adapter_stays_active<T, E>(v: AdapterView<T, E>, is_focused: bool)
    requires
        v is Active,
    ensures
        after_host_focus(v, is_focused) == v,
        host_focus_plan_of(v, is_focused) == (HostFocusPlan::ApplyToTree { is_focused }),
        update_plan_of(v) == UpdatePlan::ApplyToTree,
{
}

enum AdapterState<T, E> {
    Pending { is_host_focused: bool },
    Active { tree: T, elements: ElementRegistry<E> },
}

/// The adapter: its lifecycle state, and once active the accessibility tree
/// and the elements that mirror it.
pub struct Adapter<T, E> {
    state: AdapterState<T, E>,
}

impl<T, E> View for Adapter<T, E> {
    type V = AdapterView<T, E>;

    closed spec fn view(&self) -> AdapterView<T, E> {
        match self.state {
            AdapterState::Pending { is_host_focused } => AdapterView::Pending { is_host_focused },
            AdapterState::Active { tree, elements } => AdapterView::Active { tree, elements: elements@ },
        }
    }
}

impl<T, E> Adapter<T, E> {
    /// Starts an adapter, waiting for its tree with the host taken to have
    /// focus. When the application supplies a tree at once, the caller builds
    /// it by `update_if_active`'s plan, which then asks for a host-focused
    /// tree, and hands it to `activate`.
    pub fn new() -> (adapter: Self)
        ensures
            adapter@ == initial_view::<T, E>(),
    {
        Adapter { state: AdapterState::Pending { is_host_focused: true } }
    }

    pub fn is_active(&self) -> (b: bool)
        ensures
            b == (self@ is Active),
    {
        match &self.state {
            AdapterState::Active { .. } => true,
            AdapterState::Pending { .. } => false,
        }
    }

    /// What an update of the tree requires in the adapter's present state.
    pub fn update_if_active(&self) -> (plan: UpdatePlan)
        ensures
            plan == update_plan_of(self@),
    {
        match &self.state {
            AdapterState::Pending { is_host_focused } => UpdatePlan::BuildTree { is_host_focused: *is_host_focused },
            AdapterState::Active { .. } => UpdatePlan::ApplyToTree,
        }
    }

    /// Makes the adapter active with the tree just built and its elements.
    pub fn activate(&mut self, tree: T, elements: ElementRegistry<E>)
        ensures
            final(self)@ == after_activation(tree, elements@),
    {
        self.state = AdapterState::Active { tree, elements };
    }

    /// Takes note of a change of the host window's focus.
    pub fn update_host_focus_state(&mut self, is_focused: bool) -> (plan: HostFocusPlan)
        ensures
            final(self)@ == after_host_focus(old(self)@, is_focused),
            plan == host_focus_plan_of(old(self)@, is_focused),
    {
        match &mut self.state {
            AdapterState::Pending { is_host_focused } => {
                *is_host_focused = is_focused;
                HostFocusPlan::Recorded
            },
            AdapterState::Active { .. } => HostFocusPlan::ApplyToTree { is_focused },
        }
    }

    /// The registry of an active adapter.
    pub fn elements(&self) -> (r: Option<&ElementRegistry<E>>)
        ensures
            r is Some == (self@ is Active),
            r is Some ==> (*r->0)@ == self@->Active_elements,
    {
        match &self.state {
            AdapterState::Active { elements, .. } => Some(elements),
            AdapterState::Pending { .. } => None,
        }
    }

    /// The tree and the registry of an active adapter, for applying a change
    /// to the tree and mirroring it in the elements.
    pub fn active_parts_mut(&mut self) -> (r: Option<(&mut T, &mut ElementRegistry<E>)>)
        ensures
            r is Some == (old(self)@ is Active),
            r matches Some(parts) ==> {
                &&& *parts.0 == old(self)@->Active_tree
                &&& (*parts.1)@ == old(self)@->Active_elements
                &&& final(self)@ == (AdapterView::Active {
                    tree: *final(parts.0),
                    elements: (*final(parts.1))@,
                })
            },
            r is None ==> final(self)@ == old(self)@,
    {
        match &mut self.state {
            AdapterState::Active { tree, elements } => Some((tree, elements)),
            AdapterState::Pending { .. } => None,
        }
    }
}

} // verus!
