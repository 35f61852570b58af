use vstd::prelude::*;

verus! {

/// Whether a check box, or another toggle, is checked.
#[derive(Clone, Copy, Debug, PartialEq, Eq, Structural)]
pub enum CheckedState {
    False,
    True,
    Mixed,
}

/// The ARIA attributes that mirror a node's properties on its element.
#[derive(Clone, Copy, Debug, PartialEq, Eq, Structural)]
pub enum AriaAttribute {
    /// `aria-label`: the node's label.
    Label,
    /// `aria-checked`: the node's checked state.
    Checked,
}

/// The properties of a node that its element mirrors.
#[derive(Debug)]
pub struct NodeAttributes {
    pub label: Option<String>,
    pub checked: Option<CheckedState>,
}

/// What happens to one attribute of an element.
#[derive(Debug)]
pub enum AttributeChange {
    Assign(String),
    Remove,
}

/// What happens to one attribute of an element, as a plain value.
pub enum ChangeView {
    Assign(Seq<char>),
    Remove,
}

#[derive(Debug)]
pub struct AttributeUpdate {
    pub attribute: AriaAttribute,
    pub change: AttributeChange,
}

impl View for AttributeChange {
    type V = ChangeView;

    open spec fn view(&self) -> ChangeView {
        match self {
            AttributeChange::Assign(v) => ChangeView::Assign(v@),
            AttributeChange::Remove => ChangeView::Remove,
        }
    }
}

impl View for AttributeUpdate {
    type V = (AriaAttribute, ChangeView);

    open spec fn view(&self) -> (AriaAttribute, ChangeView) {
        (self.attribute, self.change@)
    }
}

pub open spec fn attribute_name(a: AriaAttribute) -> Seq<char> {
    match a {
        AriaAttribute::Label => "aria-label"@,
        AriaAttribute::Checked => "aria-checked"@,
    }
}

/// The value of `aria-checked` for a checked state.
pub open spec fn checked_text(c: CheckedState) -> Seq<char> {
    match c {
        CheckedState::False => "false"@,
        CheckedState::True => "true"@,
        CheckedState::Mixed => "mixed"@,
    }
}

pub open spec fn opt_view(s: Option<String>) -> Option<Seq<char>> {
    match s {
        Some(s) => Some(s@),
        None => None,
    }
}

/// The value an attribute has on the element of a node with these
/// properties; `None` when the element has no such attribute.
pub open spec fn attribute_value(n: NodeAttributes, a: AriaAttribute) -> Option<Seq<char>> {
    match a {
        AriaAttribute::Label => opt_view(n.label),
        AriaAttribute::Checked => match n.checked {
            Some(c) => Some(checked_text(c)),
            None => None,
        },
    }
}

/// The value an attribute had before; a new element had none.
pub open spec fn old_value(old: Option<NodeAttributes>, a: AriaAttribute) -> Option<Seq<char>> {
    match old {
        Some(n) => attribute_value(n, a),
        None => None,
    }
}

/// How an attribute goes from `old` to `new`: set when it gains or changes a
/// value, removed when it loses its value, untouched otherwise.
pub open spec fn change_between(old: Option<Seq<char>>, new: Option<Seq<char>>) -> Option<ChangeView> {
    match new {
        Some(v) => if old == Some(v) {
            None
        } else {
            Some(ChangeView::Assign(v))
        },
        None => if old is Some {
            Some(ChangeView::Remove)
        } else {
            None
        },
    }
}

pub open spec fn update_of(a: AriaAttribute, c: Option<ChangeView>) -> Seq<(AriaAttribute, ChangeView)> {
    match c {
        Some(c) => seq![(a, c)],
        None => Seq::empty(),
    }
}

/// The attribute updates that bring an element in line with its node: for
/// the label, then the checked state, each one that changes.
pub open spec fn planned_updates(old: Option<NodeAttributes>, new: NodeAttributes) -> Seq<
    (AriaAttribute, ChangeView),
> {
    update_of(
        AriaAttribute::Label,
        change_between(old_value(old, AriaAttribute::Label), attribute_value(new, AriaAttribute::Label)),
    ) + update_of(
        AriaAttribute::Checked,
        change_between(
            old_value(old, AriaAttribute::Checked),
            attribute_value(new, AriaAttribute::Checked),
        ),
    )
}

/// The value attribute `a` has after `updates` are applied in turn to an
/// element on which it had value `v`.
pub open spec fn apply_updates(v: Option<Seq<char>>, a: AriaAttribute, updates: Seq<(AriaAttribute, ChangeView)>) -> Option<
    Seq<char>,
>
    decreases updates.len(),
{
    if updates.len() == 0 {
        v
    } else {
        let before = apply_updates(v, a, updates.drop_last());
        if updates.last().0 == a {
            match updates.last().1 {
                ChangeView::Assign(x) => Some(x),
                ChangeView::Remove => None,
            }
        } else {
            before
        }
    }
}

proof fn lemma_apply_two(
    v: Option<Seq<char>>,
    a: AriaAttribute,
    first: Seq<(AriaAttribute, ChangeView)>,
    second: Seq<(AriaAttribute, ChangeView)>,
)
    requires
        first.len() <= 1,
        second.len() <= 1,
    ensures
        apply_updates(v, a, first + second) == apply_updates(apply_updates(v, a, first), a, second),
{
    if second.len() == 0 {
        assert(first + second =~= first);
    } else {
        assert((first + second).drop_last() =~= first);
        assert(second.drop_last() =~= Seq::<(AriaAttribute, ChangeView)>::empty());
        assert((first + second).last() == second.last());
        let x = apply_updates(v, a, first);
        assert(apply_updates(x, a, second.drop_last()) == x);
        assert(apply_updates(v, a, (first + second).drop_last()) == x);
    }
}

proof fn lemma_apply_one(v: Option<Seq<char>>, a: AriaAttribute, b: AriaAttribute, old: Option<Seq<char>>, new: Option<Seq<char>>)
    requires
        v == (if a == b { old } else { v }),
    ensures
        apply_updates(v, a, update_of(b, change_between(old, new))) == (if a == b {
            new
        } else {
            v
        }),
{
    let u = update_of(b, change_between(old, new));
    match change_between(old, new) {
        Some(c) => {
            assert(u.len() == 1);
            assert(u.drop_last() =~= Seq::<(AriaAttribute, ChangeView)>::empty());
            assert(apply_updates(v, a, u.drop_last()) == v);
            assert(u.last() == (b, c));
        },
        None => {
            assert(u =~= Seq::<(AriaAttribute, ChangeView)>::empty());
        },
    }
}

/// The planned updates bring every attribute of an element that carried the
/// old node's attributes to the new node's value: `aria-label` to the new
/// label, `aria-checked` to the text of the new checked state, each removed
/// when the new node has none; and an attribute whose value is the same
/// before and after is not touched.
pub proof fn lemma_updates_reach_new_attributes(old: Option<NodeAttributes>, new: NodeAttributes)
    ensures
        apply_updates(old_value(old, AriaAttribute::Label), AriaAttribute::Label, planned_updates(old, new))
            == opt_view(new.label),
        apply_updates(old_value(old, AriaAttribute::Checked), AriaAttribute::Checked, planned_updates(old, new))
            == (match new.checked {
            Some(CheckedState::False) => Some("false"@),
            Some(CheckedState::True) => Some("true"@),
            Some(CheckedState::Mixed) => Some("mixed"@),
            None => None::<Seq<char>>,
        }),
        forall|i: int|
            0 <= i < planned_updates(old, new).len() ==> old_value(old, #[trigger] planned_updates(
                old,
                new,
            )[i].0) != attribute_value(new, planned_updates(old, new)[i].0),
{
    let lu = update_of(
        AriaAttribute::Label,
        change_between(old_value(old, AriaAttribute::Label), attribute_value(new, AriaAttribute::Label)),
    );
    let cu = update_of(
        AriaAttribute::Checked,
        change_between(
            old_value(old, AriaAttribute::Checked),
            attribute_value(new, AriaAttribute::Checked),
        ),
    );
    let ol = old_value(old, AriaAttribute::Label);
    let oc = old_value(old, AriaAttribute::Checked);
    lemma_apply_two(ol, AriaAttribute::Label, lu, cu);
    lemma_apply_one(ol, AriaAttribute::Label, AriaAttribute::Label, ol, attribute_value(new, AriaAttribute::Label));
    lemma_apply_one(attribute_value(new, AriaAttribute::Label), AriaAttribute::Label, AriaAttribute::Checked, oc, attribute_value(new, AriaAttribute::Checked));
    lemma_apply_two(oc, AriaAttribute::Checked, lu, cu);
    lemma_apply_one(oc, AriaAttribute::Checked, AriaAttribute::Label, ol, attribute_value(new, AriaAttribute::Label));
    lemma_apply_one(oc, AriaAttribute::Checked, AriaAttribute::Checked, oc, attribute_value(new, AriaAttribute::Checked));
}

/// An element whose node did not change needs no attribute update, and
/// after an update, applying the same properties again changes nothing.
pub proof fn lemma_unchanged_node_needs_no_update(n: NodeAttributes)
    ensures
        planned_updates(Some(n), n) == Seq::<(AriaAttribute, ChangeView)>::empty(),
{
    assert(planned_updates(Some(n), n) =~= Seq::<(AriaAttribute, ChangeView)>::empty());
}

impl AriaAttribute {
    pub fn name(&self) -> (n: &'static str)
        ensures
            n@ == attribute_name(*self),
    {
        match self {
            AriaAttribute::Label => "aria-label",
            AriaAttribute::Checked => "aria-checked",
        }
    }
}

pub fn checked_value(c: CheckedState) -> (s: String)
    ensures
        s@ == checked_text(c),
{
    match c {
        CheckedState::False => String::from_str("false"),
        CheckedState::True => String::from_str("true"),
        CheckedState::Mixed => String::from_str("mixed"),
    }
}

fn value_of(n: &NodeAttributes, a: AriaAttribute) -> (v: Option<String>)
    ensures
        opt_view(v) == attribute_value(*n, a),
{
    match a {
        AriaAttribute::Label => match &n.label {
            Some(l) => Some(l.clone()),
            None => None,
        },
        AriaAttribute::Checked => match n.checked {
            Some(c) => Some(checked_value(c)),
            None => None,
        },
    }
}

fn push_change(updates: &mut Vec<AttributeUpdate>, a: AriaAttribute, before_value: Option<String>, after_value: Option<String>)
    ensures
        final(updates)@.map_values(|u: AttributeUpdate| u@) == old(updates)@.map_values(
            |u: AttributeUpdate| u@,
        ) + update_of(a, change_between(opt_view(before_value), opt_view(after_value))),
{
    let ghost before = updates@;
    let change = match after_value {
        Some(v) => match &before_value {
            Some(o) => if *o == v {
                None
            } else {
                Some(AttributeChange::Assign(v))
            },
            None => Some(AttributeChange::Assign(v)),
        },
        None => match before_value {
            Some(_) => Some(AttributeChange::Remove),
            None => None,
        },
    };
    match change {
        Some(c) => {
            updates.push(AttributeUpdate { attribute: a, change: c });
        },
        None => {},
    }
    assert(updates@.map_values(|u: AttributeUpdate| u@) =~= before.map_values(|u: AttributeUpdate| u@)
        + update_of(a, change_between(opt_view(before_value), opt_view(after_value))));
}

/// The attribute updates that bring an element in line with its node; with
/// no old properties (a new element) every attribute the node has is set.
pub fn attribute_updates(old: Option<&NodeAttributes>, new: &NodeAttributes) -> (updates: Vec<
    AttributeUpdate,
>)
    ensures
        updates@.map_values(|u: AttributeUpdate| u@) == planned_updates(
            match old {
                Some(o) => Some(*o),
                None => None,
            },
            *new,
        ),
{
    let mut updates: Vec<AttributeUpdate> = Vec::new();
    let old_label = match old {
        Some(o) => value_of(o, AriaAttribute::Label),
        None => None,
    };
    let old_checked = match old {
        Some(o) => value_of(o, AriaAttribute::Checked),
        None => None,
    };
    push_change(&mut updates, AriaAttribute::Label, old_label, value_of(new, AriaAttribute::Label));
    push_change(&mut updates, AriaAttribute::Checked, old_checked, value_of(new, AriaAttribute::Checked));
    assert(Seq::<AttributeUpdate>::empty().map_values(|u: AttributeUpdate| u@) =~= Seq::<
        (AriaAttribute, ChangeView),
    >::empty());
    updates
}

/// What the `option` element that a combo box shows for one of its children
/// gets from that child.
#[derive(Debug)]
pub enum OptionAttribute {
    /// The `aria-label` attribute: the child's label.
    AriaLabel(String),
    /// The `value` attribute: the child's value.
    Value(String),
    /// The text the option shows: the child's value.
    InnerText(String),
}

/// What an `option` element gets, as a plain value.
pub enum OptionAttributeView {
    AriaLabel(Seq<char>),
    Value(Seq<char>),
    InnerText(Seq<char>),
}

impl View for OptionAttribute {
    type V = OptionAttributeView;

    open spec fn view(&self) -> OptionAttributeView {
        match self {
            OptionAttribute::AriaLabel(s) => OptionAttributeView::AriaLabel(s@),
            OptionAttribute::Value(s) => OptionAttributeView::Value(s@),
            OptionAttribute::InnerText(s) => OptionAttributeView::InnerText(s@),
        }
    }
}

/// An option carries its child's label as `aria-label` when there is one,
/// then its child's value, when there is one, as both its `value` and its
/// text.
pub open spec fn planned_option_attributes(label: Option<Seq<char>>, value: Option<Seq<char>>) -> Seq<
    OptionAttributeView,
> {
    (match label {
        Some(l) => seq![OptionAttributeView::AriaLabel(l)],
        None => Seq::empty(),
    }) + (match value {
        Some(v) => seq![OptionAttributeView::Value(v), OptionAttributeView::InnerText(v)],
        None => Seq::empty(),
    })
}

/// An option gets the child's label as `aria-label` whenever the child has a
/// label, and the child's value as its `value` and its text whenever the
/// child has a value, whatever the other one is; it gets nothing else.
pub proof fn lemma_option_carries_label_and_value(label: Option<Seq<char>>, value: Option<Seq<char>>)
    ensures
        forall|l: Seq<char>|
            label == Some(l) ==> planned_option_attributes(label, value).contains(
                OptionAttributeView::AriaLabel(l),
            ),
        forall|v: Seq<char>|
            value == Some(v) ==> planned_option_attributes(label, value).contains(
                OptionAttributeView::Value(v),
            ) && planned_option_attributes(label, value).contains(OptionAttributeView::InnerText(v)),
        planned_option_attributes(label, value).len() == (if label is Some {
            1int
        } else {
            0
        }) + (if value is Some {
            2int
        } else {
            0
        }),
        forall|i: int|
            0 <= i < planned_option_attributes(label, value).len() ==> match #[trigger] planned_option_attributes(
                label,
                value,
            )[i] {
                OptionAttributeView::AriaLabel(l) => label == Some(l),
                OptionAttributeView::Value(v) => value == Some(v),
                OptionAttributeView::InnerText(v) => value == Some(v),
            },
{
    let s = planned_option_attributes(label, value);
    match label {
        Some(l) => {
            assert(s[0] == OptionAttributeView::AriaLabel(l));
            match value {
                Some(v) => {
                    assert(s[1] == OptionAttributeView::Value(v));
                    assert(s[2] == OptionAttributeView::InnerText(v));
                },
                None => {},
            }
        },
        None => {
            match value {
                Some(v) => {
                    assert(s[0] == OptionAttributeView::Value(v));
                    assert(s[1] == OptionAttributeView::InnerText(v));
                },
                None => {},
            }
        },
    }
}

/// What the option for a combo box child with this label and value gets.
pub fn option_attributes(label: Option<String>, value: Option<String>) -> (a: Vec<OptionAttribute>)
    ensures
        a@.map_values(|o: OptionAttribute| o@) == planned_option_attributes(
            opt_view(label),
            opt_view(value),
        ),
{
    let mut a: Vec<OptionAttribute> = Vec::new();
    let ghost lv = opt_view(label);
    let ghost vv = opt_view(value);
    match label {
        Some(l) => a.push(OptionAttribute::AriaLabel(l)),
        None => {},
    }
    match value {
        Some(v) => {
            let text = v.clone();
            a.push(OptionAttribute::Value(v));
            a.push(OptionAttribute::InnerText(text));
        },
        None => {},
    }
    assert(a@.map_values(|o: OptionAttribute| o@) =~= planned_option_attributes(lv, vv));
    a
}

} // verus!
