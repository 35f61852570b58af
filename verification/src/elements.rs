use vstd::prelude::*;

verus! {

/// The roles of accessibility nodes that get an element of their own kind.
#[derive(Clone, Copy, Debug, PartialEq, Eq, Structural)]
pub enum ElementRole {
    Button,
    TextInput,
    CheckBox,
    ComboBox,
    Other,
}

/// The kind of DOM element that mirrors a node.
#[derive(Clone, Copy, Debug, PartialEq, Eq, Structural)]
pub enum ElementKind {
    /// A `button`, whose clicks become click requests.
    Button,
    /// An `input`, whose edits become requests to set the node's value.
    Input,
    /// An `input` that shows a check box, whose clicks become click
    /// requests.
    CheckBox,
    /// A `select`, with an `option` per child of the node.
    Select,
    /// A plain `div`.
    Div,
}

/// The kind of element that mirrors a node of the given role.
pub open spec fn kind_of_role(role: ElementRole) -> ElementKind {
    match role {
        ElementRole::Button => ElementKind::Button,
        ElementRole::TextInput => ElementKind::Input,
        ElementRole::CheckBox => ElementKind::CheckBox,
        ElementRole::ComboBox => ElementKind::Select,
        ElementRole::Other => ElementKind::Div,
    }
}

/// The tag name of the element created for a kind.
pub open spec fn tag_of_kind(kind: ElementKind) -> Seq<char> {
    match kind {
        ElementKind::Button => "button"@,
        ElementKind::Input => "input"@,
        ElementKind::CheckBox => "input"@,
        ElementKind::Select => "select"@,
        ElementKind::Div => "div"@,
    }
}

/// A button is mirrored by a `button`, a text input by an `input`, a check
/// box by an `input`, a combo box by a `select`, and any other node by a
/// `div`.
pub proof fn lemma_role_elements(role: ElementRole)
    ensures
        tag_of_kind(kind_of_role(role)) == (match role {
            ElementRole::Button => "button"@,
            ElementRole::TextInput => "input"@,
            ElementRole::CheckBox => "input"@,
            ElementRole::ComboBox => "select"@,
            ElementRole::Other => "div"@,
        }),
        role == ElementRole::Button ==> kind_of_role(role) == ElementKind::Button,
        role == ElementRole::TextInput ==> kind_of_role(role) == ElementKind::Input,
        role == ElementRole::CheckBox ==> kind_of_role(role) == ElementKind::CheckBox,
        role == ElementRole::ComboBox ==> kind_of_role(role) == ElementKind::Select,
        role == ElementRole::Other ==> kind_of_role(role) == ElementKind::Div,
{
}

pub fn element_kind(role: ElementRole) -> (kind: ElementKind)
    ensures
        kind == kind_of_role(role),
{
    match role {
        ElementRole::Button => ElementKind::Button,
        ElementRole::TextInput => ElementKind::Input,
        ElementRole::CheckBox => ElementKind::CheckBox,
        ElementRole::ComboBox => ElementKind::Select,
        ElementRole::Other => ElementKind::Div,
    }
}

impl ElementKind {
    pub fn tag_name(&self) -> (tag: &'static str)
        ensures
            tag@ == tag_of_kind(*self),
    {
        match self {
            ElementKind::Button => "button",
            ElementKind::Input => "input",
            ElementKind::CheckBox => "input",
            ElementKind::Select => "select",
            ElementKind::Div => "div",
        }
    }
}

/// The actions that the elements of this adapter request.
#[derive(Clone, Copy, Debug, PartialEq, Eq, Structural)]
pub enum ActionKind {
    Click,
    SetValue,
}

/// A request to the application to act on a node: `value` is the text of a
/// `SetValue` request and `None` for a click.
#[derive(Debug)]
pub struct ActionRequest {
    pub action: ActionKind,
    pub target: u64,
    pub value: Option<String>,
}

/// An edit of a text input: the value that the input element now shows, and
/// the request that passes it on to the application.
#[derive(Debug)]
pub struct ValueEdit {
    pub new_value: String,
    pub request: ActionRequest,
}

/// Whether `r` asks to set the value of node `target` to `text`.
pub open spec fn is_set_value(r: ActionRequest, target: u64, text: Seq<char>) -> bool {
    &&& r.action == ActionKind::SetValue
    &&& r.target == target
    &&& r.value is Some
    &&& r.value->0@ == text
}

/// Whether `e` sets the input's value to `text` and asks the application to
/// set node `target`'s value to the same text.
pub open spec fn is_edit_to(e: ValueEdit, target: u64, text: Seq<char>) -> bool {
    &&& e.new_value@ == text
    &&& is_set_value(e.request, target, text)
}

/// An edit to `text` shows exactly `text` in the input and asks the
/// application to set the value of exactly node `target` to that same text.
pub proof fn lemma_edit_sets_target_value(e: ValueEdit, target: u64, text: Seq<char>)
    requires
        is_edit_to(e, target, text),
    ensures
        e.new_value@ == text,
        e.request.action == ActionKind::SetValue,
        e.request.target == target,
        e.request.value matches Some(v) && v@ == text,
{
}

/// The request that a click on the element of node `target` makes.
pub fn click_request(target: u64) -> (r: ActionRequest)
    ensures
        r.action == ActionKind::Click,
        r.target == target,
        r.value is None,
{
    ActionRequest { action: ActionKind::Click, target, value: None }
}

/// The edit that sets node `target`'s value to `text`; a committed change of
/// a text input makes it with the value the input shows.
pub fn set_value_edit(target: u64, text: String) -> (e: ValueEdit)
    ensures
        is_edit_to(e, target, text@),
{
    let value = text.clone();
    ValueEdit { new_value: text, request: ActionRequest { action: ActionKind::SetValue, target, value: Some(value) } }
}

/// A key press in a text input appends the key to the value the input shows.
pub fn keypress_edit(target: u64, current: &str, key: &str) -> (e: ValueEdit)
    ensures
        is_edit_to(e, target, current@ + key@),
{
    let text = String::from_str(current).concat(key);
    set_value_edit(target, text)
}

/// A paste or an input event replaces the value of a text input with the
/// text it carries (the clipboard's plain text, the event's data), when it
/// carries any.
pub fn replacement_edit(target: u64, text: Option<String>) -> (e: Option<ValueEdit>)
    ensures
        e is Some == text is Some,
        e is Some ==> is_edit_to(e->0, target, text->0@),
{
    match text {
        Some(text) => Some(set_value_edit(target, text)),
        None => None,
    }
}

} // verus!
