use accesskit_web::elements::{
    click_request, element_kind, keypress_edit, replacement_edit, set_value_edit, ActionKind,
    ElementKind, ElementRole,
};
use accesskit_web::error::AdapterError;

#[test]
fn roles_choose_element_kinds() {
    assert_eq!(element_kind(ElementRole::Button), ElementKind::Button);
    assert_eq!(element_kind(ElementRole::TextInput), ElementKind::Input);
    assert_eq!(element_kind(ElementRole::CheckBox), ElementKind::CheckBox);
    assert_eq!(element_kind(ElementRole::ComboBox), ElementKind::Select);
    assert_eq!(element_kind(ElementRole::Other), ElementKind::Div);
}

#[test]
fn kinds_have_tag_names() {
    assert_eq!(ElementKind::Button.tag_name(), "button");
    assert_eq!(ElementKind::Input.tag_name(), "input");
    assert_eq!(ElementKind::Select.tag_name(), "select");
    assert_eq!(ElementKind::Div.tag_name(), "div");
    assert_eq!(ElementKind::CheckBox.tag_name(), "input");
}

#[test]
fn click_makes_click_request() {
    let r = click_request(42);
    assert_eq!(r.action, ActionKind::Click);
    assert_eq!(r.target, 42);
    assert_eq!(r.value, None);
}

#[test]
fn keypress_appends_key() {
    let e = keypress_edit(7, "hell", "o");
    assert_eq!(e.new_value, "hello");
    assert_eq!(e.request.action, ActionKind::SetValue);
    assert_eq!(e.request.target, 7);
    assert_eq!(e.request.value.as_deref(), Some("hello"));
}

#[test]
fn keypress_on_empty_input() {
    let e = keypress_edit(1, "", "x");
    assert_eq!(e.new_value, "x");
    assert_eq!(e.request.value.as_deref(), Some("x"));
}

#[test]
fn change_sets_shown_value() {
    let e = set_value_edit(3, "abc".to_string());
    assert_eq!(e.new_value, "abc");
    assert_eq!(e.request.action, ActionKind::SetValue);
    assert_eq!(e.request.target, 3);
    assert_eq!(e.request.value.as_deref(), Some("abc"));
}

#[test]
fn paste_replaces_value_when_there_is_text() {
    let e = replacement_edit(9, Some("pasted".to_string())).unwrap();
    assert_eq!(e.new_value, "pasted");
    assert_eq!(e.request.target, 9);
    assert_eq!(e.request.value.as_deref(), Some("pasted"));
    assert!(replacement_edit(9, None).is_none());
}

#[test]
fn error_keeps_js_message() {
    let e = AdapterError::from_js_string(Some("NotFoundError".to_string()));
    assert_eq!(e.message(), "NotFoundError");
    assert_eq!(e.display_text(), "NotFoundError\n");
}

#[test]
fn error_without_string_is_unknown() {
    let e = AdapterError::from_js_string(None);
    assert_eq!(e.message(), "Unknown error");
    assert_eq!(e.display_text(), "Unknown error\n");
}
