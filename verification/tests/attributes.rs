use accesskit_web::attributes::{
    attribute_updates, checked_value, AriaAttribute, AttributeChange, CheckedState, NodeAttributes,
};

fn describe(updates: Vec<accesskit_web::attributes::AttributeUpdate>) -> Vec<String> {
    updates
        .into_iter()
        .map(|u| match u.change {
            AttributeChange::Assign(v) => format!("{}={}", u.attribute.name(), v),
            AttributeChange::Remove => format!("-{}", u.attribute.name()),
        })
        .collect()
}

fn attrs(label: Option<&str>, checked: Option<CheckedState>) -> NodeAttributes {
    NodeAttributes { label: label.map(|l| l.to_string()), checked }
}

#[test]
fn attribute_names() {
    assert_eq!(AriaAttribute::Label.name(), "aria-label");
    assert_eq!(AriaAttribute::Checked.name(), "aria-checked");
}

#[test]
fn checked_values() {
    assert_eq!(checked_value(CheckedState::False), "false");
    assert_eq!(checked_value(CheckedState::True), "true");
    assert_eq!(checked_value(CheckedState::Mixed), "mixed");
}

#[test]
fn new_element_gets_label_and_checked_state() {
    let new = attrs(Some("checkbox label"), Some(CheckedState::False));
    assert_eq!(
        describe(attribute_updates(None, &new)),
        vec!["aria-label=checkbox label", "aria-checked=false"]
    );
}

#[test]
fn new_element_without_properties_gets_nothing() {
    assert!(attribute_updates(None, &attrs(None, None)).is_empty());
}

#[test]
fn click_toggles_aria_checked() {
    let old = attrs(Some("checkbox label"), Some(CheckedState::False));
    let new = attrs(Some("checkbox label"), Some(CheckedState::True));
    assert_eq!(describe(attribute_updates(Some(&old), &new)), vec!["aria-checked=true"]);
}

#[test]
fn unchanged_node_changes_nothing() {
    let old = attrs(Some("button label"), None);
    let new = attrs(Some("button label"), None);
    assert!(attribute_updates(Some(&old), &new).is_empty());
}

#[test]
fn lost_properties_are_removed() {
    let old = attrs(Some("a"), Some(CheckedState::Mixed));
    let new = attrs(None, None);
    assert_eq!(describe(attribute_updates(Some(&old), &new)), vec!["-aria-label", "-aria-checked"]);
}

#[test]
fn changed_label_is_set() {
    let old = attrs(Some("a"), None);
    let new = attrs(Some("b"), None);
    assert_eq!(describe(attribute_updates(Some(&old), &new)), vec!["aria-label=b"]);
}

fn describe_option(label: Option<&str>, value: Option<&str>) -> Vec<String> {
    accesskit_web::attributes::option_attributes(
        label.map(|l| l.to_string()),
        value.map(|v| v.to_string()),
    )
    .into_iter()
    .map(|a| match a {
        accesskit_web::attributes::OptionAttribute::AriaLabel(l) => format!("aria-label={}", l),
        accesskit_web::attributes::OptionAttribute::Value(v) => format!("value={}", v),
        accesskit_web::attributes::OptionAttribute::InnerText(t) => format!("text={}", t),
    })
    .collect()
}

#[test]
fn option_gets_label_and_value() {
    assert_eq!(
        describe_option(Some("Red"), Some("red")),
        vec!["aria-label=Red", "value=red", "text=red"]
    );
}

#[test]
fn option_without_label_or_value() {
    assert_eq!(describe_option(None, Some("x")), vec!["value=x", "text=x"]);
    assert_eq!(describe_option(Some("only"), None), vec!["aria-label=only"]);
    assert!(describe_option(None, None).is_empty());
}
