use content::test_widget::{from_tags, TestButton, TestWidget, WidgetValue};

type Widget = TestWidget<u32>;

#[test]
fn test_button_inherits_widget_accessors_via_prototype_chain() {
    let mut button: TestButton<u32> = TestButton::new("ProtoButton");
    button.widget.title = "ProtoTitle".into();
    assert_eq!(button.widget.title(), "ProtoTitle");
    button.widget.set_title(String::from("InheritedSet"));
    assert_eq!(button.widget.title(), "InheritedSet");
}

#[test]
fn test_button_inherits_widget_methods_via_prototype_chain() {
    let mut button: TestButton<u32> = TestButton::new("ProtoButton");
    let old_val = button.widget.increment();
    assert_eq!(old_val, 0);
    assert_eq!(button.widget.count(), 1);
}

#[test]
fn widget_get_title_returns_default() {
    let widget = Widget::new();
    assert_eq!(widget.title(), "Untitled");
}

#[test]
fn widget_set_title_then_get() {
    let mut widget = Widget::new();
    widget.set_title(String::from("Hello"));
    assert_eq!(widget.title(), "Hello");
}

#[test]
fn widget_get_visible_default_true() {
    let widget = Widget::new();
    assert!(widget.visible());
}

#[test]
fn widget_increment_returns_old_and_increments() {
    let mut widget = Widget::new();
    assert_eq!(widget.increment(), 0);
    assert_eq!(widget.increment(), 1);
    assert_eq!(widget.count(), 2);
}

#[test]
fn widget_to_array_returns_three_elements() {
    let mut widget = Widget::new();
    widget.title = "ArrayTest".into();
    let elements = widget.to_array();
    assert_eq!(elements.len(), 3);
    assert!(matches!(&elements[0], WidgetValue::Text(t) if t == "ArrayTest"));
    assert!(matches!(elements[1], WidgetValue::Boolean(true)));
    assert!(matches!(elements[2], WidgetValue::Number(0)));
}

#[test]
fn widget_format_label() {
    let mut widget = Widget::new();
    widget.title = "Foo".into();
    assert_eq!(widget.format_label(Some("PREFIX")), "PREFIX:Foo");
}

#[test]
fn widget_set_count_via_binding() {
    let mut widget = Widget::new();
    widget.set_count(42);
    assert_eq!(widget.count(), 42);
}

#[test]
fn widget_process_items_counts_strings() {
    let mut widget = Widget::new();
    // "a", 1, "b", true
    widget.process_items(&[true, false, true, false]);
    assert_eq!(widget.count(), 2);
}

#[test]
fn widget_static_create() {
    let widget = Widget::create_static(Some(String::from("StaticWidget")), Some(false));
    assert_eq!(widget.title(), "StaticWidget");
}

#[test]
fn to_object_method_returns_plain_object() {
    let mut widget = Widget::new();
    widget.title = "ObjTest".into();
    let (title, _, _) = widget.fields();
    assert_eq!(title, "ObjTest");
}

#[test]
fn from_tags_splits_comma_string() {
    let parts = from_tags("a, b, c");
    assert_eq!(parts.len(), 3);
}

#[test]
fn store_callback_then_flush_microtasks() {
    let mut widget = Widget::new();
    widget.store_callback(7);
    assert!(widget.on_change.is_some());
}

#[test]
fn widget_constructor_defaults_and_labels() {
    let widget = Widget::from_args(None, None);
    assert_eq!(widget.fields(), (String::from("Untitled"), true, 0));
    assert_eq!(widget.format_label(None), ":Untitled");
    let hidden = Widget::from_args(Some(String::from("T")), Some(false));
    assert!(!hidden.visible());
}

#[test]
fn widget_counter_wraps() {
    let mut widget = Widget::new();
    widget.set_count(u32::MAX);
    assert_eq!(widget.increment(), u32::MAX);
    assert_eq!(widget.count(), 0);
}

#[test]
fn tags_are_trimmed_pieces() {
    assert_eq!(from_tags(" a ,b,, c "), vec!["a", "b", "", "c"]);
    assert_eq!(from_tags(""), vec![""]);
}

#[test]
fn button_label() {
    let mut button: TestButton<u32> = TestButton::new("Go");
    assert_eq!(button.label_value(), "Go");
    button.set_label("Stop");
    assert_eq!(button.label_value(), "Stop");
}
