use kivy_jsx_runtime::DeclarativeNode;
use kivy_jsx_runtime::DynamicComponentResolver;
use kivy_jsx_runtime::JsonValue;
use kivy_jsx_runtime::NoopKivyResolver;
use kivy_jsx_runtime::RuntimeResearchError;
use kivy_jsx_runtime::WidgetSpec;

fn empty_obj() -> JsonValue {
    JsonValue::Obj(vec![])
}

fn leaf(widget_type: &str) -> WidgetSpec {
    WidgetSpec {
        widget_type: widget_type.to_string(),
        props: empty_obj(),
        children: vec![],
    }
}

#[test]
fn map_tag_table() {
    assert_eq!(NoopKivyResolver::map_tag("View"), "BoxLayout");
    assert_eq!(NoopKivyResolver::map_tag("Label"), "Label");
    assert_eq!(NoopKivyResolver::map_tag("Button"), "Button");
    assert_eq!(NoopKivyResolver::map_tag("Canvas"), "Canvas");
    assert_eq!(NoopKivyResolver::map_tag(""), "");
}

#[test]
fn resolution_preserves_structure_and_order() {
    let source = DeclarativeNode {
        kind: "View".to_string(),
        props: JsonValue::Obj(vec![(
            "spacing".to_string(),
            JsonValue::Int(12),
        )]),
        children: vec![
            DeclarativeNode {
                kind: "Label".to_string(),
                props: empty_obj(),
                children: vec![],
            },
            DeclarativeNode {
                kind: "Canvas".to_string(),
                props: empty_obj(),
                children: vec![DeclarativeNode {
                    kind: "Button".to_string(),
                    props: empty_obj(),
                    children: vec![],
                }],
            },
            DeclarativeNode {
                kind: "Button".to_string(),
                props: empty_obj(),
                children: vec![],
            },
        ],
    };
    let widget = NoopKivyResolver.create_custom_widget(&source).unwrap();
    assert_eq!(widget.widget_type, "BoxLayout");
    assert_eq!(widget.children.len(), source.children.len());
    assert_eq!(widget.children[0].widget_type, "Label");
    assert_eq!(widget.children[1].widget_type, "Canvas");
    assert_eq!(widget.children[1].children.len(), 1);
    assert_eq!(widget.children[1].children[0].widget_type, "Button");
    assert_eq!(widget.children[2].widget_type, "Button");
    match &widget.props {
        JsonValue::Obj(ms) => {
            assert_eq!(ms.len(), 1);
            assert_eq!(ms[0].0, "spacing");
        }
        _ => panic!("props must be copied verbatim"),
    }
}

#[test]
fn validate_accepts_well_formed_tree() {
    let mut root = leaf("BoxLayout");
    root.children.push(leaf("Label"));
    root.children.push(leaf("Button"));
    assert!(root.validate().is_ok());
}

#[test]
fn validate_rejects_blank_widget_type() {
    let w = leaf("   ");
    match w.validate() {
        Err(RuntimeResearchError::InvalidInput(d)) => {
            assert_eq!(d, "widget_type must not be empty")
        }
        _ => panic!("blank widget_type must fail"),
    }
}

#[test]
fn validate_rejects_non_object_props() {
    let mut w = leaf("Label");
    w.props = JsonValue::Int(7);
    match w.validate() {
        Err(RuntimeResearchError::InvalidInput(d)) => {
            assert_eq!(d, "widget props must be a JSON object")
        }
        _ => panic!("non-object props must fail"),
    }
}

#[test]
fn validate_reports_deeply_nested_props_violation() {
    let mut deep = leaf("Button");
    deep.props = JsonValue::Arr(vec![JsonValue::Int(1)]);
    let mut mid = leaf("Label");
    mid.children.push(deep);
    let mut root = leaf("BoxLayout");
    root.children.push(leaf("Label"));
    root.children.push(mid);
    match root.validate() {
        Err(RuntimeResearchError::InvalidInput(d)) => {
            assert_eq!(d, "widget props must be a JSON object")
        }
        _ => panic!("nested props violation must be reported"),
    }
}

#[test]
fn validate_is_idempotent_and_mutates_nothing() {
    let mut root = leaf("BoxLayout");
    root.children.push(leaf("Label"));
    let first = root.validate();
    let second = root.validate();
    assert!(first.is_ok() && second.is_ok());
    assert_eq!(root.widget_type, "BoxLayout");
    assert_eq!(root.children.len(), 1);

    let bad = leaf(" ");
    let d1 = match bad.validate() {
        Err(RuntimeResearchError::InvalidInput(d)) => d,
        _ => panic!("must fail"),
    };
    let d2 = match bad.validate() {
        Err(RuntimeResearchError::InvalidInput(d)) => d,
        _ => panic!("must fail"),
    };
    assert_eq!(d1, d2);
}

#[test]
fn builders_assemble_nodes() {
    let node = DeclarativeNode::new("View")
        .with_props(JsonValue::Obj(vec![(
            "orientation".to_string(),
            JsonValue::Text("vertical".to_string()),
        )]))
        .with_children(vec![DeclarativeNode::new("Label")]);
    assert_eq!(node.kind, "View");
    assert_eq!(node.children.len(), 1);

    let widget = WidgetSpec::new("Button").with_props(empty_obj()).with_children(vec![]);
    assert_eq!(widget.widget_type, "Button");
    assert!(widget.validate().is_ok());
}
