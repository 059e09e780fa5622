use kivy_jsx_runtime::JsonValue;
use kivy_jsx_runtime::RuntimeResearchError;
use kivy_jsx_runtime::WidgetSpec;

fn same_value(a: &JsonValue, b: &JsonValue) -> bool {
    match (a, b) {
        (JsonValue::Null, JsonValue::Null) => true,
        (JsonValue::Bool(x), JsonValue::Bool(y)) => x == y,
        (JsonValue::Int(x), JsonValue::Int(y)) => x == y,
        (JsonValue::Text(x), JsonValue::Text(y)) => x == y,
        (JsonValue::Arr(xs), JsonValue::Arr(ys)) => {
            xs.len() == ys.len() && xs.iter().zip(ys.iter()).all(|(x, y)| same_value(x, y))
        }
        (JsonValue::Obj(xs), JsonValue::Obj(ys)) => {
            xs.len() == ys.len()
                && xs
                    .iter()
                    .zip(ys.iter())
                    .all(|(x, y)| x.0 == y.0 && same_value(&x.1, &y.1))
        }
        _ => false,
    }
}

fn same_widget(a: &WidgetSpec, b: &WidgetSpec) -> bool {
    a.widget_type == b.widget_type
        && same_value(&a.props, &b.props)
        && a.children.len() == b.children.len()
        && a.children.iter().zip(b.children.iter()).all(|(x, y)| same_widget(x, y))
}

fn sample_tree() -> WidgetSpec {
    WidgetSpec {
        widget_type: "BoxLayout".to_string(),
        props: JsonValue::Obj(vec![
            ("orientation".to_string(), JsonValue::Text("vertical".to_string())),
            (
                "padding".to_string(),
                JsonValue::Arr(vec![
                    JsonValue::Int(20),
                    JsonValue::Int(-3),
                    JsonValue::Int(0),
                ]),
            ),
            ("visible".to_string(), JsonValue::Bool(true)),
            ("tooltip".to_string(), JsonValue::Null),
        ]),
        children: vec![WidgetSpec {
            widget_type: "Label".to_string(),
            props: JsonValue::Obj(vec![(
                "text".to_string(),
                JsonValue::Text("he said \"hi\\now\"".to_string()),
            )]),
            children: vec![],
        }],
    }
}

#[test]
fn to_json_exact_small_tree() {
    let w = WidgetSpec {
        widget_type: "Button".to_string(),
        props: JsonValue::Obj(vec![("text".to_string(), JsonValue::Text("hi".to_string()))]),
        children: vec![],
    };
    assert_eq!(
        w.to_json().unwrap(),
        "{\"widget_type\":\"Button\",\"props\":{\"text\":\"hi\"},\"children\":[]}"
    );
}

#[test]
fn to_json_escapes_strings() {
    let w = WidgetSpec {
        widget_type: "Label".to_string(),
        props: JsonValue::Obj(vec![(
            "text".to_string(),
            JsonValue::Text("a\"b\\c\nd\te\u{01}f".to_string()),
        )]),
        children: vec![],
    };
    assert_eq!(
        w.to_json().unwrap(),
        "{\"widget_type\":\"Label\",\"props\":{\"text\":\"a\\\"b\\\\c\\nd\\te\\u0001f\"},\"children\":[]}"
    );
}

#[test]
fn to_json_rejects_invalid_tree() {
    let mut w = sample_tree();
    w.children[0].props = JsonValue::Int(1);
    match w.to_json() {
        Err(RuntimeResearchError::InvalidInput(d)) => {
            assert_eq!(d, "widget props must be a JSON object")
        }
        _ => panic!("invalid tree must not serialize"),
    }
}

#[test]
fn round_trip_preserves_structure() {
    let w = sample_tree();
    let text = w.to_json().unwrap();
    let back = WidgetSpec::from_json(&text).unwrap();
    assert!(same_widget(&w, &back));
    assert_eq!(back.to_json().unwrap(), text);
}

#[test]
fn round_trip_extreme_integers() {
    let w = WidgetSpec {
        widget_type: "Label".to_string(),
        props: JsonValue::Obj(vec![
            ("lo".to_string(), JsonValue::Int(i64::MIN)),
            ("hi".to_string(), JsonValue::Int(i64::MAX)),
        ]),
        children: vec![],
    };
    let text = w.to_json().unwrap();
    assert!(text.contains("-9223372036854775808"));
    assert!(text.contains("9223372036854775807"));
    let back = WidgetSpec::from_json(&text).unwrap();
    assert!(same_widget(&w, &back));
}

#[test]
fn from_json_rejects_malformed_text() {
    for bad in [
        "",
        "{",
        "{\"widget_type\":\"X\"",
        "[1,]",
        "01",
        "9999999999999999999999",
        "{\"widget_type\":\"X\",\"props\":{},\"children\":[]} ",
        "{\"widget_type\":\"X\",\"props\":{},\"children\":[]}x",
    ] {
        match WidgetSpec::from_json(bad) {
            Err(RuntimeResearchError::Serialization(d)) => {
                assert_eq!(d, "malformed JSON text")
            }
            _ => panic!("malformed text must fail: {bad}"),
        }
    }
}

#[test]
fn from_json_rejects_wrong_shape() {
    for bad in [
        "{}",
        "[]",
        "7",
        "{\"widget_type\":\"X\",\"props\":{}}",
        "{\"props\":{},\"widget_type\":\"X\",\"children\":[]}",
        "{\"widget_type\":7,\"props\":{},\"children\":[]}",
        "{\"widget_type\":\"X\",\"props\":{},\"children\":[7]}",
    ] {
        match WidgetSpec::from_json(bad) {
            Err(RuntimeResearchError::Serialization(d)) => {
                assert_eq!(d, "unexpected JSON shape")
            }
            _ => panic!("wrong shape must fail: {bad}"),
        }
    }
}

#[test]
fn from_json_validates_parsed_tree() {
    match WidgetSpec::from_json("{\"widget_type\":\"  \",\"props\":{},\"children\":[]}") {
        Err(RuntimeResearchError::InvalidInput(d)) => {
            assert_eq!(d, "widget_type must not be empty")
        }
        _ => panic!("blank widget_type must fail validation after parsing"),
    }
    match WidgetSpec::from_json("{\"widget_type\":\"X\",\"props\":7,\"children\":[]}") {
        Err(RuntimeResearchError::InvalidInput(d)) => {
            assert_eq!(d, "widget props must be a JSON object")
        }
        _ => panic!("non-object props must fail validation after parsing"),
    }
}

#[test]
fn from_json_accepts_canonical_escapes() {
    let text = "{\"widget_type\":\"L\",\"props\":{\"t\":\"a\\u0002b\\/c\"},\"children\":[]}";
    let w = WidgetSpec::from_json(text).unwrap();
    match &w.props {
        JsonValue::Obj(ms) => match &ms[0].1 {
            JsonValue::Text(t) => assert_eq!(t, "a\u{02}b/c"),
            _ => panic!("expected text"),
        },
        _ => panic!("expected object"),
    }
}

#[test]
fn duplicate_is_deep_and_equal() {
    let w = sample_tree();
    let copy = w.props.duplicate();
    assert!(same_value(&w.props, &copy));
    assert!(w.props.is_object());
    assert!(!JsonValue::Null.is_object());
    assert!(JsonValue::empty_object().is_object());
}
