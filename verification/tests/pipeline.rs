use std::cell::Cell;

use kivy_jsx_runtime::AstEvaluationResult;
use kivy_jsx_runtime::DeclarativeNode;
use kivy_jsx_runtime::JsonValue;
use kivy_jsx_runtime::JsxExpressionEvaluator;
use kivy_jsx_runtime::NoopJsxEvaluator;
use kivy_jsx_runtime::NoopKivyResolver;
use kivy_jsx_runtime::ResearchRuntimeEngine;
use kivy_jsx_runtime::RuntimeConfig;
use kivy_jsx_runtime::RuntimeResearchError;

fn reference_engine() -> ResearchRuntimeEngine<NoopJsxEvaluator, NoopKivyResolver> {
    ResearchRuntimeEngine::new(NoopJsxEvaluator, NoopKivyResolver, RuntimeConfig::default())
}

struct CountingEvaluator {
    calls: Cell<u32>,
}

impl JsxExpressionEvaluator for CountingEvaluator {
    fn eval_jsx_expression(
        &self,
        _source: &str,
    ) -> Result<AstEvaluationResult, RuntimeResearchError> {
        self.calls.set(self.calls.get() + 1);
        Ok(AstEvaluationResult::new(DeclarativeNode::new("View"), vec![]))
    }
}

#[test]
fn evaluator_rejects_blank_source() {
    match NoopJsxEvaluator::evaluate_source("") {
        Err(RuntimeResearchError::InvalidInput(d)) => assert_eq!(d, "empty JSX/JS payload"),
        _ => panic!("blank source must fail with InvalidInput"),
    }
    match NoopJsxEvaluator::evaluate_source(" \t\n  ") {
        Err(RuntimeResearchError::InvalidInput(_)) => {}
        _ => panic!("all-whitespace source must fail with InvalidInput"),
    }
}

#[test]
fn evaluator_marks_plain_source() {
    let res = NoopJsxEvaluator::evaluate_source("<App/>").unwrap();
    assert_eq!(res.diagnostics, vec!["NO_BUNDLE_SIGNATURE_DETECTED".to_string()]);
}

#[test]
fn evaluator_marks_sentinel_source() {
    let res = NoopJsxEvaluator::evaluate_source("prefix Kivy JSX TODO suffix").unwrap();
    assert_eq!(res.diagnostics, vec!["BUNDLE_TODO_UI_DETECTED".to_string()]);
}

#[test]
fn evaluator_returns_fixture_tree() {
    let res = NoopJsxEvaluator::evaluate_source("anything").unwrap();
    assert_eq!(res.root.kind, "View");
    assert_eq!(res.root.children.len(), 5);
    assert_eq!(res.root.children[0].kind, "Label");
    assert_eq!(res.root.children[1].kind, "Label");
    assert_eq!(res.root.children[2].kind, "Button");
    assert_eq!(res.root.children[3].kind, "Button");
    assert_eq!(res.root.children[4].kind, "Button");
}

#[test]
fn engine_rejects_blank_before_evaluator_runs() {
    let stub = CountingEvaluator { calls: Cell::new(0) };
    let engine = ResearchRuntimeEngine::new(stub, NoopKivyResolver, RuntimeConfig::default());
    match engine.evaluate_and_resolve("") {
        Err(RuntimeResearchError::InvalidInput(d)) => {
            assert_eq!(d, "jsx_source must not be empty")
        }
        _ => panic!("empty source must fail with InvalidInput"),
    }
    match engine.evaluate_and_resolve("   \t\r\n ") {
        Err(RuntimeResearchError::InvalidInput(_)) => {}
        _ => panic!("whitespace source must fail with InvalidInput"),
    }
}

#[test]
fn engine_blank_check_counts_no_evaluator_calls() {
    let engine = ResearchRuntimeEngine::new(
        CountingEvaluator { calls: Cell::new(0) },
        NoopKivyResolver,
        RuntimeConfig::default(),
    );
    let _ = engine.evaluate_and_resolve("");
    let _ = engine.evaluate_and_resolve("  \t ");
    let _ = engine.evaluate_to_ast(" \n");
}

#[test]
fn engine_end_to_end_literal_source() {
    let engine = reference_engine();
    let input = "<View orientation='vertical'><Label text='hello from jsx'/></View>";
    let widget = engine.evaluate_and_resolve(input).unwrap();
    assert_eq!(widget.widget_type, "BoxLayout");
    let labels = widget.children.iter().filter(|c| c.widget_type == "Label").count();
    let buttons = widget.children.iter().filter(|c| c.widget_type == "Button").count();
    assert_eq!(labels, 2);
    assert!(buttons >= 2);
    assert!(widget.validate().is_ok());
}

#[test]
fn engine_json_output_round_trips() {
    let engine = reference_engine();
    let text = engine.evaluate_and_resolve_json("<App/>").unwrap();
    assert!(text.starts_with("{\"widget_type\":\"BoxLayout\""));
    let parsed = kivy_jsx_runtime::WidgetSpec::from_json(&text).unwrap();
    assert_eq!(parsed.widget_type, "BoxLayout");
    assert_eq!(parsed.to_json().unwrap(), text);
}

#[test]
fn engine_to_ast_passes_evaluation_through() {
    let engine = reference_engine();
    let res = engine.evaluate_to_ast("plain").unwrap();
    assert_eq!(res.diagnostics, vec!["NO_BUNDLE_SIGNATURE_DETECTED".to_string()]);
    assert_eq!(res.root.kind, "View");
}

#[test]
fn blank_check_covers_unicode_white_space() {
    let engine = reference_engine();
    match engine.evaluate_and_resolve("\u{2028}\u{00A0}\u{3000} ") {
        Err(RuntimeResearchError::InvalidInput(_)) => {}
        _ => panic!("unicode white space must still count as blank"),
    }
    assert!(engine.evaluate_and_resolve("\u{2028}x").is_ok());
}

#[test]
fn config_default_values() {
    let config = RuntimeConfig::default();
    assert!(config.enable_tracing);
    assert_eq!(config.research_profile, "baseline");
}

#[test]
fn error_descriptions_are_stable() {
    let e1 = RuntimeResearchError::EvaluationFailed("boom".to_string());
    assert_eq!(e1.describe(), "evaluation failed: boom");
    let e2 = RuntimeResearchError::ComponentResolutionFailed("Canvas".to_string());
    assert_eq!(
        e2.describe(),
        "dynamic component resolution failed for 'Canvas'"
    );
    let e3 = RuntimeResearchError::InvalidInput("empty JSX/JS payload".to_string());
    assert_eq!(e3.describe(), "invalid input: empty JSX/JS payload");
    let e4 = RuntimeResearchError::Serialization("bad".to_string());
    assert_eq!(e4.describe(), "serialization error: bad");
}

#[test]
fn status_label_reflects_sentinel() {
    let res = NoopJsxEvaluator::evaluate_source("Kivy JSX TODO").unwrap();
    match &res.root.children[1].props {
        JsonValue::Obj(ms) => match &ms[0].1 {
            JsonValue::Text(t) => {
                assert_eq!(t, "Runtime status: BUNDLE_TODO_UI_DETECTED")
            }
            _ => panic!("status label text must be a string"),
        },
        _ => panic!("label props must be an object"),
    }
}
