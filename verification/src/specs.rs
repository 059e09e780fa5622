//! Declarative source tree model, the evaluation boundary, and the closed
//! error taxonomy shared by the whole pipeline.
use vstd::prelude::*;
use vstd::string::*;

use crate::json::JsonModel;
use crate::json::JsonValue;
use crate::json::arr_add;
use crate::json::arr_new;
use crate::json::obj_add;
use crate::json::obj_new;
use crate::text::contains_seq;
use crate::text::contains_text;
use crate::text::is_blank;
use crate::text::blank_text;

verus! {

/// Mathematical model shared by the two isomorphic tree types: a tag, a
/// JSON-like property payload, and an ordered child list.
#[verifier::ext_equal]
pub struct TreeModel {
    pub tag: Seq<char>,
    pub props: JsonModel,
    pub children: Seq<TreeModel>,
}

/// One element of the declarative source after evaluation.
#[derive(Debug)]
pub struct DeclarativeNode {
    pub kind: String,
    pub props: JsonValue,
    pub children: Vec<DeclarativeNode>,
}

pub open spec fn node_model_of(n: DeclarativeNode) -> TreeModel
    decreases n,
{
    TreeModel { tag: n.kind@, props: n.props@, children: node_models_of(n.children@) }
}

pub open spec fn node_models_of(s: Seq<DeclarativeNode>) -> Seq<TreeModel>
    decreases s,
{
    if s.len() == 0 {
        Seq::empty()
    } else {
        seq![node_model_of(s[0])] + node_models_of(s.drop_first())
    }
}

impl View for DeclarativeNode {
    type V = TreeModel;

    open spec fn view(&self) -> TreeModel {
        node_model_of(*self)
    }
}

pub broadcast proof fn lemma_node_models_of_len(s: Seq<DeclarativeNode>)
    ensures
        (#[trigger] node_models_of(s)).len() == s.len(),
    decreases s,
{
    if s.len() > 0 {
        lemma_node_models_of_len(s.drop_first());
    }
}

pub broadcast proof fn lemma_node_models_of_index(s: Seq<DeclarativeNode>, i: int)
    requires
        0 <= i < s.len(),
    ensures
        #[trigger] node_models_of(s)[i] == node_model_of(s[i]),
    decreases s,
{
    lemma_node_models_of_len(s);
    if i > 0 {
        lemma_node_models_of_index(s.drop_first(), i - 1);
    }
}

pub broadcast proof fn lemma_node_models_of_snoc(s: Seq<DeclarativeNode>, n: DeclarativeNode)
    ensures
        #[trigger] node_models_of(s.push(n)) == node_models_of(s).push(node_model_of(n)),
    decreases s,
{
    if s.len() == 0 {
        assert(s.push(n).drop_first() =~= s);
        assert(node_models_of(s.push(n)) =~= node_models_of(s).push(node_model_of(n)));
    } else {
        assert(s.push(n).drop_first() =~= s.drop_first().push(n));
        lemma_node_models_of_snoc(s.drop_first(), n);
        assert(node_models_of(s.push(n)) =~= node_models_of(s).push(node_model_of(n)));
    }
}

impl DeclarativeNode {
    /// A node of the given kind with an empty property object and no children.
    pub fn new(kind: &str) -> (r: DeclarativeNode)
        ensures
            r@ == (TreeModel {
                tag: kind@,
                props: JsonModel::Obj(Seq::empty()),
                children: Seq::empty(),
            }),
    {
        let r = DeclarativeNode {
            kind: String::from_str(kind),
            props: JsonValue::empty_object(),
            children: Vec::new(),
        };
        proof {
            assert(r@.children =~= Seq::<TreeModel>::empty());
        }
        r
    }

    /// The same node with its property payload replaced.
    pub fn with_props(self, props: JsonValue) -> (r: DeclarativeNode)
        ensures
            r@ == (TreeModel { props: props@, ..self@ }),
    {
        DeclarativeNode { props, ..self }
    }

    /// The same node with its child list replaced.
    pub fn with_children(self, children: Vec<DeclarativeNode>) -> (r: DeclarativeNode)
        ensures
            r@ == (TreeModel { children: node_models_of(children@), ..self@ }),
    {
        DeclarativeNode { children, ..self }
    }
}

/// What one evaluator invocation produced: a source tree root and an ordered
/// list of free-form diagnostic strings.
pub struct AstEvaluationResult {
    pub root: DeclarativeNode,
    pub diagnostics: Vec<String>,
}

impl AstEvaluationResult {
    pub fn new(root: DeclarativeNode, diagnostics: Vec<String>) -> (r: AstEvaluationResult)
        ensures
            r.root == root,
            r.diagnostics == diagnostics,
    {
        AstEvaluationResult { root, diagnostics }
    }
}

/// Closed failure taxonomy; every failure is terminal for its invocation.
#[derive(Debug)]
pub enum RuntimeResearchError {
    /// The evaluator could not produce a tree from the given source.
    EvaluationFailed(String),
    /// The resolver met a source kind it could not map.
    ComponentResolutionFailed(String),
    /// The input broke a precondition: blank source or a structural violation.
    InvalidInput(String),
    /// Tree-to-text or text-to-tree conversion failed.
    Serialization(String),
}

impl RuntimeResearchError {
    /// Human-readable description, one line, stable per variant.
    pub fn describe(&self) -> (r: String)
        ensures
            self matches RuntimeResearchError::EvaluationFailed(d) ==> r@ == "evaluation failed: "@
                + d@,
            self matches RuntimeResearchError::ComponentResolutionFailed(d) ==> r@
                == "dynamic component resolution failed for '"@ + d@ + "'"@,
            self matches RuntimeResearchError::InvalidInput(d) ==> r@ == "invalid input: "@ + d@,
            self matches RuntimeResearchError::Serialization(d) ==> r@ == "serialization error: "@
                + d@,
    {
        match self {
            RuntimeResearchError::EvaluationFailed(d) => String::from_str(
                "evaluation failed: ",
            ).concat(d.as_str()),
            RuntimeResearchError::ComponentResolutionFailed(d) => String::from_str(
                "dynamic component resolution failed for '",
            ).concat(d.as_str()).concat("'"),
            RuntimeResearchError::InvalidInput(d) => String::from_str("invalid input: ").concat(
                d.as_str(),
            ),
            RuntimeResearchError::Serialization(d) => String::from_str(
                "serialization error: ",
            ).concat(d.as_str()),
        }
    }
}

/// Capability "evaluate source text into a source tree plus diagnostics".
/// Any implementation must reject blank source with `InvalidInput`.
pub trait JsxExpressionEvaluator {
    fn eval_jsx_expression(&self, source: &str) -> (r: Result<
        AstEvaluationResult,
        RuntimeResearchError,
    >)
        ensures
            is_blank(source@) ==> (r matches Err(e) && e is InvalidInput),
    ;
}

/// The sentinel substring the reference evaluator looks for.
pub open spec fn sentinel_text() -> Seq<char> {
    "Kivy JSX TODO"@
}

/// Diagnostic marker emitted when the sentinel was seen.
pub open spec fn todo_marker() -> Seq<char> {
    "BUNDLE_TODO_UI_DETECTED"@
}

/// Diagnostic marker emitted when the sentinel was absent.
pub open spec fn plain_marker() -> Seq<char> {
    "NO_BUNDLE_SIGNATURE_DETECTED"@
}

/// Text of the status label inside the fixture tree.
pub open spec fn status_text(todo: bool) -> Seq<char> {
    if todo {
        "Runtime status: BUNDLE_TODO_UI_DETECTED"@
    } else {
        "Runtime status: NO_BUNDLE_SIGNATURE_DETECTED"@
    }
}

/// The fixed tree the reference evaluator returns: one container, two labels,
/// three buttons encoding a checklist. Only the status label text depends on
/// whether the sentinel was seen.
pub open spec fn fixture_root(todo: bool) -> TreeModel {
    TreeModel {
        tag: "View"@,
        props: JsonModel::Obj(
            seq![
                ("orientation"@, JsonModel::Text("vertical"@)),
                (
                    "padding"@,
                    JsonModel::Arr(
                        seq![
                            JsonModel::Int(20),
                            JsonModel::Int(20),
                            JsonModel::Int(20),
                            JsonModel::Int(20),
                        ],
                    ),
                ),
                ("spacing"@, JsonModel::Int(12)),
            ],
        ),
        children: seq![
            TreeModel {
                tag: "Label"@,
                props: JsonModel::Obj(
                    seq![
                        ("text"@, JsonModel::Text("Kivy JSX TODO"@)),
                        ("font_size"@, JsonModel::Int(28)),
                    ],
                ),
                children: Seq::empty(),
            },
            TreeModel {
                tag: "Label"@,
                props: JsonModel::Obj(
                    seq![
                        ("text"@, JsonModel::Text(status_text(todo))),
                        ("font_size"@, JsonModel::Int(14)),
                    ],
                ),
                children: Seq::empty(),
            },
            TreeModel {
                tag: "Button"@,
                props: JsonModel::Obj(
                    seq![("text"@, JsonModel::Text("[x] Set up Rust + Python bridge"@))],
                ),
                children: Seq::empty(),
            },
            TreeModel {
                tag: "Button"@,
                props: JsonModel::Obj(
                    seq![("text"@, JsonModel::Text("[x] Bundle React UI into app.bundle.js"@))],
                ),
                children: Seq::empty(),
            },
            TreeModel {
                tag: "Button"@,
                props: JsonModel::Obj(
                    seq![("text"@, JsonModel::Text("[ ] Show TODO state in Kivy window"@))],
                ),
                children: Seq::empty(),
            },
        ],
    }
}


/// Exactly what the reference evaluation of `source` must return: the blank
/// rejection, or the fixture tree together with the one sentinel-chosen
/// diagnostic marker.
pub open spec fn reference_evaluation(
    source: &str,
    r: Result<AstEvaluationResult, RuntimeResearchError>,
) -> bool {
    &&& is_blank(source@) ==> (r matches Err(e) && e matches
        RuntimeResearchError::InvalidInput(d) && d@ == "empty JSX/JS payload"@)
    &&& !is_blank(source@) ==> (r matches Ok(res) && {
        let todo = contains_seq(source@, sentinel_text());
        &&& res.root@ == fixture_root(todo)
        &&& res.diagnostics@.len() == 1
        &&& res.diagnostics@[0]@ == (if todo {
            todo_marker()
        } else {
            plain_marker()
        })
    })
}

/// Reference evaluator: ignores source syntax and returns the fixed tree,
/// after rejecting blank input.
pub struct NoopJsxEvaluator;

fn label_node(text: &str, font_size: i64) -> (r: DeclarativeNode)
    ensures
        r@ == (TreeModel {
            tag: "Label"@,
            props: JsonModel::Obj(
                seq![
                    ("text"@, JsonModel::Text(text@)),
                    ("font_size"@, JsonModel::Int(font_size as int)),
                ],
            ),
            children: Seq::empty(),
        }),
{
    let mut ms = obj_new();
    obj_add(&mut ms, "text", JsonValue::Text(String::from_str(text)));
    obj_add(&mut ms, "font_size", JsonValue::Int(font_size));
    let r = DeclarativeNode::new("Label").with_props(JsonValue::Obj(ms));
    proof {
        assert(r@.props->Obj_0 =~= seq![
            ("text"@, JsonModel::Text(text@)),
            ("font_size"@, JsonModel::Int(font_size as int)),
        ]);
    }
    r
}

fn button_node(text: &str) -> (r: DeclarativeNode)
    ensures
        r@ == (TreeModel {
            tag: "Button"@,
            props: JsonModel::Obj(seq![("text"@, JsonModel::Text(text@))]),
            children: Seq::empty(),
        }),
{
    let mut ms = obj_new();
    obj_add(&mut ms, "text", JsonValue::Text(String::from_str(text)));
    let r = DeclarativeNode::new("Button").with_props(JsonValue::Obj(ms));
    proof {
        assert(r@.props->Obj_0 =~= seq![("text"@, JsonModel::Text(text@))]);
    }
    r
}

impl NoopJsxEvaluator {
    /// The reference evaluation: blank source is rejected with `InvalidInput`;
    /// any other source yields the fixture tree and exactly one diagnostic
    /// marker, chosen by the sentinel substring check.
    pub fn evaluate_source(source: &str) -> (r: Result<
        AstEvaluationResult,
        RuntimeResearchError,
    >)
        ensures
            reference_evaluation(source, r),
    {
        if blank_text(source) {
            return Err(
                RuntimeResearchError::InvalidInput(String::from_str("empty JSX/JS payload")),
            );
        }
        let todo = contains_text(source, "Kivy JSX TODO");

        let mut root_props = obj_new();
        obj_add(
            &mut root_props,
            "orientation",
            JsonValue::Text(String::from_str("vertical")),
        );
        let mut padding = arr_new();
        arr_add(&mut padding, JsonValue::Int(20));
        arr_add(&mut padding, JsonValue::Int(20));
        arr_add(&mut padding, JsonValue::Int(20));
        arr_add(&mut padding, JsonValue::Int(20));
        let ghost padmodels = crate::json::json_models_of(padding@);
        proof {
            assert(padmodels =~= seq![
                JsonModel::Int(20),
                JsonModel::Int(20),
                JsonModel::Int(20),
                JsonModel::Int(20),
            ]);
        }
        obj_add(&mut root_props, "padding", JsonValue::Arr(padding));
        obj_add(&mut root_props, "spacing", JsonValue::Int(12));

        let status = if todo {
            label_node("Runtime status: BUNDLE_TODO_UI_DETECTED", 14)
        } else {
            label_node("Runtime status: NO_BUNDLE_SIGNATURE_DETECTED", 14)
        };

        let mut children: Vec<DeclarativeNode> = Vec::new();
        let ghost c0 = children@;
        children.push(label_node("Kivy JSX TODO", 28));
        proof {
            lemma_node_models_of_snoc(c0, children@.last());
        }
        let ghost c1 = children@;
        children.push(status);
        proof {
            lemma_node_models_of_snoc(c1, children@.last());
        }
        let ghost c2 = children@;
        children.push(button_node("[x] Set up Rust + Python bridge"));
        proof {
            lemma_node_models_of_snoc(c2, children@.last());
        }
        let ghost c3 = children@;
        children.push(button_node("[x] Bundle React UI into app.bundle.js"));
        proof {
            lemma_node_models_of_snoc(c3, children@.last());
        }
        let ghost c4 = children@;
        children.push(button_node("[ ] Show TODO state in Kivy window"));
        proof {
            lemma_node_models_of_snoc(c4, children@.last());
        }

        let root = DeclarativeNode::new("View").with_props(JsonValue::Obj(root_props))
            .with_children(children);
        proof {
            assert(root@.props->Obj_0 =~~= fixture_root(todo).props->Obj_0);
            assert(root@.children =~= fixture_root(todo).children);
            assert(root@ == fixture_root(todo));
        }

        let mut diagnostics: Vec<String> = Vec::new();
        if todo {
            diagnostics.push(String::from_str("BUNDLE_TODO_UI_DETECTED"));
        } else {
            diagnostics.push(String::from_str("NO_BUNDLE_SIGNATURE_DETECTED"));
        }
        Ok(AstEvaluationResult::new(root, diagnostics))
    }
}

impl JsxExpressionEvaluator for NoopJsxEvaluator {
    fn eval_jsx_expression(&self, source: &str) -> (r: Result<
        AstEvaluationResult,
        RuntimeResearchError,
    >)
        ensures
            reference_evaluation(source, r),
    {
        NoopJsxEvaluator::evaluate_source(source)
    }
}

} // verus!
