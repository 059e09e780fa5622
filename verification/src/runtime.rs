//! Orchestration engine: sequences evaluation, resolution and validation,
//! failing fast and returning the first error unchanged.
use vstd::prelude::*;
use vstd::string::*;

use crate::bridge::DynamicComponentResolver;
use crate::bridge::WidgetSpec;
use crate::bridge::first_violation;
use crate::bridge::jv_of_tree;
use crate::bridge::NoopKivyResolver;
use crate::bridge::lemma_resolution_preserves_structure;
use crate::bridge::map_tag_model;
use crate::bridge::resolve_model;
use crate::bridge::validation_verdict;
use crate::json::ser_value;
use crate::specs::AstEvaluationResult;
use crate::specs::DeclarativeNode;
use crate::specs::NoopJsxEvaluator;
use crate::specs::fixture_root;
use crate::specs::sentinel_text;
use crate::specs::JsxExpressionEvaluator;
use crate::specs::RuntimeResearchError;
use crate::text::blank_text;
use crate::text::contains_seq;
use crate::text::is_blank;

verus! {

/// Immutable engine configuration. The profile label is observational only
/// and never branches the pipeline.
#[derive(Debug, Clone)]
pub struct RuntimeConfig {
    pub enable_tracing: bool,
    pub research_profile: String,
}

impl Default for RuntimeConfig {
    fn default() -> (c: RuntimeConfig)
        ensures
            c.enable_tracing == true,
            c.research_profile@ == "baseline"@,
    {
        RuntimeConfig { enable_tracing: true, research_profile: String::from_str("baseline") }
    }
}

/// The engine owns one evaluator, one resolver and one configuration for its
/// whole lifetime; stages run strictly in sequence per invocation.
pub struct ResearchRuntimeEngine<E, R> where E: JsxExpressionEvaluator, R: DynamicComponentResolver {
    evaluator: E,
    resolver: R,
    config: RuntimeConfig,
}

impl<E, R> ResearchRuntimeEngine<E, R> where E: JsxExpressionEvaluator, R: DynamicComponentResolver {
    /// The evaluator this engine was built with.
    pub closed spec fn evaluator(&self) -> E {
        self.evaluator
    }

    /// The resolver this engine was built with.
    pub closed spec fn resolver(&self) -> R {
        self.resolver
    }

    /// The configuration this engine was built with.
    pub closed spec fn configuration(&self) -> RuntimeConfig {
        self.config
    }

    /// `r` is a result the engine's evaluator can return for `source`:
    /// it satisfies the postcondition of `E::eval_jsx_expression`.
    pub open spec fn evaluation_of(
        &self,
        source: &str,
        r: Result<AstEvaluationResult, RuntimeResearchError>,
    ) -> bool {
        call_ensures(E::eval_jsx_expression, (&self.evaluator(), source), r)
    }

    /// `r` is a result the engine's resolver can return for `node`:
    /// it satisfies the postcondition of `R::create_custom_widget`.
    pub open spec fn resolution_of(
        &self,
        node: &DeclarativeNode,
        r: Result<WidgetSpec, RuntimeResearchError>,
    ) -> bool {
        call_ensures(R::create_custom_widget, (&self.resolver(), node), r)
    }

    /// `w` is a tree the pipeline can produce for `source`: the evaluator can
    /// return some tree whose root the resolver can resolve to `w`.
    pub open spec fn pipeline_ok(&self, source: &str, w: WidgetSpec) -> bool {
        exists|ast: AstEvaluationResult|
            #[trigger] self.evaluation_of(source, Ok(ast)) && self.resolution_of(
                &ast.root,
                Ok(w),
            )
    }

    /// `e` is a failure the pipeline can surface for `source`, returned
    /// unchanged from the first failing stage: the blank check, the
    /// evaluator, the resolver, or validation of the resolved tree.
    pub open spec fn pipeline_err(&self, source: &str, e: RuntimeResearchError) -> bool {
        ||| (is_blank(source@) && (e matches RuntimeResearchError::InvalidInput(d) && d@
            == "jsx_source must not be empty"@))
        ||| self.evaluation_of(source, Err(e))
        ||| exists|ast: AstEvaluationResult|
            #[trigger] self.evaluation_of(source, Ok(ast)) && (self.resolution_of(
                &ast.root,
                Err(e),
            ) || exists|w: WidgetSpec|
                #[trigger] self.resolution_of(&ast.root, Ok(w)) && validation_verdict(
                    w@,
                    Err(e),
                ))
    }

    /// A fresh engine holding exactly the given evaluator, resolver and
    /// configuration.
    pub fn new(evaluator: E, resolver: R, config: RuntimeConfig) -> (r: ResearchRuntimeEngine<
        E,
        R,
    >)
        ensures
            r.evaluator() == evaluator,
            r.resolver() == resolver,
            r.configuration() == config,
    {
        ResearchRuntimeEngine { evaluator, resolver, config }
    }

    /// Full pipeline: blank check, evaluation, resolution, validation, each
    /// stage run strictly in that order. Blank source is rejected before the
    /// evaluator runs. A returned tree passes validation and is the
    /// resolver's output for a root the evaluator produced; a returned error
    /// is the first failing stage's error, unchanged.
    pub fn evaluate_and_resolve(&self, jsx_source: &str) -> (r: Result<
        WidgetSpec,
        RuntimeResearchError,
    >)
        ensures
            is_blank(jsx_source@) ==> (r matches Err(e) && e matches
                RuntimeResearchError::InvalidInput(d) && d@ == "jsx_source must not be empty"@),
            r matches Ok(w) ==> !is_blank(jsx_source@) && first_violation(w@) is None
                && self.pipeline_ok(jsx_source, w),
            r matches Err(e) ==> self.pipeline_err(jsx_source, e),
    {
        if blank_text(jsx_source) {
            return Err(
                RuntimeResearchError::InvalidInput(
                    String::from_str("jsx_source must not be empty"),
                ),
            );
        }
        let evaluated = self.evaluator.eval_jsx_expression(jsx_source);
        proof {
            assert(self.evaluation_of(jsx_source, evaluated));
        }
        let ast = match evaluated {
            Ok(ast) => ast,
            Err(e) => {
                return Err(e);
            },
        };
        let resolved = self.resolver.create_custom_widget(&ast.root);
        proof {
            assert(self.evaluation_of(jsx_source, Ok(ast)));
            assert(self.resolution_of(&ast.root, resolved));
        }
        let widget = match resolved {
            Ok(widget) => widget,
            Err(e) => {
                return Err(e);
            },
        };
        let checked = widget.validate();
        proof {
            assert(self.resolution_of(&ast.root, Ok(widget)));
        }
        match checked {
            Ok(_) => Ok(widget),
            Err(e) => Err(e),
        }
    }

    /// Blank check, then evaluation only: for callers that want the source
    /// tree and its diagnostics without resolution. On non-blank source the
    /// result is the evaluator's own.
    pub fn evaluate_to_ast(&self, jsx_source: &str) -> (r: Result<
        AstEvaluationResult,
        RuntimeResearchError,
    >)
        ensures
            is_blank(jsx_source@) ==> (r matches Err(e) && e matches
                RuntimeResearchError::InvalidInput(d) && d@ == "jsx_source must not be empty"@),
            !is_blank(jsx_source@) ==> self.evaluation_of(jsx_source, r),
    {
        if blank_text(jsx_source) {
            return Err(
                RuntimeResearchError::InvalidInput(
                    String::from_str("jsx_source must not be empty"),
                ),
            );
        }
        let r = self.evaluator.eval_jsx_expression(jsx_source);
        proof {
            assert(self.evaluation_of(jsx_source, r));
        }
        r
    }

    /// Full pipeline followed by canonical JSON serialization: any returned
    /// text is the canonical form of the validated tree the pipeline
    /// produced, and any error is the pipeline's own, unchanged.
    pub fn evaluate_and_resolve_json(&self, jsx_source: &str) -> (r: Result<
        String,
        RuntimeResearchError,
    >)
        ensures
            is_blank(jsx_source@) ==> (r matches Err(e) && e matches
                RuntimeResearchError::InvalidInput(d) && d@ == "jsx_source must not be empty"@),
            r matches Ok(text) ==> !is_blank(jsx_source@) && exists|w: WidgetSpec|
                #[trigger] self.pipeline_ok(jsx_source, w) && first_violation(w@) is None
                    && text@ == ser_value(jv_of_tree(w@)),
            r matches Err(e) ==> self.pipeline_err(jsx_source, e),
    {
        let widget = match self.evaluate_and_resolve(jsx_source) {
            Ok(widget) => widget,
            Err(e) => {
                return Err(e);
            },
        };
        let r = widget.to_json();
        proof {
            if r is Ok {
                assert(first_violation(widget@) is None && r->Ok_0@ == ser_value(
                    jv_of_tree(widget@),
                ));
            }
        }
        r
    }
}



/// End to end, from the contracts alone: any tree the reference pipeline
/// (reference evaluator, reference resolver) can produce for a non-blank
/// source is the resolution of the fixture tree for that source, so its root
/// resolves to `BoxLayout` over two labels and three buttons.
pub proof fn lemma_reference_pipeline_output(
    engine: ResearchRuntimeEngine<NoopJsxEvaluator, NoopKivyResolver>,
    source: &str,
    w: WidgetSpec,
)
    requires
        engine.pipeline_ok(source, w),
        !is_blank(source@),
    ensures
        w@ == resolve_model(fixture_root(contains_seq(source@, sentinel_text()))),
        w@.tag == "BoxLayout"@,
        w@.children.len() == 5,
        w@.children[0].tag == "Label"@,
        w@.children[1].tag == "Label"@,
        w@.children[2].tag == "Button"@,
        w@.children[3].tag == "Button"@,
        w@.children[4].tag == "Button"@,
{
    let ast = choose|ast: AstEvaluationResult|
        #[trigger] engine.evaluation_of(source, Ok(ast)) && engine.resolution_of(
            &ast.root,
            Ok(w),
        );
    let todo = contains_seq(source@, sentinel_text());
    assert(ast.root@ == fixture_root(todo));
    assert(w@ == resolve_model(ast.root@));
    assert(w@.tag == map_tag_model("View"@));
    reveal_strlit("View");
    reveal_strlit("Label");
    reveal_strlit("Button");
    assert("Label"@.len() == 5 && "View"@.len() == 4 && "Button"@.len() == 6);
    assert("Label"@ != "View"@);
    assert("Button"@ != "View"@);
    lemma_resolution_preserves_structure(ast.root@);
    assert(w@.children[0] == resolve_model(fixture_root(todo).children[0]));
    assert(w@.children[1] == resolve_model(fixture_root(todo).children[1]));
    assert(w@.children[2] == resolve_model(fixture_root(todo).children[2]));
    assert(w@.children[3] == resolve_model(fixture_root(todo).children[3]));
    assert(w@.children[4] == resolve_model(fixture_root(todo).children[4]));
}

} // verus!
