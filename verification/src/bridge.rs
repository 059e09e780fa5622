//! Target widget tree, its structural validation, canonical JSON output, and
//! the node-by-node resolution boundary from source trees to widget trees.
use vstd::prelude::*;
use vstd::string::*;

use crate::json::JsonModel;
use crate::json::JsonValue;
use crate::json::ser_elems;
use crate::json::ser_members;
use crate::json::ser_text;
use crate::json::ser_value;
use crate::json::lemma_ser_elems_snoc;
use crate::json::model_in_range;
use crate::json::member_models_in_range;
use crate::json::models_in_range;
use crate::json::text_in_range;
use crate::json::parse_json;
use crate::json::parse_json_text;
use crate::json::lemma_json_member_models_of_index;
use crate::json::lemma_json_member_models_of_len;
use crate::json::write_text;
use crate::json::write_value;
use crate::specs::DeclarativeNode;
use crate::specs::RuntimeResearchError;
use crate::specs::TreeModel;
use crate::specs::node_models_of;
use crate::specs::lemma_node_models_of_index;
use crate::specs::lemma_node_models_of_len;
use crate::text::blank_text;
use crate::text::is_blank;
use crate::text::str_eq;

verus! {

/// One node of the resolved output tree, handed to the embedding layer.
#[derive(Debug)]
pub struct WidgetSpec {
    pub widget_type: String,
    pub props: JsonValue,
    pub children: Vec<WidgetSpec>,
}

pub open spec fn widget_model_of(w: WidgetSpec) -> TreeModel
    decreases w,
{
    TreeModel { tag: w.widget_type@, props: w.props@, children: widget_models_of(w.children@) }
}

pub open spec fn widget_models_of(s: Seq<WidgetSpec>) -> Seq<TreeModel>
    decreases s,
{
    if s.len() == 0 {
        Seq::empty()
    } else {
        seq![widget_model_of(s[0])] + widget_models_of(s.drop_first())
    }
}

impl View for WidgetSpec {
    type V = TreeModel;

    open spec fn view(&self) -> TreeModel {
        widget_model_of(*self)
    }
}

pub broadcast proof fn lemma_widget_models_of_len(s: Seq<WidgetSpec>)
    ensures
        (#[trigger] widget_models_of(s)).len() == s.len(),
    decreases s,
{
    if s.len() > 0 {
        lemma_widget_models_of_len(s.drop_first());
    }
}

pub broadcast proof fn lemma_widget_models_of_index(s: Seq<WidgetSpec>, i: int)
    requires
        0 <= i < s.len(),
    ensures
        #[trigger] widget_models_of(s)[i] == widget_model_of(s[i]),
    decreases s,
{
    lemma_widget_models_of_len(s);
    if i > 0 {
        lemma_widget_models_of_index(s.drop_first(), i - 1);
    }
}

pub broadcast proof fn lemma_widget_models_of_snoc(s: Seq<WidgetSpec>, w: WidgetSpec)
    ensures
        #[trigger] widget_models_of(s.push(w)) == widget_models_of(s).push(widget_model_of(w)),
    decreases s,
{
    if s.len() == 0 {
        assert(s.push(w).drop_first() =~= s);
        assert(widget_models_of(s.push(w)) =~= widget_models_of(s).push(widget_model_of(w)));
    } else {
        assert(s.push(w).drop_first() =~= s.drop_first().push(w));
        lemma_widget_models_of_snoc(s.drop_first(), w);
        assert(widget_models_of(s.push(w)) =~= widget_models_of(s).push(widget_model_of(w)));
    }
}

/// Exactly what validating the tree `t` must return: `Ok` when no constraint
/// is violated, else `InvalidInput` naming the first violated constraint in
/// depth-first order.
pub open spec fn validation_verdict(t: TreeModel, r: Result<(), RuntimeResearchError>) -> bool {
    match first_violation(t) {
        None => r is Ok,
        Some(TreeFault::BlankTag) => r matches Err(e) && e matches
            RuntimeResearchError::InvalidInput(d) && d@ == "widget_type must not be empty"@,
        Some(TreeFault::PropsNotObject) => r matches Err(e) && e matches
            RuntimeResearchError::InvalidInput(d) && d@ == "widget props must be a JSON object"@,
    }
}

/// The two structural constraints a widget tree can break.
pub enum TreeFault {
    /// `widget_type` is empty after trimming white space.
    BlankTag,
    /// `props` is not a JSON object.
    PropsNotObject,
}

/// The first violated constraint in depth-first order, if any: the node's own
/// tag first, then its props, then its children left to right.
pub open spec fn first_violation(t: TreeModel) -> Option<TreeFault>
    decreases t,
{
    if is_blank(t.tag) {
        Some(TreeFault::BlankTag)
    } else if !(t.props is Obj) {
        Some(TreeFault::PropsNotObject)
    } else {
        first_violation_seq(t.children)
    }
}

pub open spec fn first_violation_seq(s: Seq<TreeModel>) -> Option<TreeFault>
    decreases s,
{
    if s.len() == 0 {
        None
    } else if first_violation(s[0]) is Some {
        first_violation(s[0])
    } else {
        first_violation_seq(s.drop_first())
    }
}

proof fn lemma_first_violation_seq_skip(s: Seq<TreeModel>, i: int)
    requires
        0 <= i <= s.len(),
        forall|j: int| 0 <= j < i ==> first_violation(#[trigger] s[j]) is None,
    ensures
        first_violation_seq(s) == first_violation_seq(s.skip(i)),
    decreases i,
{
    if i > 0 {
        lemma_first_violation_seq_skip(s, i - 1);
        assert(s.skip(i - 1)[0] == s[i - 1]);
        assert(s.skip(i - 1).drop_first() =~= s.skip(i));
    } else {
        assert(s.skip(0) =~= s);
    }
}

/// Canonical JSON form of a widget tree: an object with exactly the keys
/// `widget_type`, `props` and `children`, recursively.
pub open spec fn jv_of_tree(t: TreeModel) -> JsonModel
    decreases t,
{
    JsonModel::Obj(
        seq![
            ("widget_type"@, JsonModel::Text(t.tag)),
            ("props"@, t.props),
            ("children"@, JsonModel::Arr(jvs_of_trees(t.children))),
        ],
    )
}

pub open spec fn jvs_of_trees(s: Seq<TreeModel>) -> Seq<JsonModel>
    decreases s,
{
    if s.len() == 0 {
        Seq::empty()
    } else {
        seq![jv_of_tree(s[0])] + jvs_of_trees(s.drop_first())
    }
}

pub broadcast proof fn lemma_jvs_of_trees_len(s: Seq<TreeModel>)
    ensures
        (#[trigger] jvs_of_trees(s)).len() == s.len(),
    decreases s,
{
    if s.len() > 0 {
        lemma_jvs_of_trees_len(s.drop_first());
    }
}

pub broadcast proof fn lemma_jvs_of_trees_index(s: Seq<TreeModel>, i: int)
    requires
        0 <= i < s.len(),
    ensures
        #[trigger] jvs_of_trees(s)[i] == jv_of_tree(s[i]),
    decreases s,
{
    lemma_jvs_of_trees_len(s);
    if i > 0 {
        lemma_jvs_of_trees_index(s.drop_first(), i - 1);
    }
}

impl WidgetSpec {
    /// A widget of the given type with an empty property object, no children.
    pub fn new(widget_type: &str) -> (r: WidgetSpec)
        ensures
            r@ == (TreeModel {
                tag: widget_type@,
                props: JsonModel::Obj(Seq::empty()),
                children: Seq::empty(),
            }),
    {
        let r = WidgetSpec {
            widget_type: String::from_str(widget_type),
            props: JsonValue::empty_object(),
            children: Vec::new(),
        };
        proof {
            assert(r@.children =~= Seq::<TreeModel>::empty());
        }
        r
    }

    /// The same widget with its property payload replaced.
    pub fn with_props(self, props: JsonValue) -> (r: WidgetSpec)
        ensures
            r@ == (TreeModel { props: props@, ..self@ }),
    {
        WidgetSpec { props, ..self }
    }

    /// The same widget with its child list replaced.
    pub fn with_children(self, children: Vec<WidgetSpec>) -> (r: WidgetSpec)
        ensures
            r@ == (TreeModel { children: widget_models_of(children@), ..self@ }),
    {
        WidgetSpec { children, ..self }
    }

    /// Recursive structural validation: reports the first violation in
    /// depth-first order as `InvalidInput`, naming the broken constraint.
    /// Takes the tree by shared reference and so mutates nothing.
    #[verifier::loop_isolation(false)]
    pub fn validate(&self) -> (r: Result<(), RuntimeResearchError>)
        ensures
            validation_verdict(self@, r),
        decreases *self,
    {
        if blank_text(self.widget_type.as_str()) {
            return Err(
                RuntimeResearchError::InvalidInput(
                    String::from_str("widget_type must not be empty"),
                ),
            );
        }
        if !self.props.is_object() {
            return Err(
                RuntimeResearchError::InvalidInput(
                    String::from_str("widget props must be a JSON object"),
                ),
            );
        }
        let ghost models = widget_models_of(self.children@);
        proof {
            lemma_widget_models_of_len(self.children@);
        }
        let mut i: usize = 0;
        while i < self.children.len()
            invariant
                0 <= i <= self.children@.len(),
                forall|j: int| 0 <= j < i ==> first_violation(#[trigger] models[j]) is None,
            decreases self.children@.len() - i,
        {
            proof {
                assert(decreases_to!(*self => self.children));
                assert(decreases_to!(self.children => self.children@[i as int]));
            }
            let child_check = self.children[i].validate();
            proof {
                lemma_widget_models_of_index(self.children@, i as int);
            }
            match child_check {
                Err(e) => {
                    proof {
                        lemma_first_violation_seq_skip(models, i as int);
                        assert(models.skip(i as int)[0] == models[i as int]);
                        assert(first_violation_seq(models) == first_violation(models[i as int]));
                    }
                    return Err(e);
                },
                Ok(_) => {},
            }
            i += 1;
        }
        proof {
            lemma_first_violation_seq_skip(models, models.len() as int);
            assert(models.skip(models.len() as int) =~= Seq::<TreeModel>::empty());
        }
        Ok(())
    }

    /// Canonical compact JSON text of a validated tree; an invalid tree is
    /// rejected exactly as `validate` rejects it.
    pub fn to_json(&self) -> (r: Result<String, RuntimeResearchError>)
        ensures
            match first_violation(self@) {
                None => r matches Ok(text) && text@ == ser_value(jv_of_tree(self@)),
                Some(TreeFault::BlankTag) => r matches Err(e) && e matches
                    RuntimeResearchError::InvalidInput(d) && d@
                    == "widget_type must not be empty"@,
                Some(TreeFault::PropsNotObject) => r matches Err(e) && e matches
                    RuntimeResearchError::InvalidInput(d) && d@
                    == "widget props must be a JSON object"@,
            },
    {
        match self.validate() {
            Err(e) => Err(e),
            Ok(_) => {
                let mut out = String::new();
                write_widget(self, &mut out);
                Ok(out)
            },
        }
    }
}

/// Appends the canonical JSON text of the widget tree to `out`.
#[verifier::loop_isolation(false)]
#[verifier::spinoff_prover]
#[verifier::rlimit(100)]
pub fn write_widget(w: &WidgetSpec, out: &mut String)
    ensures
        final(out)@ == old(out)@ + ser_value(jv_of_tree(w@)),
    decreases *w,
{
    out.push('{');
    write_text("widget_type", out);
    out.push(':');
    write_text(w.widget_type.as_str(), out);
    out.push(',');
    write_text("props", out);
    out.push(':');
    write_value(&w.props, out);
    out.push(',');
    write_text("children", out);
    out.push(':');
    out.push('[');
    let ghost models = widget_models_of(w.children@);
    let ghost jvs = jvs_of_trees(models);
    proof {
        lemma_widget_models_of_len(w.children@);
        lemma_jvs_of_trees_len(models);
    }
    let ghost mid = out@;
    let mut i: usize = 0;
    while i < w.children.len()
        invariant
            0 <= i <= w.children@.len(),
            out@ == mid + ser_elems(jvs.take(i as int)),
        decreases w.children@.len() - i,
    {
        if i > 0 {
            out.push(',');
        }
        proof {
            assert(decreases_to!(*w => w.children));
            assert(decreases_to!(w.children => w.children@[i as int]));
        }
        write_widget(&w.children[i], out);
        proof {
            lemma_widget_models_of_index(w.children@, i as int);
            lemma_jvs_of_trees_index(models, i as int);
            lemma_ser_elems_snoc(jvs.take(i as int), jvs[i as int]);
            assert(jvs.take(i as int + 1) =~= jvs.take(i as int).push(jvs[i as int]));
            assert(out@ =~= mid + ser_elems(jvs.take(i as int + 1)));
        }
        i += 1;
    }
    out.push(']');
    out.push('}');
    proof {
        assert(jvs.take(jvs.len() as int) =~= jvs);
        let members = jv_of_tree(w@)->Obj_0;
        assert(members[0] == ("widget_type"@, JsonModel::Text(w@.tag)));
        assert(members[1] == ("props"@, w@.props));
        assert(members[2] == ("children"@, JsonModel::Arr(jvs)));
        assert(members.drop_first() =~= members.skip(1));
        assert(members.skip(1).drop_first() =~= members.skip(2));
        assert(members.skip(1).len() == 2 && members.skip(2).len() == 1);
        assert(ser_members(members.skip(2)) == ser_text("children"@) + seq![':'] + ser_value(
            members[2].1,
        ));
        assert(ser_members(members.skip(1)) == ser_text("props"@) + seq![':'] + ser_value(
            members[1].1,
        ) + seq![','] + ser_members(members.skip(2)));
        assert(ser_members(members) == ser_text("widget_type"@) + seq![':'] + ser_value(
            members[0].1,
        ) + seq![','] + ser_members(members.skip(1)));
        assert(ser_value(jv_of_tree(w@)) == seq!['{'] + ser_members(members) + seq!['}']);
        assert(ser_value(members[2].1) == seq!['['] + ser_elems(jvs) + seq![']']);
        assert(final(out)@ =~= old(out)@ + ser_value(jv_of_tree(w@)));
    }
}

/// The fixed tag-rename table of the reference resolver; unrecognized tags
/// pass through unchanged.
pub open spec fn map_tag_model(t: Seq<char>) -> Seq<char> {
    if t == "View"@ {
        "BoxLayout"@
    } else {
        t
    }
}

/// Reference resolution: rename the tag, keep the props, resolve the children
/// in order. It never fails on its own.
pub open spec fn resolve_model(t: TreeModel) -> TreeModel
    decreases t,
{
    TreeModel {
        tag: map_tag_model(t.tag),
        props: t.props,
        children: resolve_models(t.children),
    }
}

pub open spec fn resolve_models(s: Seq<TreeModel>) -> Seq<TreeModel>
    decreases s,
{
    if s.len() == 0 {
        Seq::empty()
    } else {
        seq![resolve_model(s[0])] + resolve_models(s.drop_first())
    }
}

pub broadcast proof fn lemma_resolve_models_len(s: Seq<TreeModel>)
    ensures
        (#[trigger] resolve_models(s)).len() == s.len(),
    decreases s,
{
    if s.len() > 0 {
        lemma_resolve_models_len(s.drop_first());
    }
}

pub broadcast proof fn lemma_resolve_models_index(s: Seq<TreeModel>, i: int)
    requires
        0 <= i < s.len(),
    ensures
        #[trigger] resolve_models(s)[i] == resolve_model(s[i]),
    decreases s,
{
    lemma_resolve_models_len(s);
    if i > 0 {
        lemma_resolve_models_index(s.drop_first(), i - 1);
    }
}

/// Resolution is structure preserving under the reference resolver: the
/// resolved node has exactly as many children as its source node, each child
/// the resolution of the source child at the same index.
pub proof fn lemma_resolution_preserves_structure(t: TreeModel)
    ensures
        resolve_model(t).children.len() == t.children.len(),
        forall|i: int| 0 <= i < t.children.len() ==> resolve_model(t).children[i] == resolve_model(
            #[trigger] t.children[i],
        ),
{
    lemma_resolve_models_len(t.children);
    assert forall|i: int| 0 <= i < t.children.len() implies resolve_model(t).children[i]
        == resolve_model(t.children[i]) by {
        lemma_resolve_models_index(t.children, i);
    }
}

/// Capability "turn one source node, children included, into a widget node".
pub trait DynamicComponentResolver {
    fn create_custom_widget(&self, node: &DeclarativeNode) -> (r: Result<
        WidgetSpec,
        RuntimeResearchError,
    >);
}

/// Reference resolver with the small static tag mapping.
pub struct NoopKivyResolver;

impl NoopKivyResolver {
    /// The exact-match rename table: `View` becomes `BoxLayout`; `Label` and
    /// `Button` map to themselves; anything else passes through unchanged.
    pub fn map_tag(tag: &str) -> (r: &str)
        ensures
            r@ == map_tag_model(tag@),
    {
        if str_eq(tag, "View") {
            "BoxLayout"
        } else if str_eq(tag, "Label") {
            "Label"
        } else if str_eq(tag, "Button") {
            "Button"
        } else {
            tag
        }
    }

    /// Resolves one source node bottom-up: children first, in input order,
    /// then the renamed parent with the resolved children attached.
    #[verifier::loop_isolation(false)]
    pub fn resolve_node(node: &DeclarativeNode) -> (r: WidgetSpec)
        ensures
            r@ == resolve_model(node@),
        decreases *node,
    {
        let ghost models = node_models_of(node.children@);
        proof {
            lemma_node_models_of_len(node.children@);
        }
        let mut children: Vec<WidgetSpec> = Vec::new();
        let mut i: usize = 0;
        while i < node.children.len()
            invariant
                0 <= i <= node.children@.len(),
                children@.len() == i,
                widget_models_of(children@) == resolve_models(models.take(i as int)),
            decreases node.children@.len() - i,
        {
            proof {
                assert(decreases_to!(*node => node.children));
                assert(decreases_to!(node.children => node.children@[i as int]));
            }
            let c = NoopKivyResolver::resolve_node(&node.children[i]);
            let ghost prev = children@;
            children.push(c);
            proof {
                lemma_node_models_of_index(node.children@, i as int);
                lemma_widget_models_of_snoc(prev, c);
                assert(models.take(i as int + 1) =~= models.take(i as int).push(models[i as int]));
                lemma_resolve_models_snoc(models.take(i as int), models[i as int]);
            }
            i += 1;
        }
        proof {
            assert(models.take(models.len() as int) =~= models);
        }
        let widget_type = String::from_str(NoopKivyResolver::map_tag(node.kind.as_str()));
        let props = node.props.duplicate();
        let r = WidgetSpec { widget_type, props, children };
        r
    }
}

pub broadcast proof fn lemma_resolve_models_snoc(s: Seq<TreeModel>, t: TreeModel)
    ensures
        #[trigger] resolve_models(s.push(t)) == resolve_models(s).push(resolve_model(t)),
    decreases s,
{
    if s.len() == 0 {
        assert(s.push(t).drop_first() =~= s);
        assert(resolve_models(s.push(t)) =~= resolve_models(s).push(resolve_model(t)));
    } else {
        assert(s.push(t).drop_first() =~= s.drop_first().push(t));
        lemma_resolve_models_snoc(s.drop_first(), t);
        assert(resolve_models(s.push(t)) =~= resolve_models(s).push(resolve_model(t)));
    }
}

impl DynamicComponentResolver for NoopKivyResolver {
    fn create_custom_widget(&self, node: &DeclarativeNode) -> (r: Result<
        WidgetSpec,
        RuntimeResearchError,
    >)
        ensures
            r matches Ok(w) && w@ == resolve_model(node@),
    {
        Ok(NoopKivyResolver::resolve_node(node))
    }
}

/// Validation is recursive and reports the nested fault: in a tree whose tags
/// are all present but where some node, however deep, carries non-object
/// props, validation fails with the props constraint, not a tag complaint.
pub proof fn lemma_validation_flags_nested_props(t: TreeModel)
    requires
        all_tags_present(t),
        some_props_not_object(t),
    ensures
        first_violation(t) == Some(TreeFault::PropsNotObject),
    decreases t,
{
    if t.props is Obj {
        lemma_validation_flags_nested_props_seq(t.children);
    }
}

proof fn lemma_validation_flags_nested_props_seq(s: Seq<TreeModel>)
    requires
        all_tags_present_seq(s),
        some_props_not_object_seq(s),
    ensures
        first_violation_seq(s) == Some(TreeFault::PropsNotObject),
    decreases s,
{
    if s.len() > 0 {
        if some_props_not_object(s[0]) {
            lemma_validation_flags_nested_props(s[0]);
        } else {
            lemma_first_violation_none_when_clean(s[0]);
            lemma_validation_flags_nested_props_seq(s.drop_first());
        }
    }
}

proof fn lemma_first_violation_none_when_clean(t: TreeModel)
    requires
        all_tags_present(t),
        !some_props_not_object(t),
    ensures
        first_violation(t) is None,
    decreases t,
{
    lemma_first_violation_none_when_clean_seq(t.children);
}

proof fn lemma_first_violation_none_when_clean_seq(s: Seq<TreeModel>)
    requires
        all_tags_present_seq(s),
        !some_props_not_object_seq(s),
    ensures
        first_violation_seq(s) is None,
    decreases s,
{
    if s.len() > 0 {
        lemma_first_violation_none_when_clean(s[0]);
        lemma_first_violation_none_when_clean_seq(s.drop_first());
    }
}

/// Every node in the tree has a non-blank tag.
pub open spec fn all_tags_present(t: TreeModel) -> bool
    decreases t,
{
    !is_blank(t.tag) && all_tags_present_seq(t.children)
}

pub open spec fn all_tags_present_seq(s: Seq<TreeModel>) -> bool
    decreases s,
{
    if s.len() == 0 {
        true
    } else {
        all_tags_present(s[0]) && all_tags_present_seq(s.drop_first())
    }
}

/// Some node in the tree carries props that are not a JSON object.
pub open spec fn some_props_not_object(t: TreeModel) -> bool
    decreases t,
{
    !(t.props is Obj) || some_props_not_object_seq(t.children)
}

pub open spec fn some_props_not_object_seq(s: Seq<TreeModel>) -> bool
    decreases s,
{
    if s.len() == 0 {
        false
    } else {
        some_props_not_object(s[0]) || some_props_not_object_seq(s.drop_first())
    }
}

/// Validation is a function of the tree alone: validating the same unmodified
/// tree twice gives the identical verdict, and `validate` takes the tree by
/// shared reference, so nothing is mutated between the two calls.
pub proof fn lemma_validate_idempotent(t1: TreeModel, t2: TreeModel)
    requires
        t1 == t2,
    ensures
        first_violation(t1) == first_violation(t2),
{
}


/// Shape check for the wire format: an object with exactly the keys
/// `widget_type` (a string), `props` (any value) and `children` (an array of
/// the same shape), in that order.
pub open spec fn tree_of_jv(j: JsonModel) -> Option<TreeModel>
    decreases j,
{
    match j {
        JsonModel::Obj(ms) => if ms.len() == 3 && ms[0].0 == "widget_type"@ && ms[0].1 is Text
            && ms[1].0 == "props"@ && ms[2].0 == "children"@ && ms[2].1 is Arr {
            match trees_of_jvs(ms[2].1->Arr_0) {
                Some(children) => Some(
                    TreeModel { tag: ms[0].1->Text_0, props: ms[1].1, children },
                ),
                None => None,
            }
        } else {
            None
        },
        _ => None,
    }
}

pub open spec fn trees_of_jvs(s: Seq<JsonModel>) -> Option<Seq<TreeModel>>
    decreases s,
{
    if s.len() == 0 {
        Some(Seq::empty())
    } else {
        match (tree_of_jv(s[0]), trees_of_jvs(s.drop_first())) {
            (Some(t), Some(rest)) => Some(seq![t] + rest),
            _ => None,
        }
    }
}

pub proof fn lemma_trees_of_jvs_snoc(s: Seq<JsonModel>, x: JsonModel)
    ensures
        tree_of_jv(x) is Some && trees_of_jvs(s) is Some ==> trees_of_jvs(s.push(x)) == Some(
            trees_of_jvs(s)->Some_0.push(tree_of_jv(x)->Some_0),
        ),
        tree_of_jv(x) is None ==> trees_of_jvs(s.push(x)) is None,
    decreases s,
{
    if s.len() == 0 {
        assert(s.push(x)[0] == x);
        assert(s.push(x).drop_first() =~= s);
        if tree_of_jv(x) is Some {
            assert(trees_of_jvs(s.push(x))->Some_0 =~= trees_of_jvs(s)->Some_0.push(
                tree_of_jv(x)->Some_0,
            ));
        }
    } else {
        assert(s.push(x).drop_first() =~= s.drop_first().push(x));
        lemma_trees_of_jvs_snoc(s.drop_first(), x);
        if tree_of_jv(x) is Some && trees_of_jvs(s) is Some {
            assert(trees_of_jvs(s.push(x))->Some_0 =~= trees_of_jvs(s)->Some_0.push(
                tree_of_jv(x)->Some_0,
            ));
        }
    }
}

pub proof fn lemma_trees_of_jvs_fail(s: Seq<JsonModel>, i: int)
    requires
        0 <= i < s.len(),
        tree_of_jv(s[i]) is None,
    ensures
        trees_of_jvs(s) is None,
    decreases s,
{
    if s.len() > 0 {
        if i == 0 {
        } else {
            lemma_trees_of_jvs_fail(s.drop_first(), i - 1);
        }
    }
}

/// Builds a widget tree from a parsed JSON value of the right shape.
#[verifier::loop_isolation(false)]
fn widget_of_value(v: &JsonValue) -> (r: Option<WidgetSpec>)
    ensures
        match tree_of_jv(v@) {
            Some(t) => r matches Some(w) && w@ == t,
            None => r is None,
        },
    decreases *v,
{
    match v {
        JsonValue::Obj(ms) => {
            proof {
                lemma_json_member_models_of_len(ms@);
            }
            if ms.len() != 3 {
                return None;
            }
            proof {
                lemma_json_member_models_of_index(ms@, 0);
                lemma_json_member_models_of_index(ms@, 1);
                lemma_json_member_models_of_index(ms@, 2);
            }
            if !str_eq(ms[0].0.as_str(), "widget_type") {
                return None;
            }
            if !str_eq(ms[1].0.as_str(), "props") {
                return None;
            }
            if !str_eq(ms[2].0.as_str(), "children") {
                return None;
            }
            let tag: String = match &ms[0].1 {
                JsonValue::Text(t) => t.clone(),
                _ => {
                    return None;
                },
            };
            let es: &Vec<JsonValue> = match &ms[2].1 {
                JsonValue::Arr(es) => es,
                _ => {
                    return None;
                },
            };
            let ghost elem_models = crate::json::json_models_of(es@);
            proof {
                crate::json::lemma_json_models_of_len(es@);
            }
            let mut children: Vec<WidgetSpec> = Vec::new();
            let mut i: usize = 0;
            while i < es.len()
                invariant
                    0 <= i <= es@.len(),
                    children@.len() == i,
                    trees_of_jvs(elem_models.take(i as int)) == Some(
                        widget_models_of(children@),
                    ),
                decreases es@.len() - i,
            {
                proof {
                    assert(decreases_to!(*v => *ms));
                    assert(decreases_to!(*ms => ms@[2]));
                    assert(decreases_to!(ms@[2] => ms@[2].1));
                    assert(decreases_to!(ms@[2].1 => *es));
                    assert(decreases_to!(*es => es@[i as int]));
                }
                let c = widget_of_value(&es[i]);
                proof {
                    crate::json::lemma_json_models_of_index(es@, i as int);
                }
                match c {
                    Some(w) => {
                        let ghost prev = children@;
                        children.push(w);
                        proof {
                            lemma_widget_models_of_snoc(prev, w);
                            assert(elem_models.take(i as int + 1) =~= elem_models.take(
                                i as int,
                            ).push(elem_models[i as int]));
                            lemma_trees_of_jvs_snoc(
                                elem_models.take(i as int),
                                elem_models[i as int],
                            );
                        }
                    },
                    None => {
                        proof {
                            lemma_trees_of_jvs_fail(elem_models, i as int);
                        }
                        return None;
                    },
                }
                i += 1;
            }
            proof {
                assert(elem_models.take(elem_models.len() as int) =~= elem_models);
            }
            let props = ms[1].1.duplicate();
            Some(WidgetSpec { widget_type: tag, props, children })
        },
        _ => {
            return None;
        },
    }
}

impl WidgetSpec {
    /// Parses the canonical JSON text back into a validated widget tree.
    /// Malformed text or a wrong shape is a `Serialization` failure; a
    /// well-shaped but structurally invalid tree fails as `validate` does.
    pub fn from_json(text: &str) -> (r: Result<WidgetSpec, RuntimeResearchError>)
        ensures
            match parse_json_text(text@) {
                None => r matches Err(e) && e matches RuntimeResearchError::Serialization(d) && d@
                    == "malformed JSON text"@,
                Some(jm) => match tree_of_jv(jm) {
                    None => r matches Err(e) && e matches RuntimeResearchError::Serialization(d)
                        && d@ == "unexpected JSON shape"@,
                    Some(t) => match first_violation(t) {
                        None => r matches Ok(w) && w@ == t,
                        Some(TreeFault::BlankTag) => r matches Err(e) && e matches
                            RuntimeResearchError::InvalidInput(d) && d@
                            == "widget_type must not be empty"@,
                        Some(TreeFault::PropsNotObject) => r matches Err(e) && e matches
                            RuntimeResearchError::InvalidInput(d) && d@
                            == "widget props must be a JSON object"@,
                    },
                },
            },
    {
        let parsed = match parse_json(text) {
            Some(v) => v,
            None => {
                return Err(
                    RuntimeResearchError::Serialization(String::from_str("malformed JSON text")),
                );
            },
        };
        let widget = match widget_of_value(&parsed) {
            Some(w) => w,
            None => {
                return Err(
                    RuntimeResearchError::Serialization(String::from_str("unexpected JSON shape")),
                );
            },
        };
        match widget.validate() {
            Ok(_) => Ok(widget),
            Err(e) => Err(e),
        }
    }
}


/// Trees whose texts are actual character data and whose integers fit the
/// executable value type; every tree a `WidgetSpec` holds is of this kind.
pub open spec fn tree_in_range(t: TreeModel) -> bool
    decreases t,
{
    text_in_range(t.tag) && model_in_range(t.props) && trees_in_range(t.children)
}

pub open spec fn trees_in_range(s: Seq<TreeModel>) -> bool
    decreases s,
{
    if s.len() == 0 {
        true
    } else {
        tree_in_range(s[0]) && trees_in_range(s.drop_first())
    }
}

proof fn lemma_key_literals_in_range()
    ensures
        text_in_range("widget_type"@),
        text_in_range("props"@),
        text_in_range("children"@),
{
    reveal_strlit("widget_type");
    reveal_strlit("props");
    reveal_strlit("children");
    assert forall|k: int| 0 <= k < "widget_type"@.len() implies 0 <= (
    #[trigger] "widget_type"@[k]) as int by {
        assert("widget_type"@.len() == 11);
    }
    assert forall|k: int| 0 <= k < "props"@.len() implies 0 <= (#[trigger] "props"@[k]) as int by {
        assert("props"@.len() == 5);
    }
    assert forall|k: int| 0 <= k < "children"@.len() implies 0 <= (
    #[trigger] "children"@[k]) as int by {
        assert("children"@.len() == 8);
    }
}

pub proof fn lemma_tree_jv_in_range(t: TreeModel)
    requires
        tree_in_range(t),
    ensures
        model_in_range(jv_of_tree(t)),
    decreases t,
{
    lemma_key_literals_in_range();
    lemma_trees_jv_in_range(t.children);
    let ms = jv_of_tree(t)->Obj_0;
    assert(ms.drop_first() =~= ms.skip(1));
    assert(ms.skip(1).drop_first() =~= ms.skip(2));
    assert(ms.skip(2).drop_first() =~= ms.skip(3));
    assert(ms.skip(3) =~= Seq::<(Seq<char>, JsonModel)>::empty());
    assert(ms.skip(2)[0] == ms[2]);
    assert(ms.skip(1)[0] == ms[1]);
    assert(ms[0] == ("widget_type"@, JsonModel::Text(t.tag)));
    assert(ms[1] == ("props"@, t.props));
    assert(ms[2] == ("children"@, JsonModel::Arr(jvs_of_trees(t.children))));
    assert(member_models_in_range(ms.skip(2))) by {
        assert(ms.skip(2).len() == 1);
        assert(text_in_range(ms.skip(2)[0].0));
        assert(model_in_range(ms.skip(2)[0].1));
        assert(member_models_in_range(ms.skip(2).drop_first()));
    }
    assert(member_models_in_range(ms.skip(1))) by {
        assert(text_in_range(ms.skip(1)[0].0));
        assert(model_in_range(ms.skip(1)[0].1));
    }
    assert(member_models_in_range(ms)) by {
        assert(text_in_range(ms[0].0));
        assert(model_in_range(ms[0].1));
    }
}

proof fn lemma_trees_jv_in_range(s: Seq<TreeModel>)
    requires
        trees_in_range(s),
    ensures
        models_in_range(jvs_of_trees(s)),
    decreases s,
{
    if s.len() > 0 {
        lemma_tree_jv_in_range(s[0]);
        lemma_trees_jv_in_range(s.drop_first());
        assert(jvs_of_trees(s).drop_first() =~= jvs_of_trees(s.drop_first()));
    }
}

pub proof fn lemma_tree_of_jv_of_tree(t: TreeModel)
    ensures
        tree_of_jv(jv_of_tree(t)) == Some(t),
    decreases t,
{
    lemma_trees_of_jvs_of_trees(t.children);
}

proof fn lemma_trees_of_jvs_of_trees(s: Seq<TreeModel>)
    ensures
        trees_of_jvs(jvs_of_trees(s)) == Some(s),
    decreases s,
{
    if s.len() == 0 {
        assert(trees_of_jvs(jvs_of_trees(s))->Some_0 =~= s);
    } else {
        lemma_tree_of_jv_of_tree(s[0]);
        lemma_trees_of_jvs_of_trees(s.drop_first());
        assert(jvs_of_trees(s)[0] == jv_of_tree(s[0]));
        assert(jvs_of_trees(s).drop_first() =~= jvs_of_trees(s.drop_first()));
        assert(trees_of_jvs(jvs_of_trees(s))->Some_0 =~= s);
    }
}

/// Round trip: the canonical JSON text of a valid widget tree parses back to
/// a value of exactly the wire-format shape, and that shape yields the same
/// tree again: the same widget type, props and children at every level.
pub proof fn lemma_json_round_trip(t: TreeModel)
    requires
        tree_in_range(t),
        first_violation(t) is None,
    ensures
        parse_json_text(ser_value(jv_of_tree(t))) == Some(jv_of_tree(t)),
        tree_of_jv(jv_of_tree(t)) == Some(t),
{
    lemma_tree_jv_in_range(t);
    crate::json::lemma_value_round_trip(jv_of_tree(t));
    lemma_tree_of_jv_of_tree(t);
}


} // verus!
