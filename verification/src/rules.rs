//! The polymorphic CSS rule type and its cross-cutting protocols:
//! type identification, deep clone under a new lock, and memory accounting.

use vstd::prelude::*;

use crate::parse::State;
use crate::scan::{balanced, is_name_char, is_url_char, trim_of};
use crate::shared_lock::Locked;
use std::sync::Arc;

verus! {

broadcast use vstd::std_specs::vec::group_vec_axioms, crate::shared_lock::Locked::lemma_data_decreases;

/// An `@namespace` rule: an optional prefix bound to a namespace URL.
pub struct NamespaceRule {
    pub prefix: Option<String>,
    pub url: String,
}

/// An `@import` rule: the URL of the imported sheet.
pub struct ImportRule {
    pub url: String,
}

/// A style rule: a selector and its declaration block.
pub struct StyleRule {
    pub selector: String,
    pub block: String,
}

/// An `@media` rule: a media condition and the nested rules it guards.
pub struct MediaRule {
    pub condition: String,
    pub rules: Vec<CssRule>,
}

/// An `@supports` rule: a support condition and the nested rules it guards.
pub struct SupportsRule {
    pub condition: String,
    pub rules: Vec<CssRule>,
}

/// An `@document` rule: a URL condition and the nested rules it guards.
pub struct DocumentRule {
    pub condition: String,
    pub rules: Vec<CssRule>,
}

/// An `@keyframes` rule: the animation name and the keyframe blocks, as text.
pub struct KeyframesRule {
    pub name: String,
    pub block: String,
}

/// An `@page` rule: an optional page selector and the declaration block.
pub struct PageRule {
    pub selector: String,
    pub block: String,
}

/// An `@font-face` rule: its descriptor block, as text.
pub struct FontFaceRule {
    pub prelude: String,
    pub block: String,
}

/// An `@font-feature-values` rule: the family list and the feature block.
pub struct FontFeatureValuesRule {
    pub families: String,
    pub block: String,
}

/// An `@counter-style` rule: the counter name and its descriptor block.
pub struct CounterStyleRule {
    pub name: String,
    pub block: String,
}

/// An `@viewport` rule: its descriptor block, as text.
pub struct ViewportRule {
    pub prelude: String,
    pub block: String,
}

impl FontFaceRule {
    /// Selects the clone strategy appropriate for this rule-data type;
    /// here, a plain value copy.
    pub fn clone_conditionally(&self) -> (r: FontFaceRule)
        ensures
            r.prelude@ == self.prelude@,
            r.block@ == self.block@,
    {
        FontFaceRule { prelude: self.prelude.clone(), block: self.block.clone() }
    }
}

impl CounterStyleRule {
    /// Selects the clone strategy appropriate for this rule-data type;
    /// here, a plain value copy.
    pub fn clone_conditionally(&self) -> (r: CounterStyleRule)
        ensures
            r.name@ == self.name@,
            r.block@ == self.block@,
    {
        CounterStyleRule { name: self.name.clone(), block: self.block.clone() }
    }
}

/// A CSS rule: a tagged union over the twelve rule kinds, each wrapping a
/// reference-counted, lock-guarded handle to its data.
pub enum CssRule {
    Namespace(Arc<Locked<NamespaceRule>>),
    Import(Arc<Locked<ImportRule>>),
    Style(Arc<Locked<StyleRule>>),
    Media(Arc<Locked<MediaRule>>),
    FontFace(Arc<Locked<FontFaceRule>>),
    FontFeatureValues(Arc<Locked<FontFeatureValuesRule>>),
    CounterStyle(Arc<Locked<CounterStyleRule>>),
    Viewport(Arc<Locked<ViewportRule>>),
    Keyframes(Arc<Locked<KeyframesRule>>),
    Supports(Arc<Locked<SupportsRule>>),
    Page(Arc<Locked<PageRule>>),
    Document(Arc<Locked<DocumentRule>>),
}

/// The CSSOM rule-type identifiers, a stable external contract.
#[derive(Clone, Copy, Debug, PartialEq, Eq, Structural)]
pub enum CssRuleType {
    Style,
    Charset,
    Import,
    Media,
    FontFace,
    Page,
    Keyframes,
    Keyframe,
    Margin,
    Namespace,
    CounterStyle,
    Supports,
    Document,
    FontFeatureValues,
    Viewport,
}

impl CssRuleType {
    /// The CSSOM numeric value of this rule type.
    pub open spec fn spec_as_u32(self) -> u32 {
        match self {
            CssRuleType::Style => 1,
            CssRuleType::Charset => 2,
            CssRuleType::Import => 3,
            CssRuleType::Media => 4,
            CssRuleType::FontFace => 5,
            CssRuleType::Page => 6,
            CssRuleType::Keyframes => 7,
            CssRuleType::Keyframe => 8,
            CssRuleType::Margin => 9,
            CssRuleType::Namespace => 10,
            CssRuleType::CounterStyle => 11,
            CssRuleType::Supports => 12,
            CssRuleType::Document => 13,
            CssRuleType::FontFeatureValues => 14,
            CssRuleType::Viewport => 15,
        }
    }

    /// The CSSOM numeric value of this rule type.
    pub fn as_u32(self) -> (r: u32)
        ensures
            r == self.spec_as_u32(),
    {
        match self {
            CssRuleType::Style => 1,
            CssRuleType::Charset => 2,
            CssRuleType::Import => 3,
            CssRuleType::Media => 4,
            CssRuleType::FontFace => 5,
            CssRuleType::Page => 6,
            CssRuleType::Keyframes => 7,
            CssRuleType::Keyframe => 8,
            CssRuleType::Margin => 9,
            CssRuleType::Namespace => 10,
            CssRuleType::CounterStyle => 11,
            CssRuleType::Supports => 12,
            CssRuleType::Document => 13,
            CssRuleType::FontFeatureValues => 14,
            CssRuleType::Viewport => 15,
        }
    }
}

/// The mathematical content of a rule: its payload text and nested rules,
/// with every lock and handle stripped away.
pub enum RuleModel {
    Namespace { prefix: Option<Seq<char>>, url: Seq<char> },
    Import { url: Seq<char> },
    Style { selector: Seq<char>, block: Seq<char> },
    Media { condition: Seq<char>, rules: Seq<RuleModel> },
    FontFace { prelude: Seq<char>, block: Seq<char> },
    FontFeatureValues { families: Seq<char>, block: Seq<char> },
    CounterStyle { name: Seq<char>, block: Seq<char> },
    Viewport { prelude: Seq<char>, block: Seq<char> },
    Keyframes { name: Seq<char>, block: Seq<char> },
    Supports { condition: Seq<char>, rules: Seq<RuleModel> },
    Page { selector: Seq<char>, block: Seq<char> },
    Document { condition: Seq<char>, rules: Seq<RuleModel> },
}

/// The rule type of a model.
pub open spec fn kind_of(m: RuleModel) -> CssRuleType {
    match m {
        RuleModel::Namespace { .. } => CssRuleType::Namespace,
        RuleModel::Import { .. } => CssRuleType::Import,
        RuleModel::Style { .. } => CssRuleType::Style,
        RuleModel::Media { .. } => CssRuleType::Media,
        RuleModel::FontFace { .. } => CssRuleType::FontFace,
        RuleModel::FontFeatureValues { .. } => CssRuleType::FontFeatureValues,
        RuleModel::CounterStyle { .. } => CssRuleType::CounterStyle,
        RuleModel::Viewport { .. } => CssRuleType::Viewport,
        RuleModel::Keyframes { .. } => CssRuleType::Keyframes,
        RuleModel::Supports { .. } => CssRuleType::Supports,
        RuleModel::Page { .. } => CssRuleType::Page,
        RuleModel::Document { .. } => CssRuleType::Document,
    }
}

/// Text with no top-level structure characters, fit for a selector
/// or an at-rule prelude.
pub open spec fn plain_text(s: Seq<char>) -> bool {
    forall|i: int| 0 <= i < s.len() ==> #[trigger] s[i] != ';' && s[i] != '{' && s[i] != '}'
}

/// A well-formed url payload.
pub open spec fn wf_url(s: Seq<char>) -> bool {
    forall|i: int| 0 <= i < s.len() ==> is_url_char(#[trigger] s[i])
}

/// A well-formed selector or prelude: trimmed and free of structure characters.
pub open spec fn wf_prelude(s: Seq<char>) -> bool {
    trim_of(s) == s && plain_text(s)
}

/// A well-formed block body: trimmed and brace-balanced.
pub open spec fn wf_block(s: Seq<char>) -> bool {
    trim_of(s) == s && balanced(s)
}

/// A well-formed namespace prefix.
pub open spec fn wf_prefix(p: Option<Seq<char>>) -> bool {
    match p {
        Option::None => true,
        Option::Some(s) => s.len() > 0 && forall|i: int|
            0 <= i < s.len() ==> is_name_char(#[trigger] s[i]),
    }
}

/// Well-formedness of a rule model: every payload is exactly what a parse
/// can produce, so that canonical serialization reparses to the same model.
pub open spec fn wf_model(m: RuleModel) -> bool
    decreases m,
{
    match m {
        RuleModel::Namespace { prefix, url } => wf_prefix(prefix) && wf_url(url),
        RuleModel::Import { url } => wf_url(url),
        RuleModel::Style { selector, block } => selector.len() > 0 && selector[0] != '@'
            && wf_prelude(selector) && wf_block(block),
        RuleModel::Media { condition, rules } => wf_prelude(condition) && wf_models(rules),
        RuleModel::FontFace { prelude, block } => wf_prelude(prelude) && wf_block(block),
        RuleModel::FontFeatureValues { families, block } => wf_prelude(families) && wf_block(
            block,
        ),
        RuleModel::CounterStyle { name, block } => wf_prelude(name) && wf_block(block),
        RuleModel::Viewport { prelude, block } => wf_prelude(prelude) && wf_block(block),
        RuleModel::Keyframes { name, block } => wf_prelude(name) && wf_block(block),
        RuleModel::Supports { condition, rules } => wf_prelude(condition) && wf_models(rules),
        RuleModel::Page { selector, block } => wf_prelude(selector) && wf_block(block),
        RuleModel::Document { condition, rules } => wf_prelude(condition) && wf_models(rules),
    }
}

/// A rule kind that may stand in a rule body: anything but the
/// top-level-only `@import` and `@namespace`.
pub open spec fn body_model(m: RuleModel) -> bool {
    !(m is Import) && !(m is Namespace)
}

/// Well-formedness of a nested rule sequence: each member is well-formed
/// and of a body kind, as nested parsing guarantees.
pub open spec fn wf_models(s: Seq<RuleModel>) -> bool
    decreases s,
{
    forall|i: int| 0 <= i < s.len() ==> wf_model(#[trigger] s[i]) && body_model(s[i])
}

impl CssRule {
    /// The mathematical content of this rule.
    pub open spec fn model(self) -> RuleModel
        decreases self,
    {
        match self {
            CssRule::Namespace(a) => RuleModel::Namespace {
                prefix: match a.data().prefix {
                    Option::None => Option::None,
                    Option::Some(p) => Option::Some(p@),
                },
                url: a.data().url@,
            },
            CssRule::Import(a) => RuleModel::Import { url: a.data().url@ },
            CssRule::Style(a) => RuleModel::Style {
                selector: a.data().selector@,
                block: a.data().block@,
            },
            CssRule::Media(a) => RuleModel::Media {
                condition: a.data().condition@,
                rules: Self::models_of(a.data().rules@),
            },
            CssRule::FontFace(a) => RuleModel::FontFace {
                prelude: a.data().prelude@,
                block: a.data().block@,
            },
            CssRule::FontFeatureValues(a) => RuleModel::FontFeatureValues {
                families: a.data().families@,
                block: a.data().block@,
            },
            CssRule::CounterStyle(a) => RuleModel::CounterStyle {
                name: a.data().name@,
                block: a.data().block@,
            },
            CssRule::Viewport(a) => RuleModel::Viewport {
                prelude: a.data().prelude@,
                block: a.data().block@,
            },
            CssRule::Keyframes(a) => RuleModel::Keyframes {
                name: a.data().name@,
                block: a.data().block@,
            },
            CssRule::Supports(a) => RuleModel::Supports {
                condition: a.data().condition@,
                rules: Self::models_of(a.data().rules@),
            },
            CssRule::Page(a) => RuleModel::Page {
                selector: a.data().selector@,
                block: a.data().block@,
            },
            CssRule::Document(a) => RuleModel::Document {
                condition: a.data().condition@,
                rules: Self::models_of(a.data().rules@),
            },
        }
    }

    /// The models of a sequence of rules, in order.
    pub open spec fn models_of(s: Seq<CssRule>) -> Seq<RuleModel>
        decreases s,
    {
        if s.len() == 0 {
            Seq::empty()
        } else {
            Self::models_of(s.drop_last()).push(s.last().model())
        }
    }

    /// Every handle reachable from this rule is protected by the lock
    /// with identity `id`, transitively through container rules.
    pub open spec fn same_lock(self, id: u64) -> bool
        decreases self,
    {
        match self {
            CssRule::Namespace(a) => a.lock_id() == id,
            CssRule::Import(a) => a.lock_id() == id,
            CssRule::Style(a) => a.lock_id() == id,
            CssRule::Media(a) => a.lock_id() == id && Self::list_same_lock(a.data().rules@, id),
            CssRule::FontFace(a) => a.lock_id() == id,
            CssRule::FontFeatureValues(a) => a.lock_id() == id,
            CssRule::CounterStyle(a) => a.lock_id() == id,
            CssRule::Viewport(a) => a.lock_id() == id,
            CssRule::Keyframes(a) => a.lock_id() == id,
            CssRule::Supports(a) => a.lock_id() == id && Self::list_same_lock(a.data().rules@, id),
            CssRule::Page(a) => a.lock_id() == id,
            CssRule::Document(a) => a.lock_id() == id && Self::list_same_lock(a.data().rules@, id),
        }
    }

    /// Every handle reachable from any rule of the sequence is protected
    /// by the lock with identity `id`.
    pub open spec fn list_same_lock(s: Seq<CssRule>, id: u64) -> bool
        decreases s,
    {
        if s.len() == 0 {
            true
        } else {
            Self::list_same_lock(s.drop_last(), id) && s.last().same_lock(id)
        }
    }

    /// Models distribute over appending one rule to a sequence.
    pub proof fn lemma_models_of_push(s: Seq<CssRule>, r: CssRule)
        ensures
            Self::models_of(s.push(r)) == Self::models_of(s).push(r.model()),
    {
        assert(s.push(r).drop_last() =~= s);
        assert(s.push(r).last() == r);
    }

    /// Lock agreement distributes over appending one rule to a sequence.
    pub proof fn lemma_list_same_lock_push(s: Seq<CssRule>, r: CssRule, id: u64)
        ensures
            Self::list_same_lock(s.push(r), id) == (Self::list_same_lock(s, id) && r.same_lock(
                id,
            )),
    {
        assert(s.push(r).drop_last() =~= s);
        assert(s.push(r).last() == r);
    }

    /// Models are taken in order, element by element.
    pub proof fn lemma_models_of_index(s: Seq<CssRule>)
        ensures
            Self::models_of(s).len() == s.len(),
            forall|i: int| 0 <= i < s.len() ==> Self::models_of(s)[i] == #[trigger] s[i].model(),
        decreases s,
    {
        if s.len() > 0 {
            Self::lemma_models_of_index(s.drop_last());
            assert forall|i: int| 0 <= i < s.len() implies Self::models_of(s)[i] == #[trigger] s[i].model() by {
                if i < s.len() - 1 {
                    assert(s.drop_last()[i] == s[i]);
                } else {
                    assert(s.last() == s[i]);
                }
            }
        }
    }

    /// Lock agreement of a sequence gives lock agreement of each element.
    pub proof fn lemma_list_same_lock_index(s: Seq<CssRule>, id: u64)
        requires
            Self::list_same_lock(s, id),
        ensures
            forall|i: int| 0 <= i < s.len() ==> (#[trigger] s[i]).same_lock(id),
        decreases s,
    {
        if s.len() > 0 {
            Self::lemma_list_same_lock_index(s.drop_last(), id);
            assert forall|i: int| 0 <= i < s.len() implies (#[trigger] s[i]).same_lock(id) by {
                if i < s.len() - 1 {
                    assert(s.drop_last()[i] == s[i]);
                } else {
                    assert(s.last() == s[i]);
                }
            }
        }
    }

    /// The rule type is determined by the tag alone: no guard is needed.
    pub open spec fn spec_rule_type(self) -> CssRuleType {
        kind_of(self.model())
    }

    /// Returns the CSSOM rule type of this rule. Pure, O(1) and guard-free:
    /// the result depends on the variant tag alone.
    pub fn rule_type(&self) -> (t: CssRuleType)
        ensures
            t == self.spec_rule_type(),
            t == kind_of(self.model()),
    {
        match *self {
            CssRule::Style(_) => CssRuleType::Style,
            CssRule::Import(_) => CssRuleType::Import,
            CssRule::Media(_) => CssRuleType::Media,
            CssRule::FontFace(_) => CssRuleType::FontFace,
            CssRule::FontFeatureValues(_) => CssRuleType::FontFeatureValues,
            CssRule::CounterStyle(_) => CssRuleType::CounterStyle,
            CssRule::Keyframes(_) => CssRuleType::Keyframes,
            CssRule::Namespace(_) => CssRuleType::Namespace,
            CssRule::Viewport(_) => CssRuleType::Viewport,
            CssRule::Supports(_) => CssRuleType::Supports,
            CssRule::Page(_) => CssRuleType::Page,
            CssRule::Document(_) => CssRuleType::Document,
        }
    }

    /// The state the grammar-ordering machine moves to after this rule.
    pub open spec fn spec_rule_state(self) -> State {
        match self {
            CssRule::Import(..) => State::Imports,
            CssRule::Namespace(..) => State::Namespaces,
            _ => State::Body,
        }
    }

    /// Classifies this rule for the parse dispatcher's next state.
    pub(crate) fn rule_state(&self) -> (s: State)
        ensures
            s == self.spec_rule_state(),
    {
        match *self {
            CssRule::Import(..) => State::Imports,
            CssRule::Namespace(..) => State::Namespaces,
            _ => State::Body,
        }
    }
}

} // verus!
