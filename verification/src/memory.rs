//! Memory accounting: the retained heap bytes of a rule, with the
//! documented exemption table that avoids double counting against a paired
//! external owner.
//!
//! Retained heap bytes are modelled as the lengths of the owned payload
//! texts. Exempt kinds — Namespace, Import (measured by the document-level
//! child-list walk), FontFace, FontFeatureValues, CounterStyle, Viewport
//! and Keyframes — always report zero; Style, Media, Supports, Page and
//! Document are fully measured, recursively through nested rules.

use vstd::prelude::*;

use crate::rules::{CssRule, RuleModel};
use crate::shared_lock::SharedRwLockReadGuard;

verus! {

broadcast use vstd::std_specs::vec::group_vec_axioms, crate::shared_lock::Locked::lemma_data_decreases;

/// Whether this rule kind is exempt from memory accounting: its payload is
/// measured by a paired external owner, so it must report zero here.
pub open spec fn size_exempt(m: RuleModel) -> bool {
    match m {
        RuleModel::Namespace { .. } => true,
        RuleModel::Import { .. } => true,
        RuleModel::FontFace { .. } => true,
        RuleModel::FontFeatureValues { .. } => true,
        RuleModel::CounterStyle { .. } => true,
        RuleModel::Viewport { .. } => true,
        RuleModel::Keyframes { .. } => true,
        _ => false,
    }
}

/// The retained heap bytes of a rule: zero for exempt kinds, the payload
/// text lengths for measured kinds, recursively through nested rules.
pub open spec fn heap_size(m: RuleModel) -> nat
    decreases m,
{
    match m {
        RuleModel::Style { selector, block } => selector.len() + block.len(),
        RuleModel::Page { selector, block } => selector.len() + block.len(),
        RuleModel::Media { condition, rules } => condition.len() + list_heap_size(rules),
        RuleModel::Supports { condition, rules } => condition.len() + list_heap_size(rules),
        RuleModel::Document { condition, rules } => condition.len() + list_heap_size(rules),
        _ => 0,
    }
}

/// The retained heap bytes of a rule list.
pub open spec fn list_heap_size(s: Seq<RuleModel>) -> nat
    decreases s,
{
    if s.len() == 0 {
        0
    } else {
        list_heap_size(s.drop_last()) + heap_size(s.last())
    }
}

/// An exempt kind always reports zero, whatever its payload holds.
pub broadcast proof fn lemma_exempt_zero(m: RuleModel)
    requires
        size_exempt(m),
    ensures
        #[trigger] heap_size(m) == 0,
{
}

/// `x`, capped at the largest byte count a `usize` can report.
pub open spec fn cap(x: nat) -> nat {
    if x > usize::MAX as nat {
        usize::MAX as nat
    } else {
        x
    }
}

/// Adds byte counts, saturating at the largest reportable count.
fn sat_add(a: usize, b: usize) -> (r: usize)
    ensures
        r as nat == cap(a as nat + b as nat),
{
    if a > usize::MAX - b {
        usize::MAX
    } else {
        a + b
    }
}

impl CssRule {
    /// Sums the retained heap bytes of this rule, honouring the exemption
    /// table; the guard must come from the rule's own lock.
    pub fn malloc_size_of_children(&self, guard: &SharedRwLockReadGuard) -> (r: usize)
        requires
            self.same_lock(guard.lock_id()),
        ensures
            r as nat == cap(heap_size(self.model())),
        decreases *self,
    {
        match self {
            CssRule::Namespace(_) => 0,
            CssRule::Import(_) => 0,
            CssRule::FontFace(_) => 0,
            CssRule::FontFeatureValues(_) => 0,
            CssRule::CounterStyle(_) => 0,
            CssRule::Viewport(_) => 0,
            CssRule::Keyframes(_) => 0,
            CssRule::Style(a) => {
                let d = a.read_with(guard);
                sat_add(d.selector.as_str().unicode_len(), d.block.as_str().unicode_len())
            },
            CssRule::Page(a) => {
                let d = a.read_with(guard);
                sat_add(d.selector.as_str().unicode_len(), d.block.as_str().unicode_len())
            },
            CssRule::Media(a) => {
                let d = a.read_with(guard);
                sat_add(d.condition.as_str().unicode_len(), list_size(&d.rules, guard))
            },
            CssRule::Supports(a) => {
                let d = a.read_with(guard);
                sat_add(d.condition.as_str().unicode_len(), list_size(&d.rules, guard))
            },
            CssRule::Document(a) => {
                let d = a.read_with(guard);
                sat_add(d.condition.as_str().unicode_len(), list_size(&d.rules, guard))
            },
        }
    }
}

/// Sums the retained heap bytes of a nested rule list.
fn list_size(rules: &Vec<CssRule>, guard: &SharedRwLockReadGuard) -> (r: usize)
    requires
        CssRule::list_same_lock(rules@, guard.lock_id()),
    ensures
        r as nat == cap(list_heap_size(CssRule::models_of(rules@))),
    decreases rules@,
{
    let ghost models = CssRule::models_of(rules@);
    let n = rules.len();
    let mut acc: usize = 0;
    let mut i: usize = 0;
    proof {
        CssRule::lemma_models_of_index(rules@);
        CssRule::lemma_list_same_lock_index(rules@, guard.lock_id());
        assert(models.take(0) =~= Seq::<RuleModel>::empty());
    }
    while i < n
        invariant
            0 <= i <= n,
            n == rules@.len(),
            models == CssRule::models_of(rules@),
            models.len() == n,
            forall|j: int| 0 <= j < n ==> models[j] == #[trigger] rules@[j].model(),
            forall|j: int| 0 <= j < n ==> (#[trigger] rules@[j]).same_lock(guard.lock_id()),
            acc as nat == cap(list_heap_size(models.take(i as int))),
        decreases n - i,
    {
        let c = rules[i].malloc_size_of_children(guard);
        proof {
            assert(models.take(i + 1).drop_last() =~= models.take(i as int));
            assert(models.take(i + 1).last() == models[i as int]);
        }
        acc = sat_add(acc, c);
        i += 1;
    }
    proof {
        assert(models.take(n as int) =~= models);
    }
    acc
}

} // verus!
