//! The deep-clone protocol: rebuilding a rule tree under a different lock,
//! severing all aliasing with the source tree.

use vstd::prelude::*;

use crate::rules::{
    CssRule, DocumentRule, FontFeatureValuesRule, ImportRule, KeyframesRule, MediaRule,
    NamespaceRule, PageRule, StyleRule, SupportsRule, ViewportRule,
};
use crate::shared_lock::{DeepCloneParams, SharedRwLock, SharedRwLockReadGuard};
use std::sync::Arc;

verus! {

broadcast use vstd::std_specs::vec::group_vec_axioms, crate::shared_lock::Locked::lemma_data_decreases;

impl CssRule {
    /// Deep clones this rule under `lock`: the result carries the same
    /// content, and every handle reachable from it — transitively through
    /// container rules — is a fresh allocation protected by `lock` alone.
    /// `params` is forwarded unchanged to nested clones. The guard must
    /// come from the source tree's own lock.
    pub fn deep_clone_with_lock(
        &self,
        lock: &SharedRwLock,
        guard: &SharedRwLockReadGuard,
        params: &DeepCloneParams,
    ) -> (r: CssRule)
        requires
            self.same_lock(guard.lock_id()),
        ensures
            r.model() == self.model(),
            r.same_lock(lock.id()),
        decreases *self,
    {
        match self {
            CssRule::Namespace(a) => {
                let d = a.read_with(guard);
                let prefix = match &d.prefix {
                    Some(p) => Some(p.clone()),
                    None => None,
                };
                CssRule::Namespace(
                    Arc::new(lock.wrap(NamespaceRule { prefix, url: d.url.clone() })),
                )
            },
            CssRule::Import(a) => {
                let d = a.read_with(guard);
                CssRule::Import(Arc::new(lock.wrap(ImportRule { url: d.url.clone() })))
            },
            CssRule::Style(a) => {
                let d = a.read_with(guard);
                CssRule::Style(
                    Arc::new(
                        lock.wrap(
                            StyleRule { selector: d.selector.clone(), block: d.block.clone() },
                        ),
                    ),
                )
            },
            CssRule::Media(a) => {
                let d = a.read_with(guard);
                let rules = deep_clone_list(&d.rules, lock, guard, params);
                CssRule::Media(
                    Arc::new(lock.wrap(MediaRule { condition: d.condition.clone(), rules })),
                )
            },
            CssRule::FontFace(a) => {
                let d = a.read_with(guard);
                CssRule::FontFace(Arc::new(lock.wrap(d.clone_conditionally())))
            },
            CssRule::FontFeatureValues(a) => {
                let d = a.read_with(guard);
                CssRule::FontFeatureValues(
                    Arc::new(
                        lock.wrap(
                            FontFeatureValuesRule {
                                families: d.families.clone(),
                                block: d.block.clone(),
                            },
                        ),
                    ),
                )
            },
            CssRule::CounterStyle(a) => {
                let d = a.read_with(guard);
                CssRule::CounterStyle(Arc::new(lock.wrap(d.clone_conditionally())))
            },
            CssRule::Viewport(a) => {
                let d = a.read_with(guard);
                CssRule::Viewport(
                    Arc::new(
                        lock.wrap(
                            ViewportRule { prelude: d.prelude.clone(), block: d.block.clone() },
                        ),
                    ),
                )
            },
            CssRule::Keyframes(a) => {
                let d = a.read_with(guard);
                CssRule::Keyframes(
                    Arc::new(
                        lock.wrap(KeyframesRule { name: d.name.clone(), block: d.block.clone() }),
                    ),
                )
            },
            CssRule::Supports(a) => {
                let d = a.read_with(guard);
                let rules = deep_clone_list(&d.rules, lock, guard, params);
                CssRule::Supports(
                    Arc::new(lock.wrap(SupportsRule { condition: d.condition.clone(), rules })),
                )
            },
            CssRule::Page(a) => {
                let d = a.read_with(guard);
                CssRule::Page(
                    Arc::new(
                        lock.wrap(PageRule { selector: d.selector.clone(), block: d.block.clone() }),
                    ),
                )
            },
            CssRule::Document(a) => {
                let d = a.read_with(guard);
                let rules = deep_clone_list(&d.rules, lock, guard, params);
                CssRule::Document(
                    Arc::new(lock.wrap(DocumentRule { condition: d.condition.clone(), rules })),
                )
            },
        }
    }
}

/// Deep clones each rule of a nested list under `lock`, in order.
fn deep_clone_list(
    rules: &Vec<CssRule>,
    lock: &SharedRwLock,
    guard: &SharedRwLockReadGuard,
    params: &DeepCloneParams,
) -> (r: Vec<CssRule>)
    requires
        CssRule::list_same_lock(rules@, guard.lock_id()),
    ensures
        CssRule::models_of(r@) == CssRule::models_of(rules@),
        CssRule::list_same_lock(r@, lock.id()),
    decreases rules@,
{
    let n = rules.len();
    let mut out: Vec<CssRule> = Vec::new();
    let mut i: usize = 0;
    proof {
        CssRule::lemma_list_same_lock_index(rules@, guard.lock_id());
        assert(out@ =~= Seq::<CssRule>::empty());
        assert(rules@.take(0) =~= Seq::<CssRule>::empty());
    }
    while i < n
        invariant
            0 <= i <= n,
            n == rules@.len(),
            forall|j: int| 0 <= j < n ==> (#[trigger] rules@[j]).same_lock(guard.lock_id()),
            CssRule::models_of(out@) == CssRule::models_of(rules@.take(i as int)),
            CssRule::list_same_lock(out@, lock.id()),
        decreases n - i,
    {
        let c = rules[i].deep_clone_with_lock(lock, guard, params);
        proof {
            CssRule::lemma_models_of_push(out@, c);
            CssRule::lemma_list_same_lock_push(out@, c, lock.id());
            assert(rules@.take(i + 1).drop_last() =~= rules@.take(i as int));
            assert(rules@.take(i + 1).last() == rules@[i as int]);
        }
        out.push(c);
        i += 1;
    }
    proof {
        assert(rules@.take(n as int) =~= rules@);
    }
    out
}

} // verus!
