//! Canonical serialization of a rule back to CSS text.
//!
//! Serialization is pure dispatch by tag, mutates nothing, and requires a
//! read guard from the rule's own lock; a mismatched guard is a usage
//! error, ruled out by `requires` rather than reported.

use vstd::prelude::*;

use crate::rules::{CssRule, RuleModel};
use crate::shared_lock::SharedRwLockReadGuard;

verus! {

broadcast use vstd::std_specs::vec::group_vec_axioms, crate::shared_lock::Locked::lemma_data_decreases;

/// A space followed by the text, or nothing when the text is empty:
/// how an optional prelude follows its at-keyword.
pub open spec fn opt_sp(s: Seq<char>) -> Seq<char> {
    if s.len() == 0 {
        Seq::empty()
    } else {
        " "@ + s
    }
}

/// The canonical CSS text of a rule model.
pub open spec fn css_of(m: RuleModel) -> Seq<char>
    decreases m,
{
    match m {
        RuleModel::Namespace { prefix, url } => "@namespace "@ + (match prefix {
            Some(p) => p + " "@,
            None => Seq::empty(),
        }) + "url("@ + url + ");"@,
        RuleModel::Import { url } => "@import url("@ + url + ");"@,
        RuleModel::Style { selector, block } => selector + " { "@ + block + " }"@,
        RuleModel::Media { condition, rules } => "@media"@ + opt_sp(condition) + " { "@
            + css_of_list(rules) + "}"@,
        RuleModel::Supports { condition, rules } => "@supports"@ + opt_sp(condition) + " { "@
            + css_of_list(rules) + "}"@,
        RuleModel::Document { condition, rules } => "@-moz-document"@ + opt_sp(condition) + " { "@
            + css_of_list(rules) + "}"@,
        RuleModel::Keyframes { name, block } => "@keyframes"@ + opt_sp(name) + " { "@ + block
            + " }"@,
        RuleModel::Page { selector, block } => "@page"@ + opt_sp(selector) + " { "@ + block
            + " }"@,
        RuleModel::FontFace { prelude, block } => "@font-face"@ + opt_sp(prelude) + " { "@ + block
            + " }"@,
        RuleModel::FontFeatureValues { families, block } => "@font-feature-values"@ + opt_sp(
            families,
        ) + " { "@ + block + " }"@,
        RuleModel::CounterStyle { name, block } => "@counter-style"@ + opt_sp(name) + " { "@
            + block + " }"@,
        RuleModel::Viewport { prelude, block } => "@viewport"@ + opt_sp(prelude) + " { "@ + block
            + " }"@,
    }
}

/// The canonical CSS text of a rule list: each rule followed by one space.
pub open spec fn css_of_list(s: Seq<RuleModel>) -> Seq<char>
    decreases s,
{
    if s.len() == 0 {
        Seq::empty()
    } else {
        css_of(s.first()) + " "@ + css_of_list(s.drop_first())
    }
}

impl CssRule {
    /// Appends the canonical CSS text of this rule to `dest`; the guard
    /// must come from the rule's own lock.
    #[verifier::rlimit(60)]
    pub fn to_css_into(&self, guard: &SharedRwLockReadGuard, dest: &mut String)
        requires
            self.same_lock(guard.lock_id()),
        ensures
            final(dest)@ == old(dest)@ + css_of(self.model()),
        decreases *self,
    {
        match self {
            CssRule::Namespace(a) => {
                let d = a.read_with(guard);
                dest.append("@namespace ");
                match &d.prefix {
                    Some(p) => {
                        dest.append(p.as_str());
                        dest.append(" ");
                    },
                    None => {},
                }
                dest.append("url(");
                dest.append(d.url.as_str());
                dest.append(");");
                proof {
                    assert(dest@ =~= old(dest)@ + css_of(self.model()));
                }
            },
            CssRule::Import(a) => {
                let d = a.read_with(guard);
                dest.append("@import url(");
                dest.append(d.url.as_str());
                dest.append(");");
                proof {
                    assert(dest@ =~= old(dest)@ + css_of(self.model()));
                }
            },
            CssRule::Style(a) => {
                let d = a.read_with(guard);
                dest.append(d.selector.as_str());
                dest.append(" { ");
                dest.append(d.block.as_str());
                dest.append(" }");
                proof {
                    assert(dest@ =~= old(dest)@ + css_of(self.model()));
                }
            },
            CssRule::Media(a) => {
                let d = a.read_with(guard);
                dest.append("@media");
                append_prelude(&d.condition, dest);
                dest.append(" { ");
                list_to_css_into(&d.rules, guard, dest);
                dest.append("}");
                proof {
                    assert(dest@ =~= old(dest)@ + css_of(self.model()));
                }
            },
            CssRule::Supports(a) => {
                let d = a.read_with(guard);
                dest.append("@supports");
                append_prelude(&d.condition, dest);
                dest.append(" { ");
                list_to_css_into(&d.rules, guard, dest);
                dest.append("}");
                proof {
                    assert(dest@ =~= old(dest)@ + css_of(self.model()));
                }
            },
            CssRule::Document(a) => {
                let d = a.read_with(guard);
                dest.append("@-moz-document");
                append_prelude(&d.condition, dest);
                dest.append(" { ");
                list_to_css_into(&d.rules, guard, dest);
                dest.append("}");
                proof {
                    assert(dest@ =~= old(dest)@ + css_of(self.model()));
                }
            },
            CssRule::Keyframes(a) => {
                let d = a.read_with(guard);
                dest.append("@keyframes");
                append_prelude(&d.name, dest);
                dest.append(" { ");
                dest.append(d.block.as_str());
                dest.append(" }");
                proof {
                    assert(dest@ =~= old(dest)@ + css_of(self.model()));
                }
            },
            CssRule::Page(a) => {
                let d = a.read_with(guard);
                dest.append("@page");
                append_prelude(&d.selector, dest);
                dest.append(" { ");
                dest.append(d.block.as_str());
                dest.append(" }");
                proof {
                    assert(dest@ =~= old(dest)@ + css_of(self.model()));
                }
            },
            CssRule::FontFace(a) => {
                let d = a.read_with(guard);
                dest.append("@font-face");
                append_prelude(&d.prelude, dest);
                dest.append(" { ");
                dest.append(d.block.as_str());
                dest.append(" }");
                proof {
                    assert(dest@ =~= old(dest)@ + css_of(self.model()));
                }
            },
            CssRule::FontFeatureValues(a) => {
                let d = a.read_with(guard);
                dest.append("@font-feature-values");
                append_prelude(&d.families, dest);
                dest.append(" { ");
                dest.append(d.block.as_str());
                dest.append(" }");
                proof {
                    assert(dest@ =~= old(dest)@ + css_of(self.model()));
                }
            },
            CssRule::CounterStyle(a) => {
                let d = a.read_with(guard);
                dest.append("@counter-style");
                append_prelude(&d.name, dest);
                dest.append(" { ");
                dest.append(d.block.as_str());
                dest.append(" }");
                proof {
                    assert(dest@ =~= old(dest)@ + css_of(self.model()));
                }
            },
            CssRule::Viewport(a) => {
                let d = a.read_with(guard);
                dest.append("@viewport");
                append_prelude(&d.prelude, dest);
                dest.append(" { ");
                dest.append(d.block.as_str());
                dest.append(" }");
                proof {
                    assert(dest@ =~= old(dest)@ + css_of(self.model()));
                }
            },
        }
    }

    /// Returns the canonical CSS text of this rule; the guard must come
    /// from the rule's own lock.
    pub fn to_css(&self, guard: &SharedRwLockReadGuard) -> (r: String)
        requires
            self.same_lock(guard.lock_id()),
        ensures
            r@ == css_of(self.model()),
    {
        let mut out = String::new();
        self.to_css_into(guard, &mut out);
        out
    }
}

/// Appends an at-rule prelude after its keyword: one space, then the text,
/// or nothing when the prelude is empty.
fn append_prelude(p: &String, dest: &mut String)
    ensures
        final(dest)@ == old(dest)@ + opt_sp(p@),
{
    if p.as_str().unicode_len() > 0 {
        dest.append(" ");
        dest.append(p.as_str());
        proof {
            assert(dest@ =~= old(dest)@ + opt_sp(p@));
        }
    } else {
        proof {
            assert(dest@ =~= old(dest)@ + opt_sp(p@));
        }
    }
}

/// Appends the canonical CSS text of each rule, each followed by a space.
fn list_to_css_into(rules: &Vec<CssRule>, guard: &SharedRwLockReadGuard, dest: &mut String)
    requires
        CssRule::list_same_lock(rules@, guard.lock_id()),
    ensures
        final(dest)@ == old(dest)@ + css_of_list(CssRule::models_of(rules@)),
    decreases rules@,
{
    let ghost models = CssRule::models_of(rules@);
    let n = rules.len();
    let mut i: usize = 0;
    proof {
        CssRule::lemma_models_of_index(rules@);
        CssRule::lemma_list_same_lock_index(rules@, guard.lock_id());
        assert(models.skip(0) =~= models);
    }
    while i < n
        invariant
            0 <= i <= n,
            n == rules@.len(),
            models == CssRule::models_of(rules@),
            models.len() == n,
            forall|j: int| 0 <= j < n ==> models[j] == #[trigger] rules@[j].model(),
            forall|j: int| 0 <= j < n ==> (#[trigger] rules@[j]).same_lock(guard.lock_id()),
            dest@ + css_of_list(models.skip(i as int)) == old(dest)@ + css_of_list(models),
        decreases n - i,
    {
        let r = &rules[i];
        r.to_css_into(guard, dest);
        dest.append(" ");
        proof {
            assert(models.skip(i as int).first() == models[i as int]);
            assert(models.skip(i as int).drop_first() =~= models.skip(i + 1));
            assert(dest@ + css_of_list(models.skip(i + 1)) =~= old(dest)@ + css_of_list(models));
        }
        i += 1;
    }
    proof {
        assert(models.skip(n as int) =~= Seq::<RuleModel>::empty());
        assert(dest@ =~= old(dest)@ + css_of_list(models));
    }
}

} // verus!
