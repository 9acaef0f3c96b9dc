//! Single-rule parsing: the grammar-ordering state machine and the parse
//! dispatcher that turns raw rule text into a [`CssRule`].
//!
//! The grammar of a single rule, over which every contract here speaks
//! (whitespace is trimmed from both ends first):
//!
//! - `@import` and `@namespace` take a url (`url(...)` or a quoted string)
//!   up to an optional final `;`; `@namespace` may bind a prefix first.
//! - the other at-rules take a prelude free of `;`, `{`, `}`, then a
//!   brace-balanced block; `@media`, `@supports` and `@document` parse the
//!   block as a nested rule list (valid only if every nested rule is),
//!   the rest keep the block as text.
//! - anything else is a style rule: a non-empty selector free of `;`, `{`,
//!   `}`, then a brace-balanced declaration block kept as text.

use vstd::prelude::*;

use crate::errors::SingleRuleParseError;
use crate::rules::{
    plain_text, wf_model, wf_models, wf_prefix, wf_url, CounterStyleRule, CssRule, DocumentRule,
    FontFaceRule, FontFeatureValuesRule, ImportRule, KeyframesRule, MediaRule, NamespaceRule,
    PageRule, RuleModel, StyleRule, SupportsRule, ViewportRule,
};
use crate::scan::{
    all_plain_chars, all_url_chars, balanced, check_balanced, eq_range, extent_of, find_char,
    find_extent, find_from, first_nonspace_from, is_first_nonspace, is_name_char, is_space,
    is_url_char, lemma_trim_of_trimmed, name_end_of, nonspace_from_of, scan_name_end, trim,
    trim_of,
};
use crate::shared_lock::SharedRwLock;
use crate::stylesheet::{StylesheetContents, StylesheetLoader};
use std::sync::Arc;

verus! {

/// The grammar-ordering state of a rule sequence: imports come before
/// namespaces, namespaces before body rules. States only move forward.
#[derive(Clone, Copy, Debug, PartialEq, Eq, Structural)]
pub enum State {
    Start,
    Imports,
    Namespaces,
    Body,
}

impl State {
    /// The position of this state in the grammar order.
    pub open spec fn rank(self) -> int {
        match self {
            State::Start => 1,
            State::Imports => 2,
            State::Namespaces => 3,
            State::Body => 4,
        }
    }

    /// Whether this state already lies beyond `other` in the grammar order.
    pub fn beyond(self, other: State) -> (r: bool)
        ensures
            r == (self.rank() > other.rank()),
    {
        let a: u32 = match self {
            State::Start => 1,
            State::Imports => 2,
            State::Namespaces => 3,
            State::Body => 4,
        };
        let b: u32 = match other {
            State::Start => 1,
            State::Imports => 2,
            State::Namespaces => 3,
            State::Body => 4,
        };
        a > b
    }
}

/// The block at-rules: every at-rule kind except `@import` and `@namespace`.
#[derive(Clone, Copy)]
pub enum AtBlockKind {
    Media,
    Supports,
    Document,
    Keyframes,
    Page,
    FontFace,
    FontFeatureValues,
    CounterStyle,
    Viewport,
}

/// Whether this block at-rule nests a rule list rather than keeping
/// its block as text.
pub open spec fn is_container(k: AtBlockKind) -> bool {
    match k {
        AtBlockKind::Media => true,
        AtBlockKind::Supports => true,
        AtBlockKind::Document => true,
        _ => false,
    }
}

/// The model a block at-rule builds from its prelude and either its block
/// text (non-container kinds) or its nested rules (container kinds).
pub open spec fn at_block_model(
    k: AtBlockKind,
    prelude: Seq<char>,
    block: Seq<char>,
    rules: Seq<RuleModel>,
) -> RuleModel {
    match k {
        AtBlockKind::Media => RuleModel::Media { condition: prelude, rules },
        AtBlockKind::Supports => RuleModel::Supports { condition: prelude, rules },
        AtBlockKind::Document => RuleModel::Document { condition: prelude, rules },
        AtBlockKind::Keyframes => RuleModel::Keyframes { name: prelude, block },
        AtBlockKind::Page => RuleModel::Page { selector: prelude, block },
        AtBlockKind::FontFace => RuleModel::FontFace { prelude, block },
        AtBlockKind::FontFeatureValues => RuleModel::FontFeatureValues {
            families: prelude,
            block,
        },
        AtBlockKind::CounterStyle => RuleModel::CounterStyle { name: prelude, block },
        AtBlockKind::Viewport => RuleModel::Viewport { prelude, block },
    }
}

/// Classifies an at-keyword name as a block at-rule.
pub open spec fn at_kind_of(name: Seq<char>) -> Option<AtBlockKind> {
    if name == "media"@ {
        Some(AtBlockKind::Media)
    } else if name == "supports"@ {
        Some(AtBlockKind::Supports)
    } else if name == "document"@ || name == "-moz-document"@ {
        Some(AtBlockKind::Document)
    } else if name == "keyframes"@ {
        Some(AtBlockKind::Keyframes)
    } else if name == "page"@ {
        Some(AtBlockKind::Page)
    } else if name == "font-face"@ {
        Some(AtBlockKind::FontFace)
    } else if name == "font-feature-values"@ {
        Some(AtBlockKind::FontFeatureValues)
    } else if name == "counter-style"@ {
        Some(AtBlockKind::CounterStyle)
    } else if name == "viewport"@ {
        Some(AtBlockKind::Viewport)
    } else {
        None
    }
}

/// A url payload: `url(U)` or `"U"`, with `U` over the url character class.
pub open spec fn url_form_of(p: Seq<char>) -> Option<Seq<char>> {
    if p.len() >= 5 && p.subrange(0, 4) == "url("@ && p[p.len() - 1] == ')' && (forall|j: int|
        4 <= j < p.len() - 1 ==> is_url_char(#[trigger] p[j])) {
        Some(p.subrange(4, p.len() - 1))
    } else if p.len() >= 2 && p[0] == '"' && p[p.len() - 1] == '"' && (forall|j: int|
        1 <= j < p.len() - 1 ==> is_url_char(#[trigger] p[j])) {
        Some(p.subrange(1, p.len() - 1))
    } else {
        None
    }
}

/// A namespace prelude: a url form, optionally preceded by a prefix and
/// at least one space.
pub open spec fn ns_form_of(p: Seq<char>) -> Option<(Option<Seq<char>>, Seq<char>)> {
    if url_form_of(p) is Some {
        Some((None, url_form_of(p)->Some_0))
    } else {
        let k = name_end_of(p, 0);
        if 0 < k < p.len() && is_space(p[k]) {
            let r = nonspace_from_of(p, k);
            match url_form_of(p.subrange(r, p.len() as int)) {
                Some(u) => Some((Some(p.subrange(0, k)), u)),
                None => None,
            }
        } else {
            None
        }
    }
}

/// What parsing the trimmed rule text `t` in grammar state `state` yields:
/// the rule's model and the state the machine advances to, or the
/// classified error. `Hierarchy` arises exactly for an `@import` beyond the
/// `Imports` state or an `@namespace` beyond the `Namespaces` state.
pub open spec fn parse_spec(t: Seq<char>, state: State) -> Result<
    (RuleModel, State),
    SingleRuleParseError,
>
    decreases t.len(), 0int,
{
    if t.len() == 0 {
        Err(SingleRuleParseError::Syntax)
    } else if t[0] == '@' {
        let ne = name_end_of(t, 1);
        let name = t.subrange(1, ne);
        if name == "import"@ {
            if state.rank() > State::Imports.rank() {
                Err(SingleRuleParseError::Hierarchy)
            } else {
                let pe = if t[t.len() - 1] == ';' {
                    t.len() - 1
                } else {
                    t.len() as int
                };
                match url_form_of(trim_of(t.subrange(ne, pe))) {
                    Some(u) => Ok((RuleModel::Import { url: u }, State::Imports)),
                    None => Err(SingleRuleParseError::Syntax),
                }
            }
        } else if name == "namespace"@ {
            if state.rank() > State::Namespaces.rank() {
                Err(SingleRuleParseError::Hierarchy)
            } else {
                let pe = if t[t.len() - 1] == ';' {
                    t.len() - 1
                } else {
                    t.len() as int
                };
                match ns_form_of(trim_of(t.subrange(ne, pe))) {
                    Some((prefix, u)) => Ok(
                        (RuleModel::Namespace { prefix, url: u }, State::Namespaces),
                    ),
                    None => Err(SingleRuleParseError::Syntax),
                }
            }
        } else {
            match at_kind_of(name) {
                None => Err(SingleRuleParseError::Syntax),
                Some(k) => match find_from(t, ne, '{') {
                    None => Err(SingleRuleParseError::Syntax),
                    Some(b) => {
                        if 1 <= ne && ne <= b && b + 2 <= t.len() && t[t.len() - 1] == '}' {
                            let prelude = trim_of(t.subrange(ne, b));
                            let body = t.subrange(b + 1, t.len() - 1);
                            if plain_text(prelude) {
                                if is_container(k) {
                                    match parse_list_spec(body) {
                                        None => Err(SingleRuleParseError::Syntax),
                                        Some(ms) => Ok(
                                            (
                                                at_block_model(k, prelude, Seq::empty(), ms),
                                                State::Body,
                                            ),
                                        ),
                                    }
                                } else {
                                    if balanced(trim_of(body)) {
                                        Ok(
                                            (
                                                at_block_model(
                                                    k,
                                                    prelude,
                                                    trim_of(body),
                                                    Seq::empty(),
                                                ),
                                                State::Body,
                                            ),
                                        )
                                    } else {
                                        Err(SingleRuleParseError::Syntax)
                                    }
                                }
                            } else {
                                Err(SingleRuleParseError::Syntax)
                            }
                        } else {
                            Err(SingleRuleParseError::Syntax)
                        }
                    },
                },
            }
        }
    } else {
        match find_from(t, 0, '{') {
            None => Err(SingleRuleParseError::Syntax),
            Some(b) => {
                if b + 2 <= t.len() && t[t.len() - 1] == '}' {
                    let selector = trim_of(t.subrange(0, b));
                    let body = t.subrange(b + 1, t.len() - 1);
                    if selector.len() > 0 && plain_text(selector) && balanced(trim_of(body)) {
                        Ok(
                            (
                                RuleModel::Style { selector, block: trim_of(body) },
                                State::Body,
                            ),
                        )
                    } else {
                        Err(SingleRuleParseError::Syntax)
                    }
                } else {
                    Err(SingleRuleParseError::Syntax)
                }
            },
        }
    }
}

/// What parsing a container's block as a rule list yields: the models of
/// the nested rules in order, or nothing if any nested rule is invalid.
/// Nested rules parse in the `Body` state, so top-level-only kinds fail.
pub open spec fn parse_list_spec(s: Seq<char>) -> Option<Seq<RuleModel>>
    decreases s.len(), 1int,
{
    if s.len() == 0 {
        Some(Seq::empty())
    } else if is_space(s[0]) {
        parse_list_spec(s.drop_first())
    } else {
        match extent_of(s, 0) {
            None => None,
            Some(p) => match parse_spec(s.subrange(0, p), State::Body) {
                Err(_) => None,
                Ok((m, _)) => match parse_list_spec(s.subrange(p, s.len() as int)) {
                    None => None,
                    Some(ms) => Some(Seq::empty().push(m) + ms),
                },
            },
        }
    }
}

/// Whether a rule of this kind is legal when parsing starts in `state`:
/// `@import` must not come beyond the `Imports` state, `@namespace` not
/// beyond the `Namespaces` state.
pub open spec fn admissible(m: RuleModel, state: State) -> bool {
    match m {
        RuleModel::Import { .. } => state.rank() <= State::Imports.rank(),
        RuleModel::Namespace { .. } => state.rank() <= State::Namespaces.rank(),
        _ => true,
    }
}

/// The parse result of the text `t` matches the rule built by the
/// executable parser: same model, same next state, every handle under the
/// lock `id`, and a well-formed model.
pub open spec fn result_matches(
    r: Result<(CssRule, State), SingleRuleParseError>,
    t: Seq<char>,
    state: State,
    id: u64,
) -> bool {
    match r {
        Ok((rule, st)) => parse_spec(t, state) == Ok::<_, SingleRuleParseError>(
            (rule.model(), st),
        ) && rule.same_lock(id) && wf_model(rule.model()) && st == rule.spec_rule_state()
            && admissible(rule.model(), state),
        Err(e) => parse_spec(t, state) == Err::<(RuleModel, State), _>(e),
    }
}

/// Parses a url payload.
fn parse_url_form(p: &str) -> (r: Option<String>)
    ensures
        match r {
            Some(u) => url_form_of(p@) == Some(u@) && wf_url(u@),
            None => url_form_of(p@) is None,
        },
{
    let n = p.unicode_len();
    if n >= 5 && eq_range(p, 0, 4, "url(") && p.get_char(n - 1) == ')' && all_url_chars(
        p,
        4,
        n - 1,
    ) {
        let u = p.substring_char(4, n - 1).to_owned();
        proof {
            assert forall|i: int| 0 <= i < u@.len() implies is_url_char(#[trigger] u@[i]) by {
                assert(u@[i] == p@[4 + i]);
            }
        }
        Some(u)
    } else if n >= 2 && p.get_char(0) == '"' && p.get_char(n - 1) == '"' && all_url_chars(
        p,
        1,
        n - 1,
    ) {
        let u = p.substring_char(1, n - 1).to_owned();
        proof {
            assert forall|i: int| 0 <= i < u@.len() implies is_url_char(#[trigger] u@[i]) by {
                assert(u@[i] == p@[1 + i]);
            }
        }
        Some(u)
    } else {
        None
    }
}

/// Parses a namespace prelude.
fn parse_ns_form(p: &str) -> (r: Option<(Option<String>, String)>)
    ensures
        match r {
            Some(pair) => ns_form_of(p@) == Some(
                (
                    match pair.0 {
                        Some(pre) => Some(pre@),
                        None => None,
                    },
                    pair.1@,
                ),
            ) && wf_url(pair.1@) && wf_prefix(
                match pair.0 {
                    Some(pre) => Some(pre@),
                    None => None,
                },
            ),
            None => ns_form_of(p@) is None,
        },
{
    if let Some(u) = parse_url_form(p) {
        return Some((None, u));
    }
    let n = p.unicode_len();
    let k = scan_name_end(p, 0);
    if 0 < k && k < n && space_char_at(p, k) {
        let r = first_nonspace_from(p, k);
        let rest = p.substring_char(r, n);
        match parse_url_form(rest) {
            Some(u) => {
                let prefix = p.substring_char(0, k).to_owned();
                proof {
                    assert forall|i: int| 0 <= i < prefix@.len() implies is_name_char(
                        #[trigger] prefix@[i],
                    ) by {
                        assert(prefix@[i] == p@[i]);
                    }
                }
                Some((Some(prefix), u))
            },
            None => None,
        }
    } else {
        None
    }
}

/// Whether the character at `i` is CSS whitespace.
fn space_char_at(s: &str, i: usize) -> (r: bool)
    requires
        i < s@.len(),
    ensures
        r == is_space(s@[i as int]),
{
    crate::scan::space_char(s.get_char(i))
}

/// Parses one rule from trimmed text `s`, building its handles under `lock`.
fn parse_rule(s: &str, state: State, lock: &SharedRwLock) -> (r: Result<
    (CssRule, State),
    SingleRuleParseError,
>)
    requires
        trim_of(s@) == s@,
    ensures
        result_matches(r, s@, state, lock.id()),
    decreases s@.len(), 0int,
{
    let n = s.unicode_len();
    if n == 0 {
        return Err(SingleRuleParseError::Syntax);
    }
    if s.get_char(0) == '@' {
        let ne = scan_name_end(s, 1);
        if eq_range(s, 1, ne, "import") {
            if state.beyond(State::Imports) {
                return Err(SingleRuleParseError::Hierarchy);
            }
            let pe = if s.get_char(n - 1) == ';' {
                n - 1
            } else {
                n
            };
            proof {
                if ne > pe {
                    assert(is_name_char(s@[n - 1]));
                }
            }
            let p = trim(s.substring_char(ne, pe));
            match parse_url_form(p) {
                Some(u) => {
                    let rule = CssRule::Import(Arc::new(lock.wrap(ImportRule { url: u })));
                    Ok((rule, State::Imports))
                },
                None => Err(SingleRuleParseError::Syntax),
            }
        } else if eq_range(s, 1, ne, "namespace") {
            if state.beyond(State::Namespaces) {
                return Err(SingleRuleParseError::Hierarchy);
            }
            let pe = if s.get_char(n - 1) == ';' {
                n - 1
            } else {
                n
            };
            proof {
                if ne > pe {
                    assert(is_name_char(s@[n - 1]));
                }
            }
            let p = trim(s.substring_char(ne, pe));
            match parse_ns_form(p) {
                Some((prefix, url)) => {
                    let rule = CssRule::Namespace(
                        Arc::new(lock.wrap(NamespaceRule { prefix, url })),
                    );
                    Ok((rule, State::Namespaces))
                },
                None => Err(SingleRuleParseError::Syntax),
            }
        } else {
            let kind_opt: Option<AtBlockKind> = if eq_range(s, 1, ne, "media") {
                Some(AtBlockKind::Media)
            } else if eq_range(s, 1, ne, "supports") {
                Some(AtBlockKind::Supports)
            } else if eq_range(s, 1, ne, "document") || eq_range(s, 1, ne, "-moz-document") {
                Some(AtBlockKind::Document)
            } else if eq_range(s, 1, ne, "keyframes") {
                Some(AtBlockKind::Keyframes)
            } else if eq_range(s, 1, ne, "page") {
                Some(AtBlockKind::Page)
            } else if eq_range(s, 1, ne, "font-face") {
                Some(AtBlockKind::FontFace)
            } else if eq_range(s, 1, ne, "font-feature-values") {
                Some(AtBlockKind::FontFeatureValues)
            } else if eq_range(s, 1, ne, "counter-style") {
                Some(AtBlockKind::CounterStyle)
            } else if eq_range(s, 1, ne, "viewport") {
                Some(AtBlockKind::Viewport)
            } else {
                None
            };
            let k = match kind_opt {
                None => {
                    return Err(SingleRuleParseError::Syntax);
                },
                Some(k) => k,
            };
            match find_char(s, ne, '{') {
                None => Err(SingleRuleParseError::Syntax),
                Some(b) => {
                    if n >= 2 && b <= n - 2 && s.get_char(n - 1) == '}' {
                        let pre = trim(s.substring_char(ne, b));
                        let pn = pre.unicode_len();
                        if !all_plain_chars(pre, 0, pn) {
                            return Err(SingleRuleParseError::Syntax);
                        }
                        proof {
                            assert(pre@.subrange(0, pre@.len() as int) =~= pre@);
                        }
                        let container = match k {
                            AtBlockKind::Media => true,
                            AtBlockKind::Supports => true,
                            AtBlockKind::Document => true,
                            _ => false,
                        };
                        if container {
                            let body = s.substring_char(b + 1, n - 1);
                            match parse_rule_list(body, lock) {
                                None => Err(SingleRuleParseError::Syntax),
                                Some(rules) => {
                                    let condition = pre.to_owned();
                                    let rule = match k {
                                        AtBlockKind::Supports => CssRule::Supports(
                                            Arc::new(
                                                lock.wrap(SupportsRule { condition, rules }),
                                            ),
                                        ),
                                        AtBlockKind::Document => CssRule::Document(
                                            Arc::new(
                                                lock.wrap(DocumentRule { condition, rules }),
                                            ),
                                        ),
                                        _ => CssRule::Media(
                                            Arc::new(lock.wrap(MediaRule { condition, rules })),
                                        ),
                                    };
                                    Ok((rule, State::Body))
                                },
                            }
                        } else {
                            let body = trim(s.substring_char(b + 1, n - 1));
                            let bn = body.unicode_len();
                            proof {
                                assert(body@.subrange(0, body@.len() as int) =~= body@);
                            }
                            if !check_balanced(body, 0, bn) {
                                return Err(SingleRuleParseError::Syntax);
                            }
                            let prelude = pre.to_owned();
                            let block = body.to_owned();
                            let rule = match k {
                                AtBlockKind::Keyframes => CssRule::Keyframes(
                                    Arc::new(lock.wrap(KeyframesRule { name: prelude, block })),
                                ),
                                AtBlockKind::Page => CssRule::Page(
                                    Arc::new(lock.wrap(PageRule { selector: prelude, block })),
                                ),
                                AtBlockKind::FontFeatureValues => CssRule::FontFeatureValues(
                                    Arc::new(
                                        lock.wrap(
                                            FontFeatureValuesRule { families: prelude, block },
                                        ),
                                    ),
                                ),
                                AtBlockKind::CounterStyle => CssRule::CounterStyle(
                                    Arc::new(
                                        lock.wrap(CounterStyleRule { name: prelude, block }),
                                    ),
                                ),
                                AtBlockKind::Viewport => CssRule::Viewport(
                                    Arc::new(lock.wrap(ViewportRule { prelude, block })),
                                ),
                                _ => CssRule::FontFace(
                                    Arc::new(lock.wrap(FontFaceRule { prelude, block })),
                                ),
                            };
                            Ok((rule, State::Body))
                        }
                    } else {
                        Err(SingleRuleParseError::Syntax)
                    }
                },
            }
        }
    } else {
        match find_char(s, 0, '{') {
            None => Err(SingleRuleParseError::Syntax),
            Some(b) => {
                if n >= 2 && b <= n - 2 && s.get_char(n - 1) == '}' {
                    let sel = trim(s.substring_char(0, b));
                    let sn = sel.unicode_len();
                    if sn == 0 || !all_plain_chars(sel, 0, sn) {
                        return Err(SingleRuleParseError::Syntax);
                    }
                    proof {
                        assert(sel@.subrange(0, sel@.len() as int) =~= sel@);
                        let sub = s@.subrange(0, b as int);
                        crate::scan::lemma_trimmed_ends(s@);
                        assert(sub.len() > 0) by {
                            if sub.len() == 0 {
                                assert(trim_of(sub) =~= Seq::<char>::empty());
                            }
                        }
                        assert(sub[0] == s@[0]);
                        assert(!is_space(sub[0]));
                        assert(!(forall|i: int|
                            0 <= i < sub.len() ==> is_space(#[trigger] sub[i])));
                        assert(is_first_nonspace(sub, 0));
                        assert(exists|i: int| is_first_nonspace(sub, i));
                        crate::scan::lemma_first_nonspace_unique(sub, 0, crate::scan::start_of(sub));
                        crate::scan::lemma_end_nonspace_exists(sub);
                        assert(crate::scan::is_end_nonspace(sub, crate::scan::endx_of(sub)));
                        assert(sel@ == sub.subrange(0, crate::scan::endx_of(sub)));
                        assert(sel@[0] == sub[0]);
                    }
                    let body = trim(s.substring_char(b + 1, n - 1));
                    let bn = body.unicode_len();
                    proof {
                        assert(body@.subrange(0, body@.len() as int) =~= body@);
                    }
                    if !check_balanced(body, 0, bn) {
                        return Err(SingleRuleParseError::Syntax);
                    }
                    let rule = CssRule::Style(
                        Arc::new(
                            lock.wrap(
                                StyleRule { selector: sel.to_owned(), block: body.to_owned() },
                            ),
                        ),
                    );
                    Ok((rule, State::Body))
                } else {
                    Err(SingleRuleParseError::Syntax)
                }
            },
        }
    }
}

/// Parses a container's block as a rule list, in the `Body` state.
fn parse_rule_list(s: &str, lock: &SharedRwLock) -> (r: Option<Vec<CssRule>>)
    ensures
        match r {
            Some(v) => parse_list_spec(s@) == Some(CssRule::models_of(v@))
                && CssRule::list_same_lock(v@, lock.id()) && wf_models(CssRule::models_of(v@)),
            None => parse_list_spec(s@) is None,
        },
    decreases s@.len(), 1int,
{
    let n = s.unicode_len();
    let mut pos: usize = 0;
    let mut out: Vec<CssRule> = Vec::new();
    proof {
        assert(s@.subrange(0, n as int) =~= s@);
        assert(out@ =~= Seq::<CssRule>::empty());
        if parse_list_spec(s@) is Some {
            let ms = parse_list_spec(s@)->Some_0;
            assert(CssRule::models_of(out@) + ms =~= ms);
        }
    }
    while pos < n
        invariant
            0 <= pos <= n,
            n == s@.len(),
            parse_list_spec(s@) == (match parse_list_spec(s@.subrange(pos as int, n as int)) {
                Option::None => Option::None,
                Option::Some(ms) => Option::Some(CssRule::models_of(out@) + ms),
            }),
            CssRule::list_same_lock(out@, lock.id()),
            wf_models(CssRule::models_of(out@)),
        decreases n - pos,
    {
        let ghost suffix = s@.subrange(pos as int, n as int);
        if space_char_at(s, pos) {
            proof {
                assert(suffix[0] == s@[pos as int]);
                assert(suffix.drop_first() =~= s@.subrange(pos + 1, n as int));
            }
            pos += 1;
        } else {
            let sub = s.substring_char(pos, n);
            match find_extent(sub, 0) {
                None => {
                    proof {
                        assert(suffix[0] == s@[pos as int]);
                    }
                    return None;
                },
                Some(p) => {
                    let rtext = sub.substring_char(0, p);
                    proof {
                        assert(rtext@ =~= suffix.subrange(0, p as int));
                        assert(suffix[0] == s@[pos as int]);
                    }
                    proof {
                        assert(rtext@[0] == s@[pos as int]);
                        assert(rtext@[rtext@.len() - 1] == ';' || rtext@[rtext@.len() - 1]
                            == '}');
                        lemma_trim_of_trimmed(rtext@);
                    }
                    match parse_rule(rtext, State::Body, lock) {
                        Err(_) => {
                            return None;
                        },
                        Ok((rule, _st)) => {
                            proof {
                                assert(suffix.subrange(p as int, suffix.len() as int)
                                    =~= s@.subrange(pos + p, n as int));
                                CssRule::lemma_models_of_push(out@, rule);
                                CssRule::lemma_list_same_lock_push(out@, rule, lock.id());
                                if parse_list_spec(s@.subrange(pos + p, n as int)) is Some {
                                    let ms = parse_list_spec(
                                        s@.subrange(pos + p, n as int),
                                    )->Some_0;
                                    assert(CssRule::models_of(out@) + (Seq::empty().push(
                                        rule.model(),
                                    ) + ms) =~= CssRule::models_of(out@.push(rule)) + ms);
                                }
                                assert(wf_models(CssRule::models_of(out@.push(rule)))) by {
                                    let q = CssRule::models_of(out@).push(rule.model());
                                    assert forall|i: int| 0 <= i < q.len() implies wf_model(
                                        #[trigger] q[i],
                                    ) by {
                                        if i < q.len() - 1 {
                                            assert(q[i] == CssRule::models_of(out@)[i]);
                                        } else {
                                            assert(q[i] == rule.model());
                                        }
                                    }
                                }
                            }
                            out.push(rule);
                            pos = pos + p;
                        },
                    }
                },
            }
        }
    }
    proof {
        assert(s@.subrange(n as int, n as int) =~= Seq::<char>::empty());
        assert(CssRule::models_of(out@) + Seq::<RuleModel>::empty() =~= CssRule::models_of(out@));
    }
    Some(out)
}

/// The state single-rule parsing starts in: the given one, or `Body` for a
/// nested or recursive parse.
pub open spec fn start_state(state: Option<State>) -> State {
    match state {
        Some(st) => st,
        None => State::Body,
    }
}

impl CssRule {
    /// Parses a single CSS rule against its parent stylesheet.
    ///
    /// Returns the parsed rule and the state the grammar-ordering machine
    /// advances to, so the caller can validate the next rule's legality; or
    /// the classified parse error. A `@namespace` rule registers its prefix
    /// in the parent's namespace table as a side effect, which is not rolled
    /// back if a later, unrelated rule fails to parse. Exclusive access to
    /// that table for the duration of the call is what `parent` being
    /// borrowed mutably grants. `loader` is the capability a nested
    /// `@import` load would resolve through; the fetch itself happens
    /// entirely outside this core.
    pub fn parse(
        css: &str,
        parent: &mut StylesheetContents,
        shared_lock: &SharedRwLock,
        state: Option<State>,
        loader: Option<&StylesheetLoader>,
    ) -> (r: Result<(CssRule, State), SingleRuleParseError>)
        ensures
            result_matches(r, trim_of(css@), start_state(state), shared_lock.id()),
            final(parent).origin == old(parent).origin,
            final(parent).url_data.url() == old(parent).url_data.url(),
            final(parent).quirks_mode == old(parent).quirks_mode,
            match r {
                Ok((rule, st)) => match rule.model() {
                    RuleModel::Namespace { prefix, url } => final(parent).namespaces@ == old(
                        parent,
                    ).namespaces@.registered(prefix, url),
                    _ => final(parent).namespaces@ == old(parent).namespaces@,
                },
                Err(_) => final(parent).namespaces@ == old(parent).namespaces@,
            },
    {
        let st0 = match state {
            Some(st) => st,
            None => State::Body,
        };
        let t = trim(css);
        let r = parse_rule(t, st0, shared_lock);
        match r {
            Ok((rule, st)) => {
                if let CssRule::Namespace(arc) = &rule {
                    let g = shared_lock.read();
                    let nsr = arc.read_with(&g);
                    let prefix = match &nsr.prefix {
                        Some(p) => Some(p.clone()),
                        None => None,
                    };
                    let url = nsr.url.clone();
                    parent.namespaces.register(prefix, url);
                }
                Ok((rule, st))
            },
            Err(e) => Err(e),
        }
    }
}

} // verus!
