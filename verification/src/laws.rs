//! The cross-cutting laws of the rule type, stated and proved once:
//! purity of type identification, shape preservation and lock isolation of
//! deep clones, and the parse/serialize round trip.

use vstd::prelude::*;

use crate::errors::SingleRuleParseError;
use crate::parse::{
    at_block_model, at_kind_of, is_container, ns_form_of, parse_list_spec, parse_spec,
    url_form_of, AtBlockKind, State,
};
use crate::rules::{
    kind_of, wf_block, wf_model, wf_models, wf_prelude, wf_url, CssRule, CssRuleType, RuleModel,
};
use crate::scan::{
    balanced, depth, endx_of, extent_of, find_from, is_end_nonspace, is_first_at,
    is_first_nonspace, is_first_term,
    is_name_char, is_name_run_end, is_space, is_term, is_url_char, lemma_depth_extend,
    lemma_end_nonspace_unique, lemma_first_at_unique, lemma_first_nonspace_unique,
    lemma_first_term_unique, lemma_name_run_end_unique, name_end_of, start_of, trim_of,
};
use crate::serialize::{css_of, css_of_list, opt_sp};

verus! {

broadcast use vstd::std_specs::vec::group_vec_axioms, crate::shared_lock::Locked::lemma_data_decreases;

/// The ordered sequence of rule types of a rule tree, in preorder.
pub open spec fn type_seq(m: RuleModel) -> Seq<CssRuleType>
    decreases m,
{
    match m {
        RuleModel::Media { rules, .. } => seq![kind_of(m)] + list_type_seq(rules),
        RuleModel::Supports { rules, .. } => seq![kind_of(m)] + list_type_seq(rules),
        RuleModel::Document { rules, .. } => seq![kind_of(m)] + list_type_seq(rules),
        _ => seq![kind_of(m)],
    }
}

/// The ordered sequence of rule types of a rule list, in preorder.
pub open spec fn list_type_seq(s: Seq<RuleModel>) -> Seq<CssRuleType>
    decreases s,
{
    if s.len() == 0 {
        Seq::empty()
    } else {
        type_seq(s.first()) + list_type_seq(s.drop_first())
    }
}

/// Type identification is pure and guard-independent: any two rules of the
/// same variant report the same type, whatever their payloads, locks or
/// guards.
pub proof fn lemma_rule_type_pure(a: CssRule, b: CssRule)
    requires
        kind_of(a.model()) == kind_of(b.model()),
    ensures
        a.spec_rule_type() == b.spec_rule_type(),
{
}

/// Deep-clone shape preservation: a clone with the same model — which
/// `deep_clone_with_lock` ensures — yields the same ordered sequence of
/// rule types and identical canonical CSS text.
pub proof fn lemma_clone_shape(source: RuleModel, clone: RuleModel)
    requires
        clone == source,
    ensures
        type_seq(clone) == type_seq(source),
        crate::serialize::css_of(clone) == crate::serialize::css_of(source),
{
}

/// Whether some handle reachable from the rule is protected by the lock
/// with identity `id`.
pub open spec fn uses_lock(r: CssRule, id: u64) -> bool
    decreases r,
{
    match r {
        CssRule::Namespace(a) => a.lock_id() == id,
        CssRule::Import(a) => a.lock_id() == id,
        CssRule::Style(a) => a.lock_id() == id,
        CssRule::Media(a) => a.lock_id() == id || list_uses_lock(a.data().rules@, id),
        CssRule::FontFace(a) => a.lock_id() == id,
        CssRule::FontFeatureValues(a) => a.lock_id() == id,
        CssRule::CounterStyle(a) => a.lock_id() == id,
        CssRule::Viewport(a) => a.lock_id() == id,
        CssRule::Keyframes(a) => a.lock_id() == id,
        CssRule::Supports(a) => a.lock_id() == id || list_uses_lock(a.data().rules@, id),
        CssRule::Page(a) => a.lock_id() == id,
        CssRule::Document(a) => a.lock_id() == id || list_uses_lock(a.data().rules@, id),
    }
}

/// Whether some handle reachable from the rule list is protected by the
/// lock with identity `id`.
pub open spec fn list_uses_lock(s: Seq<CssRule>, id: u64) -> bool
    decreases s,
{
    if s.len() == 0 {
        false
    } else {
        list_uses_lock(s.drop_last(), id) || uses_lock(s.last(), id)
    }
}

/// The nested rule list of a container rule, empty for other kinds.
pub open spec fn nested_rules(r: CssRule) -> Seq<CssRule> {
    match r {
        CssRule::Media(a) => a.data().rules@,
        CssRule::Supports(a) => a.data().rules@,
        CssRule::Document(a) => a.data().rules@,
        _ => Seq::empty(),
    }
}

/// Deep-clone lock isolation: a tree whose every handle lies under the
/// destination lock — which `deep_clone_with_lock` ensures — reaches no
/// handle of any other lock, so no operation on the clone can require,
/// block on, or observe the source lock.
pub proof fn lemma_clone_lock_isolation(r: CssRule, destination_id: u64, source_id: u64)
    requires
        r.same_lock(destination_id),
        source_id != destination_id,
    ensures
        !uses_lock(r, source_id),
    decreases r,
{
    if r is Media || r is Supports || r is Document {
        lemma_list_lock_isolation(nested_rules(r), destination_id, source_id);
    }
}

/// Lock isolation for a nested rule list.
pub proof fn lemma_list_lock_isolation(s: Seq<CssRule>, destination_id: u64, source_id: u64)
    requires
        CssRule::list_same_lock(s, destination_id),
        source_id != destination_id,
    ensures
        !list_uses_lock(s, source_id),
    decreases s,
{
    if s.len() > 0 {
        lemma_list_lock_isolation(s.drop_last(), destination_id, source_id);
        lemma_clone_lock_isolation(s.last(), destination_id, source_id);
    }
}

/// A complete rule text: non-empty, starting with a non-space character,
/// and first reaching a balanced `;` or `}` exactly at its end — so in a
/// rule list it is split off whole.
pub open spec fn closed_text(s: Seq<char>) -> bool {
    s.len() > 0 && !is_space(s[0]) && is_first_term(s, 0, s.len() as int)
}

/// Depth distributes over concatenation.
pub proof fn lemma_depth_concat(a: Seq<char>, b: Seq<char>)
    ensures
        depth(a + b) == depth(a) + depth(b),
    decreases b.len(),
{
    if b.len() == 0 {
        assert(a + b =~= a);
    } else {
        lemma_depth_concat(a, b.drop_last());
        assert((a + b).drop_last() =~= a + b.drop_last());
        assert((a + b).last() == b.last());
    }
}

/// A text without braces has depth zero.
pub proof fn lemma_depth_braceless(s: Seq<char>)
    requires
        forall|j: int| 0 <= j < s.len() ==> #[trigger] s[j] != '{' && s[j] != '}',
    ensures
        depth(s) == 0,
    decreases s.len(),
{
    if s.len() > 0 {
        lemma_depth_braceless(s.drop_last());
    }
}

/// A head without structure characters, then an opening brace, then a
/// balanced middle, then the closing brace, is a complete rule text.
pub proof fn lemma_closed_wrapped(head: Seq<char>, mid: Seq<char>)
    requires
        head.len() > 0,
        !is_space(head[0]),
        forall|j: int| 0 <= j < head.len() ==> #[trigger] head[j] != ';' && head[j] != '{'
            && head[j] != '}',
        balanced(mid),
    ensures
        closed_text(head + " { "@ + mid + "}"@),
{
    reveal_strlit(" { ");
    reveal_strlit("}");
    let t = head + " { "@ + mid + "}"@;
    let h = head.len() as int;
    let n = t.len() as int;
    assert(t[0] == head[0]);
    assert(t[n - 1] == '}');
    assert forall|q: int| 0 <= q <= n implies depth(#[trigger] t.subrange(0, q)) == spec_depth_at(
        head,
        mid,
        q,
    ) by {
        if q <= h + 1 {
            lemma_depth_braceless(t.subrange(0, q));
        } else if q <= h + 3 {
            let flat = t.subrange(0, h + 1);
            lemma_depth_braceless(flat);
            if q == h + 2 {
                lemma_depth_extend(t, 0, h + 1);
            } else {
                lemma_depth_extend(t, 0, h + 1);
                lemma_depth_extend(t, 0, h + 2);
                assert(t.subrange(0, h + 2) =~= t.subrange(0, h + 1).push(t[h + 1]));
            }
        } else if q <= h + 3 + mid.len() {
            assert(t.subrange(0, q) =~= (head + " { "@) + mid.subrange(0, q - h - 3));
            lemma_depth_concat(head + " { "@, mid.subrange(0, q - h - 3));
            assert(depth(head + " { "@) == 1) by {
                lemma_depth_concat(head, " { "@);
                lemma_depth_braceless(head);
                lemma_depth_three_spaces();
            }
        } else {
            assert(t.subrange(0, q) =~= ((head + " { "@) + mid) + "}"@.subrange(0, 1));
            lemma_depth_concat((head + " { "@) + mid, "}"@.subrange(0, 1));
            lemma_depth_concat(head + " { "@, mid);
            lemma_depth_concat(head, " { "@);
            lemma_depth_braceless(head);
            lemma_depth_three_spaces();
            assert("}"@.subrange(0, 1) =~= "}"@);
            assert(depth("}"@) == -1) by {
                assert("}"@.drop_last() =~= Seq::<char>::empty());
                assert(depth(Seq::<char>::empty()) == 0);
                assert("}"@.last() == '}');
            }
        }
    }
    assert(is_term(t, 0, n)) by {
        assert(t.subrange(0, n) =~= t);
    }
    assert forall|q: int| 0 < q < n implies !is_term(t, 0, q) by {
        if t[q - 1] == ';' || t[q - 1] == '}' {
            assert(h + 3 < q);
            assert(spec_depth_at(head, mid, q) >= 1);
        }
    }
}

/// The brace depth of a prefix of `head + " { " + mid + "}"`, by region.
pub open spec fn spec_depth_at(head: Seq<char>, mid: Seq<char>, q: int) -> int {
    let h = head.len() as int;
    if q <= h + 1 {
        0
    } else if q <= h + 3 + mid.len() {
        1 + (if q <= h + 3 {
            0int
        } else {
            depth(mid.subrange(0, q - h - 3))
        })
    } else {
        0
    }
}

/// The depth of the text ` { ` is one.
pub proof fn lemma_depth_three_spaces()
    ensures
        depth(" { "@) == 1,
{
    reveal_strlit(" { ");
    let w = " { "@;
    assert(seq![' '].drop_last() =~= Seq::<char>::empty());
    assert(depth(Seq::<char>::empty()) == 0);
    assert(seq![' '].last() == ' ');
    assert(depth(seq![' ']) == 0);
    assert(seq![' ', '{'].drop_last() =~= seq![' ']);
    assert(seq![' ', '{'].last() == '{');
    assert(depth(seq![' ', '{']) == 1);
    assert(w.drop_last() =~= seq![' ', '{']);
    assert(w.last() == ' ');
    assert(depth(w) == 1);
}

/// Trimming strips all-space padding around an already-trimmed text.
pub proof fn lemma_trim_pad(a: Seq<char>, y: Seq<char>, b: Seq<char>)
    requires
        trim_of(y) == y,
        forall|j: int| 0 <= j < a.len() ==> is_space(#[trigger] a[j]),
        forall|j: int| 0 <= j < b.len() ==> is_space(#[trigger] b[j]),
    ensures
        trim_of(a + y + b) == y,
{
    let s = a + y + b;
    if y.len() == 0 {
        assert(forall|j: int| 0 <= j < s.len() ==> is_space(#[trigger] s[j]));
        assert(trim_of(s) =~= y);
    } else {
        crate::scan::lemma_trimmed_ends(y);
        let al = a.len() as int;
        let yl = y.len() as int;
        assert(s[al] == y[0]);
        assert(s[al + yl - 1] == y[yl - 1]);
        assert(is_first_nonspace(s, al));
        assert(is_end_nonspace(s, al + yl));
        assert(exists|i: int| is_first_nonspace(s, i));
        assert(exists|e: int| is_end_nonspace(s, e));
        lemma_first_nonspace_unique(s, al, start_of(s));
        lemma_end_nonspace_unique(s, al + yl, endx_of(s));
        assert(!(forall|i: int| 0 <= i < s.len() ==> is_space(#[trigger] s[i]))) by {
            assert(!is_space(s[al]));
        }
        assert(s.subrange(al, al + yl) =~= y);
    }
}

/// The `url(U)` form parses back to `U`.
pub proof fn lemma_url_form(url: Seq<char>)
    requires
        wf_url(url),
    ensures
        url_form_of("url("@ + url + seq![')']) == Some(url),
{
    reveal_strlit("url(");
    let p = "url("@ + url + seq![')'];
    assert(p.len() == url.len() + 5);
    assert(p.subrange(0, 4) =~= "url("@);
    assert(p[p.len() - 1] == ')');
    assert(forall|j: int| 4 <= j < p.len() - 1 ==> is_url_char(#[trigger] p[j]));
    assert(p.subrange(4, p.len() - 1) =~= url);
}

/// The run of name characters after the `@` of an at-rule text ends
/// exactly where the name ends.
pub proof fn lemma_at_name(t: Seq<char>, name: Seq<char>)
    requires
        t.len() > 1 + name.len(),
        name.len() >= 1,
        forall|j: int| 0 <= j < name.len() ==> t[j + 1] == #[trigger] name[j] && is_name_char(
            name[j],
        ),
        !is_name_char(t[1 + name.len() as int]),
    ensures
        name_end_of(t, 1) == 1 + name.len(),
        t.subrange(1, 1 + name.len() as int) == name,
    decreases 0int,
{
    assert(is_name_run_end(t, 1, 1 + name.len() as int)) by {
        assert(forall|j: int| 1 <= j < 1 + name.len() ==> is_name_char(#[trigger] t[j]) || !is_name_char(
            name[j - 1],
        ));
    }
    lemma_name_run_end_unique(t, 1, 1 + name.len() as int, name_end_of(t, 1));
    assert(t.subrange(1, 1 + name.len() as int) =~= name);
}

/// A flat rule text — no braces, a single final `;` — is complete.
pub proof fn lemma_closed_flat(s: Seq<char>)
    requires
        s.len() > 0,
        !is_space(s[0]),
        s[s.len() - 1] == ';',
        forall|j: int| 0 <= j < s.len() ==> #[trigger] s[j] != '{' && s[j] != '}',
        forall|j: int| 0 <= j < s.len() - 1 ==> #[trigger] s[j] != ';',
    ensures
        closed_text(s),
{
    assert forall|q: int| 0 <= q <= s.len() implies depth(#[trigger] s.subrange(0, q)) == 0 by {
        lemma_depth_braceless(s.subrange(0, q));
    }
    assert(is_term(s, 0, s.len() as int)) by {
        assert(s.subrange(0, s.len() as int) =~= s);
    }
}

/// The state the grammar-ordering machine reaches after a rule of this kind.
pub open spec fn state_after(m: RuleModel) -> State {
    match m {
        RuleModel::Import { .. } => State::Imports,
        RuleModel::Namespace { .. } => State::Namespaces,
        _ => State::Body,
    }
}

/// Name characters are never structure or quoting characters.
pub proof fn lemma_name_char_classes()
    ensures
        forall|c: char| #[trigger] is_name_char(c) ==> c != '{' && c != '}' && c != ';' && c
            != '(' && c != '"' && c != '@',
{
}

/// Round trip of an `@import` rule.
proof fn lemma_import_round_trip(url: Seq<char>, state: State)
    requires
        wf_url(url),
        state.rank() <= State::Imports.rank(),
    ensures
        closed_text(css_of(RuleModel::Import { url })),
        parse_spec(css_of(RuleModel::Import { url }), state) == Ok::<
            (RuleModel, State),
            SingleRuleParseError,
        >((RuleModel::Import { url }, State::Imports)),
{
    reveal_strlit("@import url(");
    reveal_strlit(");");
    reveal_strlit("import");
    reveal_strlit("url(");
    let t = css_of(RuleModel::Import { url });
    assert(t == "@import url("@ + url + ");"@);
    assert(t.len() == url.len() + 14);
    assert(t[0] == '@');
    lemma_at_name(t, "import"@);
    let y = "url("@ + url + seq![')'];
    assert(t.subrange(7, t.len() - 1) =~= seq![' '] + y + Seq::<char>::empty());
    assert(y[0] == 'u' && y[y.len() - 1] == ')');
    crate::scan::lemma_trim_of_trimmed(y);
    lemma_trim_pad(seq![' '], y, Seq::empty());
    lemma_url_form(url);
    assert(t[t.len() - 1] == ';');
    assert(parse_spec(t, state) == Ok::<(RuleModel, State), SingleRuleParseError>(
        (RuleModel::Import { url }, State::Imports),
    ));
    lemma_closed_flat(t);
}

/// A prefixed namespace prelude parses back to its prefix and url.
#[verifier::rlimit(100)]
proof fn lemma_ns_form_prefixed(p: Seq<char>, url: Seq<char>)
    requires
        p.len() > 0,
        forall|j: int| 0 <= j < p.len() ==> is_name_char(#[trigger] p[j]),
        wf_url(url),
    ensures
        ns_form_of(p + seq![' '] + ("url("@ + url + seq![')'])) == Some((Option::Some(p), url)),
{
    reveal_strlit("url(");
    lemma_name_char_classes();
    lemma_url_form(url);
    let u = "url("@ + url + seq![')'];
    let y = p + seq![' '] + u;
    assert(url_form_of(y) is None) by {
        if y.len() >= 5 && y.subrange(0, 4) == "url("@ {
            assert(y.subrange(0, 4)[3] == y[3]);
            assert(y[3] == '(');
            if p.len() > 3 {
                assert(y[3] == p[3]);
            } else if p.len() == 3 {
                assert(y[3] == ' ');
            } else if p.len() == 2 {
                assert(y[3] == 'u');
            } else {
                assert(y[3] == 'r');
            }
            assert(false);
        }
        if y.len() >= 2 && y[0] == '"' {
            assert(y[0] == p[0]);
            assert(false);
        }
    }
    assert(is_name_run_end(y, 0, p.len() as int));
    lemma_name_run_end_unique(y, 0, p.len() as int, name_end_of(y, 0));
    assert(is_space(y[p.len() as int]));
    assert(crate::scan::is_first_nonspace_from(y, p.len() as int, p.len() as int + 1));
    crate::scan::lemma_first_nonspace_from_unique(
        y,
        p.len() as int,
        p.len() as int + 1,
        crate::scan::nonspace_from_of(y, p.len() as int),
    );
    assert(y.subrange(p.len() as int + 1, y.len() as int) =~= u);
    assert(y.subrange(0, p.len() as int) =~= p);
}

/// Round trip of an `@namespace` rule without a prefix.
#[verifier::rlimit(100)]
proof fn lemma_namespace_none_round_trip(url: Seq<char>, state: State)
    requires
        wf_url(url),
        state.rank() <= State::Namespaces.rank(),
    ensures
        closed_text(css_of(RuleModel::Namespace { prefix: Option::None, url })),
        parse_spec(css_of(RuleModel::Namespace { prefix: Option::None, url }), state) == Ok::<
            (RuleModel, State),
            SingleRuleParseError,
        >((RuleModel::Namespace { prefix: Option::None, url }, State::Namespaces)),
{
    reveal_strlit("@namespace ");
    reveal_strlit(");");
    reveal_strlit("namespace");
    reveal_strlit("url(");
    reveal_strlit("import");
    let t = css_of(RuleModel::Namespace { prefix: Option::None, url });
    let u = "url("@ + url + seq![')'];
    lemma_url_form(url);
    assert(u[0] == 'u' && u[u.len() - 1] == ')');
    assert(t =~= "@namespace "@ + "url("@ + url + ");"@);
    assert(t.len() == url.len() + 17);
    assert(t[0] == '@');
    lemma_at_name(t, "namespace"@);
    assert(t.subrange(10, t.len() - 1) =~= seq![' '] + u + Seq::<char>::empty());
    crate::scan::lemma_trim_of_trimmed(u);
    lemma_trim_pad(seq![' '], u, Seq::empty());
    assert(ns_form_of(u) == Some((Option::<Seq<char>>::None, url)));
    assert(t[t.len() - 1] == ';');
    assert(parse_spec(t, state) == Ok::<(RuleModel, State), SingleRuleParseError>(
        (RuleModel::Namespace { prefix: Option::None, url }, State::Namespaces),
    ));
    lemma_closed_flat(t);
}

/// Round trip of an `@namespace` rule with a prefix.
#[verifier::rlimit(100)]
proof fn lemma_namespace_some_round_trip(p: Seq<char>, url: Seq<char>, state: State)
    requires
        p.len() > 0,
        forall|j: int| 0 <= j < p.len() ==> is_name_char(#[trigger] p[j]),
        wf_url(url),
        state.rank() <= State::Namespaces.rank(),
    ensures
        closed_text(css_of(RuleModel::Namespace { prefix: Option::Some(p), url })),
        parse_spec(css_of(RuleModel::Namespace { prefix: Option::Some(p), url }), state) == Ok::<
            (RuleModel, State),
            SingleRuleParseError,
        >((RuleModel::Namespace { prefix: Option::Some(p), url }, State::Namespaces)),
{
    reveal_strlit("@namespace ");
    reveal_strlit(");");
    reveal_strlit("namespace");
    reveal_strlit("url(");
    reveal_strlit("import");
    reveal_strlit(" ");
    lemma_name_char_classes();
    let t = css_of(RuleModel::Namespace { prefix: Option::Some(p), url });
    let u = "url("@ + url + seq![')'];
    lemma_url_form(url);
    assert(u[0] == 'u' && u[u.len() - 1] == ')');
    assert(t =~= "@namespace "@ + p + " "@ + "url("@ + url + ");"@);
    assert(t[0] == '@');
    lemma_at_name(t, "namespace"@);
    let y = p + seq![' '] + u;
    assert(t.subrange(10, t.len() - 1) =~= seq![' '] + y + Seq::<char>::empty());
    assert(y[0] == p[0] && !is_name_char(' '));
    assert(!is_space(p[0]));
    assert(y[y.len() - 1] == ')');
    crate::scan::lemma_trim_of_trimmed(y);
    lemma_trim_pad(seq![' '], y, Seq::empty());
    lemma_ns_form_prefixed(p, url);
    assert(t[t.len() - 1] == ';');
    assert(parse_spec(t, state) == Ok::<(RuleModel, State), SingleRuleParseError>(
        (RuleModel::Namespace { prefix: Option::Some(p), url }, State::Namespaces),
    ));
    lemma_namespace_some_closed(p, url);
}

/// The text of a prefixed `@namespace` rule is a complete rule text.
#[verifier::rlimit(100)]
proof fn lemma_namespace_some_closed(p: Seq<char>, url: Seq<char>)
    requires
        p.len() > 0,
        forall|j: int| 0 <= j < p.len() ==> is_name_char(#[trigger] p[j]),
        wf_url(url),
    ensures
        closed_text("@namespace "@ + p + " "@ + "url("@ + url + ");"@),
{
    reveal_strlit("@namespace ");
    reveal_strlit(");");
    reveal_strlit("url(");
    reveal_strlit(" ");
    lemma_name_char_classes();
    let t = "@namespace "@ + p + " "@ + "url("@ + url + ");"@;
    assert(t[0] == '@');
    assert(t[t.len() - 1] == ';');
    lemma_closed_flat(t);
}

/// Round trip of a style rule.
#[verifier::rlimit(100)]
proof fn lemma_style_round_trip(selector: Seq<char>, block: Seq<char>, state: State)
    requires
        selector.len() > 0,
        selector[0] != '@',
        wf_prelude(selector),
        wf_block(block),
    ensures
        closed_text(css_of(RuleModel::Style { selector, block })),
        parse_spec(css_of(RuleModel::Style { selector, block }), state) == Ok::<
            (RuleModel, State),
            SingleRuleParseError,
        >((RuleModel::Style { selector, block }, State::Body)),
{
    reveal_strlit(" { ");
    reveal_strlit(" }");
    reveal_strlit("}");
    let t = css_of(RuleModel::Style { selector, block });
    let sl = selector.len() as int;
    let mid = block + seq![' '];
    assert(t =~= selector + " { "@ + mid + "}"@);
    crate::scan::lemma_trimmed_ends(selector);
    assert(balanced(mid)) by {
        lemma_depth_concat(block, seq![' ']);
        assert(seq![' '].drop_last() =~= Seq::<char>::empty());
        assert(seq![' '].last() == ' ');
        assert(depth(Seq::<char>::empty()) == 0);
        assert(depth(seq![' ']) == 0);
        assert(depth(mid) == 0);
        assert forall|q: int| 0 <= q <= mid.len() implies depth(#[trigger] mid.subrange(0, q))
            >= 0 by {
            if q <= block.len() {
                assert(mid.subrange(0, q) =~= block.subrange(0, q));
                assert(depth(block.subrange(0, q)) >= 0);
            } else {
                assert(q == mid.len());
                assert(mid.subrange(0, q) =~= mid);
            }
        }
    }
    lemma_closed_wrapped(selector, mid);
    // the qualified-rule branch of the parse
    assert(t[0] == selector[0]);
    assert(is_first_at(t, 0, '{', sl + 1));
    lemma_first_at_unique(t, 0, '{', sl + 1, {
        let w = choose|i: int| is_first_at(t, 0, '{', i);
        w
    });
    assert(find_from(t, 0, '{') == Some(sl + 1));
    assert(t[t.len() - 1] == '}');
    assert(t.subrange(0, sl + 1) =~= selector + seq![' ']);
    lemma_trim_pad(Seq::empty(), selector, seq![' ']);
    assert(trim_of(t.subrange(0, sl + 1)) == selector);
    assert(t.subrange(sl + 2, t.len() - 1) =~= seq![' '] + block + seq![' ']);
    lemma_trim_pad(seq![' '], block, seq![' ']);
    assert(parse_spec(t, state) == Ok::<(RuleModel, State), SingleRuleParseError>(
        (RuleModel::Style { selector, block }, State::Body),
    ));
}

/// Padding one space after a balanced text keeps it balanced.
proof fn lemma_balanced_pad(block: Seq<char>)
    requires
        balanced(block),
    ensures
        balanced(block + seq![' ']),
{
    let mid = block + seq![' '];
    lemma_depth_concat(block, seq![' ']);
    assert(seq![' '].drop_last() =~= Seq::<char>::empty());
    assert(seq![' '].last() == ' ');
    assert(depth(Seq::<char>::empty()) == 0);
    assert(depth(seq![' ']) == 0);
    assert forall|q: int| 0 <= q <= mid.len() implies depth(#[trigger] mid.subrange(0, q)) >= 0 by {
        if q <= block.len() {
            assert(mid.subrange(0, q) =~= block.subrange(0, q));
            assert(depth(block.subrange(0, q)) >= 0);
        } else {
            assert(q == mid.len());
            assert(mid.subrange(0, q) =~= mid);
        }
    }
}

/// Texts that differ in their first character differ.
proof fn lemma_neq_by_first(a: Seq<char>, b: Seq<char>)
    requires
        a.len() > 0,
        b.len() > 0,
        a[0] != b[0],
    ensures
        a != b,
{
    if a == b {
        assert(a[0] == b[0]);
    }
}

/// Round trip of a block at-rule, given its classified name.
#[verifier::rlimit(100)]
proof fn lemma_block_round_trip(
    name: Seq<char>,
    k: AtBlockKind,
    prelude: Seq<char>,
    blk: Seq<char>,
    rules: Seq<RuleModel>,
    state: State,
)
    requires
        name.len() >= 1,
        forall|j: int| 0 <= j < name.len() ==> is_name_char(#[trigger] name[j]),
        name != "import"@,
        name != "namespace"@,
        at_kind_of(name) == Some(k),
        wf_prelude(prelude),
        is_container(k) ==> parse_list_spec(css_of_list(rules)) == Some(rules) && balanced(
            css_of_list(rules),
        ),
        !is_container(k) ==> wf_block(blk),
    ensures
        ({
            let mid = if is_container(k) {
                css_of_list(rules)
            } else {
                blk + seq![' ']
            };
            let t = seq!['@'] + name + opt_sp(prelude) + " { "@ + mid + "}"@;
            closed_text(t) && parse_spec(t, state) == Ok::<
                (RuleModel, State),
                SingleRuleParseError,
            >(
                (
                    at_block_model(
                        k,
                        prelude,
                        if is_container(k) {
                            Seq::empty()
                        } else {
                            blk
                        },
                        rules,
                    ),
                    State::Body,
                ),
            )
        }),
{
    reveal_strlit(" { ");
    reveal_strlit("}");
    reveal_strlit(" ");
    lemma_name_char_classes();
    let head = seq!['@'] + name + opt_sp(prelude);
    let mid = if is_container(k) {
        css_of_list(rules)
    } else {
        blk + seq![' ']
    };
    let t = seq!['@'] + name + opt_sp(prelude) + " { "@ + mid + "}"@;
    let h = head.len() as int;
    let nl = name.len() as int;
    if !is_container(k) {
        lemma_balanced_pad(blk);
    }
    if prelude.len() > 0 {
        crate::scan::lemma_trimmed_ends(prelude);
    }
    assert(head[0] == '@');
    assert forall|j: int| 0 <= j < head.len() implies #[trigger] head[j] != ';' && head[j] != '{'
        && head[j] != '}' by {
        if j == 0 {
        } else if j < 1 + nl {
            assert(head[j] == name[j - 1]);
        } else if prelude.len() > 0 {
            if j == 1 + nl {
                assert(head[j] == ' ');
            } else {
                assert(head[j] == prelude[j - 2 - nl]);
            }
        }
    }
    lemma_closed_wrapped(head, mid);
    assert(t =~= head + " { "@ + mid + "}"@);
    assert(t[0] == '@');
    assert(t[1 + nl] == ' ') by {
        if prelude.len() == 0 {
            assert(h == 1 + nl);
            assert(t[1 + nl] == " { "@[0]);
        } else {
            assert(t[1 + nl] == opt_sp(prelude)[0]);
        }
    }
    lemma_at_name(t, name);
    let ne = 1 + nl;
    assert(is_first_at(t, ne, '{', h + 1)) by {
        assert(t[h + 1] == '{');
        assert forall|j: int| ne <= j < h + 1 implies #[trigger] t[j] != '{' by {
            if j < h {
                assert(t[j] == head[j]);
            } else {
                assert(t[j] == " { "@[0]);
            }
        }
    }
    lemma_first_at_unique(t, ne, '{', h + 1, choose|i: int| is_first_at(t, ne, '{', i));
    assert(find_from(t, ne, '{') == Some(h + 1));
    assert(t[t.len() - 1] == '}');
    assert(t.subrange(ne, h + 1) =~= opt_sp(prelude) + seq![' ']);
    if prelude.len() == 0 {
        assert(opt_sp(prelude) + seq![' '] =~= seq![' ']);
        assert(forall|j: int| 0 <= j < 1 ==> is_space(#[trigger] seq![' '][j]));
        assert(trim_of(seq![' ']) =~= prelude);
    } else {
        assert(opt_sp(prelude) + seq![' '] =~= seq![' '] + prelude + seq![' ']);
        lemma_trim_pad(seq![' '], prelude, seq![' ']);
    }
    assert(trim_of(t.subrange(ne, h + 1)) == prelude);
    assert(t.subrange(h + 2, t.len() - 1) =~= seq![' '] + mid);
    if is_container(k) {
        let body = seq![' '] + mid;
        assert(body[0] == ' ');
        assert(body.drop_first() =~= css_of_list(rules));
        assert(parse_list_spec(body) == Some(rules));
    } else {
        let body = seq![' '] + mid;
        assert(body =~= seq![' '] + blk + seq![' ']);
        lemma_trim_pad(seq![' '], blk, seq![' ']);
        assert(trim_of(body) == blk);
    }
    assert(parse_spec(t, state) == Ok::<(RuleModel, State), SingleRuleParseError>(
        (
            at_block_model(
                k,
                prelude,
                if is_container(k) {
                    Seq::empty()
                } else {
                    blk
                },
                rules,
            ),
            State::Body,
        ),
    ));
}

/// Round trip of a container rule: `@media`, `@supports`, `@document`.
#[verifier::rlimit(100)]
proof fn lemma_container_round_trip(m: RuleModel, state: State)
    requires
        wf_model(m),
        m is Media || m is Supports || m is Document,
    ensures
        closed_text(css_of(m)),
        parse_spec(css_of(m), state) == Ok::<(RuleModel, State), SingleRuleParseError>(
            (m, State::Body),
        ),
    decreases m, 0int,
{
    reveal_strlit("import");
    reveal_strlit("namespace");
    reveal_strlit("media");
    reveal_strlit("supports");
    reveal_strlit("document");
    reveal_strlit("-moz-document");
    reveal_strlit("@media");
    reveal_strlit("@supports");
    reveal_strlit("@-moz-document");
    match m {
        RuleModel::Media { condition, rules } => {
            lemma_list_round_trip(rules);
            assert("@media"@ =~= seq!['@'] + "media"@);
            lemma_block_round_trip(
                "media"@,
                AtBlockKind::Media,
                condition,
                Seq::empty(),
                rules,
                state,
            );
            assert(css_of(m) == seq!['@'] + "media"@ + opt_sp(condition) + " { "@ + css_of_list(
                rules,
            ) + "}"@);
        },
        RuleModel::Supports { condition, rules } => {
            lemma_list_round_trip(rules);
            assert("@supports"@ =~= seq!['@'] + "supports"@);
            lemma_block_round_trip(
                "supports"@,
                AtBlockKind::Supports,
                condition,
                Seq::empty(),
                rules,
                state,
            );
            assert(css_of(m) == seq!['@'] + "supports"@ + opt_sp(condition) + " { "@
                + css_of_list(rules) + "}"@);
        },
        RuleModel::Document { condition, rules } => {
            lemma_list_round_trip(rules);
            assert("@-moz-document"@ =~= seq!['@'] + "-moz-document"@);
            lemma_neq_by_first("-moz-document"@, "document"@);
            lemma_block_round_trip(
                "-moz-document"@,
                AtBlockKind::Document,
                condition,
                Seq::empty(),
                rules,
                state,
            );
            assert(css_of(m) == seq!['@'] + "-moz-document"@ + opt_sp(condition) + " { "@
                + css_of_list(rules) + "}"@);
        },
        _ => {},
    }
}

/// Round trip of the `@keyframes`, `@page` and `@font-face` rules.
#[verifier::rlimit(100)]
proof fn lemma_leaf_round_trip_a(m: RuleModel, state: State)
    requires
        wf_model(m),
        m is Keyframes || m is Page || m is FontFace,
    ensures
        closed_text(css_of(m)),
        parse_spec(css_of(m), state) == Ok::<(RuleModel, State), SingleRuleParseError>(
            (m, State::Body),
        ),
{
    reveal_strlit("import");
    reveal_strlit("namespace");
    reveal_strlit("media");
    reveal_strlit("supports");
    reveal_strlit("document");
    reveal_strlit("-moz-document");
    reveal_strlit("keyframes");
    reveal_strlit("page");
    reveal_strlit("font-face");
    reveal_strlit("@keyframes");
    reveal_strlit("@page");
    reveal_strlit("@font-face");
    reveal_strlit(" }");
    reveal_strlit("}");
    reveal_strlit(" ");
    assert(" }"@ =~= seq![' '] + "}"@);
    match m {
        RuleModel::Keyframes { name, block } => {
            lemma_neq_by_first("keyframes"@, "namespace"@);
            assert("@keyframes"@ =~= seq!['@'] + "keyframes"@);
            lemma_block_round_trip(
                "keyframes"@,
                AtBlockKind::Keyframes,
                name,
                block,
                Seq::empty(),
                state,
            );
            assert(css_of(m) =~= seq!['@'] + "keyframes"@ + opt_sp(name) + " { "@ + (block
                + seq![' ']) + "}"@);
        },
        RuleModel::Page { selector, block } => {
            assert("@page"@ =~= seq!['@'] + "page"@);
            lemma_block_round_trip(
                "page"@,
                AtBlockKind::Page,
                selector,
                block,
                Seq::empty(),
                state,
            );
            assert(css_of(m) =~= seq!['@'] + "page"@ + opt_sp(selector) + " { "@ + (block
                + seq![' ']) + "}"@);
        },
        RuleModel::FontFace { prelude, block } => {
            lemma_neq_by_first("font-face"@, "namespace"@);
            lemma_neq_by_first("font-face"@, "keyframes"@);
            assert("@font-face"@ =~= seq!['@'] + "font-face"@);
            lemma_block_round_trip(
                "font-face"@,
                AtBlockKind::FontFace,
                prelude,
                block,
                Seq::empty(),
                state,
            );
            assert(css_of(m) =~= seq!['@'] + "font-face"@ + opt_sp(prelude) + " { "@ + (block
                + seq![' ']) + "}"@);
        },
        _ => {},
    }
}

/// Round trip of an `@font-feature-values` rule.
#[verifier::rlimit(100)]
proof fn lemma_ffv_round_trip(m: RuleModel, state: State)
    requires
        wf_model(m),
        m is FontFeatureValues,
    ensures
        closed_text(css_of(m)),
        parse_spec(css_of(m), state) == Ok::<(RuleModel, State), SingleRuleParseError>(
            (m, State::Body),
        ),
{
    reveal_strlit("import");
    reveal_strlit("namespace");
    reveal_strlit("media");
    reveal_strlit("supports");
    reveal_strlit("document");
    reveal_strlit("-moz-document");
    reveal_strlit("keyframes");
    reveal_strlit("page");
    reveal_strlit("font-face");
    reveal_strlit("font-feature-values");
    reveal_strlit("counter-style");
    reveal_strlit("viewport");
    reveal_strlit(" }");
    reveal_strlit("}");
    reveal_strlit(" ");
    assert(" }"@ =~= seq![' '] + "}"@);
    reveal_strlit("@font-feature-values");
    if let RuleModel::FontFeatureValues { families, block } = m {
        assert("@font-feature-values"@ =~= seq!['@'] + "font-feature-values"@);
        lemma_block_round_trip(
            "font-feature-values"@,
            AtBlockKind::FontFeatureValues,
            families,
            block,
            Seq::empty(),
            state,
        );
        assert(css_of(m) =~= seq!['@'] + "font-feature-values"@ + opt_sp(families) + " { "@ + (
        block + seq![' ']) + "}"@);
    }
}

/// Round trip of an `@counter-style` rule.
#[verifier::rlimit(100)]
proof fn lemma_counter_style_round_trip(m: RuleModel, state: State)
    requires
        wf_model(m),
        m is CounterStyle,
    ensures
        closed_text(css_of(m)),
        parse_spec(css_of(m), state) == Ok::<(RuleModel, State), SingleRuleParseError>(
            (m, State::Body),
        ),
{
    reveal_strlit("import");
    reveal_strlit("namespace");
    reveal_strlit("media");
    reveal_strlit("supports");
    reveal_strlit("document");
    reveal_strlit("-moz-document");
    reveal_strlit("keyframes");
    reveal_strlit("page");
    reveal_strlit("font-face");
    reveal_strlit("font-feature-values");
    reveal_strlit("counter-style");
    reveal_strlit("viewport");
    reveal_strlit(" }");
    reveal_strlit("}");
    reveal_strlit(" ");
    assert(" }"@ =~= seq![' '] + "}"@);
    reveal_strlit("@counter-style");
    if let RuleModel::CounterStyle { name, block } = m {
        lemma_neq_by_first("counter-style"@, "-moz-document"@);
        assert("@counter-style"@ =~= seq!['@'] + "counter-style"@);
        lemma_block_round_trip(
            "counter-style"@,
            AtBlockKind::CounterStyle,
            name,
            block,
            Seq::empty(),
            state,
        );
        assert(css_of(m) =~= seq!['@'] + "counter-style"@ + opt_sp(name) + " { "@ + (block
            + seq![' ']) + "}"@);
    }
}

/// Round trip of an `@viewport` rule.
#[verifier::rlimit(100)]
proof fn lemma_viewport_round_trip(m: RuleModel, state: State)
    requires
        wf_model(m),
        m is Viewport,
    ensures
        closed_text(css_of(m)),
        parse_spec(css_of(m), state) == Ok::<(RuleModel, State), SingleRuleParseError>(
            (m, State::Body),
        ),
{
    reveal_strlit("import");
    reveal_strlit("namespace");
    reveal_strlit("media");
    reveal_strlit("supports");
    reveal_strlit("document");
    reveal_strlit("-moz-document");
    reveal_strlit("keyframes");
    reveal_strlit("page");
    reveal_strlit("font-face");
    reveal_strlit("font-feature-values");
    reveal_strlit("counter-style");
    reveal_strlit("viewport");
    reveal_strlit(" }");
    reveal_strlit("}");
    reveal_strlit(" ");
    assert(" }"@ =~= seq![' '] + "}"@);
    reveal_strlit("@viewport");
    if let RuleModel::Viewport { prelude, block } = m {
        lemma_neq_by_first("viewport"@, "supports"@);
        lemma_neq_by_first("viewport"@, "document"@);
        assert("@viewport"@ =~= seq!['@'] + "viewport"@);
        lemma_block_round_trip(
            "viewport"@,
            AtBlockKind::Viewport,
            prelude,
            block,
            Seq::empty(),
            state,
        );
        assert(css_of(m) =~= seq!['@'] + "viewport"@ + opt_sp(prelude) + " { "@ + (block
            + seq![' ']) + "}"@);
    }
}

/// The parse/serialize round trip: the canonical CSS text of any
/// well-formed rule model parses back, in any state that admits the rule's
/// kind, to exactly that model — in particular to a rule of the same type.
/// Both premises hold of every rule the parser returns: `CssRule::parse`
/// ensures well-formedness of the model and admissibility in its starting
/// state.
pub proof fn lemma_round_trip(m: RuleModel, state: State)
    requires
        wf_model(m),
        crate::parse::admissible(m, state),
    ensures
        closed_text(css_of(m)),
        parse_spec(css_of(m), state) == Ok::<(RuleModel, State), SingleRuleParseError>(
            (m, state_after(m)),
        ),
    decreases m, 1int,
{
    match m {
        RuleModel::Import { url } => {
            lemma_import_round_trip(url, state);
        },
        RuleModel::Namespace { prefix, url } => {
            match prefix {
                Option::None => lemma_namespace_none_round_trip(url, state),
                Option::Some(p) => lemma_namespace_some_round_trip(p, url, state),
            }
        },
        RuleModel::Style { selector, block } => {
            lemma_style_round_trip(selector, block, state);
        },
        RuleModel::Media { .. } => lemma_container_round_trip(m, state),
        RuleModel::Supports { .. } => lemma_container_round_trip(m, state),
        RuleModel::Document { .. } => lemma_container_round_trip(m, state),
        RuleModel::Keyframes { .. } => lemma_leaf_round_trip_a(m, state),
        RuleModel::Page { .. } => lemma_leaf_round_trip_a(m, state),
        RuleModel::FontFace { .. } => lemma_leaf_round_trip_a(m, state),
        RuleModel::FontFeatureValues { .. } => lemma_ffv_round_trip(m, state),
        RuleModel::CounterStyle { .. } => lemma_counter_style_round_trip(m, state),
        RuleModel::Viewport { .. } => lemma_viewport_round_trip(m, state),
    }
}

/// Round trip of a nested rule list: its canonical text parses back to
/// exactly the same models, and the text is brace-balanced.
#[verifier::rlimit(100)]
pub proof fn lemma_list_round_trip(rules: Seq<RuleModel>)
    requires
        wf_models(rules),
    ensures
        parse_list_spec(css_of_list(rules)) == Some(rules),
        balanced(css_of_list(rules)),
    decreases rules, 2int,
{
    reveal_strlit(" ");
    if rules.len() == 0 {
        assert(css_of_list(rules) =~= Seq::<char>::empty());
        assert(Seq::<char>::empty().subrange(0, 0) =~= Seq::<char>::empty());
        assert(parse_list_spec(Seq::<char>::empty()) == Some(Seq::<RuleModel>::empty()));
        assert(rules =~= Seq::<RuleModel>::empty());
    } else {
        let m0 = rules.first();
        assert(rules.first() == rules[0]);
        assert(wf_model(m0) && crate::rules::body_model(m0));
        lemma_round_trip(m0, State::Body);
        let tail = rules.drop_first();
        assert(wf_models(tail)) by {
            assert(forall|i: int|
                0 <= i < tail.len() ==> #[trigger] tail[i] == rules[i + 1]);
        }
        lemma_list_round_trip(tail);
        let c0 = css_of(m0);
        let rest = css_of_list(tail);
        let s = css_of_list(rules);
        assert(s == c0 + " "@ + rest);
        assert(" "@ =~= seq![' ']);
        assert(s[0] == c0[0]);
        assert(forall|q: int|
            0 <= q <= c0.len() ==> #[trigger] s.subrange(0, q) == c0.subrange(0, q)) by {
            assert forall|q: int| 0 <= q <= c0.len() implies #[trigger] s.subrange(0, q)
                == c0.subrange(0, q) by {
                assert(s.subrange(0, q) =~= c0.subrange(0, q));
            }
        }
        assert(is_first_term(s, 0, c0.len() as int)) by {
            assert(is_term(s, 0, c0.len() as int)) by {
                assert(s[c0.len() - 1] == c0[c0.len() - 1]);
            }
            assert forall|q: int| 0 < q < c0.len() implies !is_term(s, 0, q) by {
                assert(!is_term(c0, 0, q));
                if is_term(s, 0, q) {
                    assert(s[q - 1] == c0[q - 1]);
                }
            }
        }
        lemma_first_term_unique(s, 0, c0.len() as int, choose|p: int| is_first_term(s, 0, p));
        assert(extent_of(s, 0) == Some(c0.len() as int));
        assert(s.subrange(0, c0.len() as int) =~= c0);
        assert(s.subrange(c0.len() as int, s.len() as int) =~= seq![' '] + rest);
        assert((seq![' '] + rest).drop_first() =~= rest);
        assert(state_after(m0) == State::Body);
        assert(parse_list_spec(seq![' '] + rest) == parse_list_spec(rest)) by {
            assert((seq![' '] + rest)[0] == ' ');
        }
        assert(parse_list_spec(s) == Some(Seq::empty().push(m0) + tail));
        assert(Seq::empty().push(m0) + tail =~= rules);
        // balance
        assert(depth(c0) == 0) by {
            assert(c0.subrange(0, c0.len() as int) =~= c0);
        }
        assert(depth(" "@) == 0) by {
            assert(" "@.drop_last() =~= Seq::<char>::empty());
            assert(" "@.last() == ' ');
            assert(depth(Seq::<char>::empty()) == 0);
        }
        lemma_depth_concat(c0, " "@);
        lemma_depth_concat(c0 + " "@, rest);
        assert(s =~= (c0 + " "@) + rest);
        assert forall|q: int| 0 <= q <= s.len() implies depth(#[trigger] s.subrange(0, q)) >= 0 by {
            if q <= c0.len() {
                assert(s.subrange(0, q) == c0.subrange(0, q));
            } else if q == c0.len() + 1 {
                assert(s.subrange(0, q) =~= c0 + " "@);
            } else {
                assert(s.subrange(0, q) =~= (c0 + " "@) + rest.subrange(0, q - c0.len() - 1));
                lemma_depth_concat(c0 + " "@, rest.subrange(0, q - c0.len() - 1));
                assert(depth(rest.subrange(0, q - c0.len() - 1)) >= 0);
            }
        }
        assert(s.subrange(0, s.len() as int) =~= s);
    }
}

} // verus!
