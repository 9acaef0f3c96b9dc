use style_rules::errors::{RulesMutateError, SingleRuleParseError};
use style_rules::parse::State;
use style_rules::rules::{CssRule, CssRuleType};
use style_rules::shared_lock::SharedRwLock;
use style_rules::stylesheet::{Namespaces, Origin, StylesheetContents};
use style_rules::url_data::UrlExtraData;

fn sheet() -> StylesheetContents {
    StylesheetContents {
        origin: Origin::Author,
        url_data: UrlExtraData::new(String::from("http://example.com/sheet.css")),
        quirks_mode: false,
        namespaces: Namespaces::new(),
    }
}

#[test]
fn style_rule_parses_with_type_style() {
    let lock = SharedRwLock::new(1);
    let mut parent = sheet();
    let r = CssRule::parse(".a{color:red}", &mut parent, &lock, Some(State::Start), None);
    let (rule, state) = r.ok().unwrap();
    assert_eq!(rule.rule_type(), CssRuleType::Style);
    assert_eq!(rule.rule_type().as_u32(), 1);
    assert_eq!(state, State::Body);
}

#[test]
fn page_rule_parses_with_type_page() {
    let lock = SharedRwLock::new(1);
    let mut parent = sheet();
    let r = CssRule::parse("@page{}", &mut parent, &lock, Some(State::Start), None);
    let (rule, state) = r.ok().unwrap();
    assert_eq!(rule.rule_type(), CssRuleType::Page);
    assert_eq!(rule.rule_type().as_u32(), 6);
    assert_eq!(state, State::Body);
}

#[test]
fn state_monotonicity_import_style_import() {
    let lock = SharedRwLock::new(1);
    let mut parent = sheet();
    let (_, s1) =
        CssRule::parse("@import url(a.css);", &mut parent, &lock, Some(State::Start), None)
            .ok()
            .unwrap();
    assert_eq!(s1, State::Imports);
    let (_, s2) = CssRule::parse(".a{color:red}", &mut parent, &lock, Some(s1), None)
        .ok()
        .unwrap();
    assert_eq!(s2, State::Body);
    let r3 = CssRule::parse("@import url(b.css);", &mut parent, &lock, Some(s2), None);
    assert_eq!(r3.err().unwrap(), SingleRuleParseError::Hierarchy);
}

#[test]
fn namespace_rule_registers_prefix() {
    let lock = SharedRwLock::new(1);
    let mut parent = sheet();
    let r = CssRule::parse(
        "@namespace svg url(http://www.w3.org/2000/svg);",
        &mut parent,
        &lock,
        Some(State::Start),
        None,
    );
    let (rule, state) = r.ok().unwrap();
    assert_eq!(rule.rule_type(), CssRuleType::Namespace);
    assert_eq!(state, State::Namespaces);
    let url = parent.namespaces.get("svg").cloned();
    assert_eq!(url, Some(String::from("http://www.w3.org/2000/svg")));
}

#[test]
fn default_namespace_registers() {
    let lock = SharedRwLock::new(1);
    let mut parent = sheet();
    let r = CssRule::parse(
        "@namespace url(http://www.w3.org/1999/xhtml);",
        &mut parent,
        &lock,
        Some(State::Start),
        None,
    );
    assert!(r.is_ok());
    let d = parent.namespaces.default_url().cloned();
    assert_eq!(d, Some(String::from("http://www.w3.org/1999/xhtml")));
}

#[test]
fn import_in_body_state_is_hierarchy_error() {
    let lock = SharedRwLock::new(1);
    let mut parent = sheet();
    let r = CssRule::parse("@import url(foo.css);", &mut parent, &lock, Some(State::Body), None);
    assert_eq!(r.err().unwrap(), SingleRuleParseError::Hierarchy);
}

#[test]
fn nested_parse_defaults_to_body_state() {
    let lock = SharedRwLock::new(1);
    let mut parent = sheet();
    let r = CssRule::parse("@import url(foo.css);", &mut parent, &lock, None, None);
    assert_eq!(r.err().unwrap(), SingleRuleParseError::Hierarchy);
}

#[test]
fn namespace_beyond_namespaces_state_is_hierarchy_error() {
    let lock = SharedRwLock::new(1);
    let mut parent = sheet();
    let r = CssRule::parse("@namespace a url(b);", &mut parent, &lock, Some(State::Body), None);
    assert_eq!(r.err().unwrap(), SingleRuleParseError::Hierarchy);
}

#[test]
fn malformed_texts_are_syntax_errors() {
    let lock = SharedRwLock::new(1);
    let mut parent = sheet();
    for bad in ["", "   ", "nonsense", "@import ;", "@unknown{}", ".a{", ".a{}}", "{color:red}"] {
        let r = CssRule::parse(bad, &mut parent, &lock, Some(State::Start), None);
        assert_eq!(r.err().unwrap(), SingleRuleParseError::Syntax);
    }
}

#[test]
fn failed_parse_leaves_namespaces_untouched() {
    let lock = SharedRwLock::new(1);
    let mut parent = sheet();
    let r = CssRule::parse("@namespace svg url(;);", &mut parent, &lock, Some(State::Start), None);
    assert_eq!(r.err().unwrap(), SingleRuleParseError::Syntax);
    assert!(parent.namespaces.get("svg").is_none());
}

#[test]
fn media_rule_parses_nested_rules() {
    let lock = SharedRwLock::new(1);
    let mut parent = sheet();
    let r = CssRule::parse(
        "@media screen { .a{color:red} .b{margin:0} }",
        &mut parent,
        &lock,
        Some(State::Start),
        None,
    );
    let (rule, state) = r.ok().unwrap();
    assert_eq!(rule.rule_type(), CssRuleType::Media);
    assert_eq!(state, State::Body);
}

#[test]
fn media_with_invalid_nested_rule_is_syntax_error() {
    let lock = SharedRwLock::new(1);
    let mut parent = sheet();
    let r = CssRule::parse(
        "@media screen { @import url(a.css); }",
        &mut parent,
        &lock,
        Some(State::Start),
        None,
    );
    assert_eq!(r.err().unwrap(), SingleRuleParseError::Syntax);
}

#[test]
fn rule_type_is_pure_across_instances() {
    let lock = SharedRwLock::new(1);
    let mut parent = sheet();
    let (a, _) = CssRule::parse(".a{color:red}", &mut parent, &lock, Some(State::Start), None)
        .ok()
        .unwrap();
    let (b, _) = CssRule::parse("h1 , h2{margin:0}", &mut parent, &lock, Some(State::Body), None)
        .ok()
        .unwrap();
    assert_eq!(a.rule_type(), b.rule_type());
    assert_eq!(a.rule_type(), a.rule_type());
}

#[test]
fn rule_type_numbers_match_cssom() {
    assert_eq!(CssRuleType::Style.as_u32(), 1);
    assert_eq!(CssRuleType::Charset.as_u32(), 2);
    assert_eq!(CssRuleType::Import.as_u32(), 3);
    assert_eq!(CssRuleType::Media.as_u32(), 4);
    assert_eq!(CssRuleType::FontFace.as_u32(), 5);
    assert_eq!(CssRuleType::Page.as_u32(), 6);
    assert_eq!(CssRuleType::Keyframes.as_u32(), 7);
    assert_eq!(CssRuleType::Keyframe.as_u32(), 8);
    assert_eq!(CssRuleType::Margin.as_u32(), 9);
    assert_eq!(CssRuleType::Namespace.as_u32(), 10);
    assert_eq!(CssRuleType::CounterStyle.as_u32(), 11);
    assert_eq!(CssRuleType::Supports.as_u32(), 12);
    assert_eq!(CssRuleType::Document.as_u32(), 13);
    assert_eq!(CssRuleType::FontFeatureValues.as_u32(), 14);
    assert_eq!(CssRuleType::Viewport.as_u32(), 15);
}

#[test]
fn error_conversion_is_lossless() {
    assert_eq!(RulesMutateError::from(SingleRuleParseError::Syntax), RulesMutateError::Syntax);
    assert_eq!(
        RulesMutateError::from(SingleRuleParseError::Hierarchy),
        RulesMutateError::HierarchyRequest
    );
}

#[test]
fn url_extra_data_reports_scheme() {
    let chrome = UrlExtraData::new(String::from("chrome://browser/skin.css"));
    assert!(chrome.is_chrome());
    assert_eq!(chrome.as_str(), "chrome://browser/skin.css");
    let web = UrlExtraData::new(String::from("http://example.com/a.css"));
    assert!(!web.is_chrome());
}

#[test]
fn namespace_lookup_last_registration_wins() {
    let mut ns = Namespaces::new();
    ns.register(Some(String::from("a")), String::from("u1"));
    ns.register(Some(String::from("b")), String::from("u2"));
    ns.register(Some(String::from("a")), String::from("u3"));
    assert_eq!(ns.get("a").cloned(), Some(String::from("u3")));
    assert_eq!(ns.get("b").cloned(), Some(String::from("u2")));
    assert!(ns.get("c").is_none());
}
