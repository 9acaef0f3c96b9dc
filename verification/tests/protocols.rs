use style_rules::parse::State;
use style_rules::rules::{CssRule, CssRuleType};
use style_rules::shared_lock::{DeepCloneParams, SharedRwLock};
use style_rules::stylesheet::{Namespaces, Origin, StylesheetContents};
use style_rules::url_data::UrlExtraData;

fn sheet() -> StylesheetContents {
    StylesheetContents {
        origin: Origin::Author,
        url_data: UrlExtraData::new(String::from("http://example.com/sheet.css")),
        quirks_mode: false,
        namespaces: Namespaces::new(),
    }
}

fn parse_one(css: &str, lock: &SharedRwLock) -> CssRule {
    let mut parent = sheet();
    let (rule, _) = CssRule::parse(css, &mut parent, lock, Some(State::Start), None)
        .ok()
        .unwrap();
    rule
}

#[test]
fn serialization_is_canonical() {
    let lock = SharedRwLock::new(1);
    let guard = lock.read();
    let cases = [
        ("@import url(foo.css);", "@import url(foo.css);"),
        ("  @import   \"bar.css\"  ;  ", "@import url(bar.css);"),
        (".a{color:red}", ".a { color:red }"),
        ("@namespace svg url(http://www.w3.org/2000/svg);", "@namespace svg url(http://www.w3.org/2000/svg);"),
        ("@namespace url(x);", "@namespace url(x);"),
        ("@font-face { font-family: f }", "@font-face { font-family: f }"),
        ("@keyframes spin { from {} to {} }", "@keyframes spin { from {} to {} }"),
        ("@media screen { .a{color:red} }", "@media screen { .a { color:red } }"),
        ("@media x{}", "@media x { }"),
        ("@page{}", "@page {  }"),
    ];
    for (input, expected) in cases {
        let rule = parse_one(input, &lock);
        assert_eq!(rule.to_css(&guard), expected);
    }
}

#[test]
fn round_trip_preserves_rule_type() {
    let lock = SharedRwLock::new(1);
    let guard = lock.read();
    let texts = [
        "@import url(foo.css);",
        "@namespace svg url(http://www.w3.org/2000/svg);",
        ".a{color:red}",
        "@media screen { .a{color:red} .b{margin:0} }",
        "@supports (display: flex) { .a{display:flex} }",
        "@font-face { font-family: f }",
        "@font-feature-values Font One { @styleset { nice: 12; } }",
        "@counter-style thumbs { system: cyclic }",
        "@viewport { width: device-width }",
        "@keyframes spin { from {} to {} }",
        "@page { margin: 1cm }",
        "@-moz-document url-prefix() { .a{color:red} }",
    ];
    for text in texts {
        let rule = parse_one(text, &lock);
        let css = rule.to_css(&guard);
        let reparsed = parse_one(&css, &lock);
        assert_eq!(reparsed.rule_type(), rule.rule_type());
        assert_eq!(reparsed.to_css(&guard), css);
    }
}

#[test]
fn deep_clone_preserves_shape() {
    let source_lock = SharedRwLock::new(1);
    let rule = parse_one("@media screen { .a{color:red} @supports (a:b) { .c{d:e} } }", &source_lock);
    let source_guard = source_lock.read();
    let destination_lock = SharedRwLock::new(2);
    let clone = rule.deep_clone_with_lock(&destination_lock, &source_guard, &DeepCloneParams {});
    assert_eq!(clone.rule_type(), rule.rule_type());
    let destination_guard = destination_lock.read();
    assert_eq!(clone.to_css(&destination_guard), rule.to_css(&source_guard));
}

#[test]
fn deep_clone_works_under_destination_lock_alone() {
    let source_lock = SharedRwLock::new(1);
    let rule = parse_one("@media screen { .a{color:red} }", &source_lock);
    let destination_lock = SharedRwLock::new(2);
    let clone = {
        let source_guard = source_lock.read();
        rule.deep_clone_with_lock(&destination_lock, &source_guard, &DeepCloneParams {})
    };
    // every operation on the clone takes only a destination-lock guard
    let destination_guard = destination_lock.read();
    assert_eq!(clone.rule_type(), CssRuleType::Media);
    assert_eq!(clone.to_css(&destination_guard), "@media screen { .a { color:red } }");
    assert!(clone.malloc_size_of_children(&destination_guard) > 0);
}

#[test]
fn exempt_kinds_report_zero_bytes() {
    let lock = SharedRwLock::new(1);
    let guard = lock.read();
    let exempt = [
        "@import url(averyveryverylongurlthatwouldotherwisecount.css);",
        "@namespace averylongprefix url(http://example.com/averylongnamespaceurl);",
        "@font-face { font-family: averylongfamilyname; src: url(somewhere) }",
        "@font-feature-values Some Family { @styleset { x: 1; } }",
        "@counter-style somename { system: cyclic; symbols: a b c }",
        "@viewport { width: device-width; height: device-height }",
        "@keyframes averylonganimationname { from { opacity: 0 } to { opacity: 1 } }",
    ];
    for text in exempt {
        let rule = parse_one(text, &lock);
        assert_eq!(rule.malloc_size_of_children(&guard), 0);
    }
}

#[test]
fn measured_kinds_count_payload_text() {
    let lock = SharedRwLock::new(1);
    let guard = lock.read();
    let style = parse_one(".a{color:red}", &lock);
    // selector ".a" plus block "color:red"
    assert_eq!(style.malloc_size_of_children(&guard), 2 + 9);
    let page = parse_one("@page { margin: 1cm }", &lock);
    // empty selector plus block "margin: 1cm"
    assert_eq!(page.malloc_size_of_children(&guard), 11);
    let media = parse_one("@media screen { .a{color:red} }", &lock);
    // condition "screen" plus the nested style rule
    assert_eq!(media.malloc_size_of_children(&guard), 6 + 11);
}

#[test]
fn locked_values_need_their_own_lock_guard() {
    let lock = SharedRwLock::new(7);
    let wrapped = lock.wrap(41u64);
    let guard = lock.read();
    assert_eq!(*wrapped.read_with(&guard), 41);
    let mut cell = lock.wrap(String::from("old"));
    let write_guard = lock.write();
    cell.write_with(&write_guard, String::from("new"));
    assert_eq!(cell.read_with(&guard), "new");
}
