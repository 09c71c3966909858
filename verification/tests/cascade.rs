//! Selector matching, specificity and cascade behaviour.

use robinson::css::{Color, Declaration, Rule, Selector, SimpleSelector, Stylesheet, Unit, Value};
use robinson::dom::{element, text, AttrMap};
use robinson::style::{
    matches_simple_selector, match_rule, matching_rules, specified_values, style_tree,
    Display, PropertyMap,
};

fn s(v: &str) -> String {
    v.to_string()
}

fn simple(tag: Option<&str>, id: Option<&str>, classes: &[&str]) -> SimpleSelector {
    SimpleSelector {
        tag_name: tag.map(s),
        id: id.map(s),
        class: classes.iter().map(|c| s(c)).collect(),
    }
}

fn attrs(pairs: &[(&str, &str)]) -> AttrMap {
    let mut m = AttrMap::new();
    for (k, v) in pairs {
        m.insert(s(k), s(v));
    }
    m
}

fn elem(tag: &str, pairs: &[(&str, &str)]) -> robinson::dom::ElementData {
    robinson::dom::ElementData { tag_name: s(tag), attributes: attrs(pairs) }
}

fn rule(selectors: Vec<Selector>, declarations: Vec<Declaration>) -> Rule {
    Rule { selectors, declarations }
}

fn decl(name: &str, value: Value) -> Declaration {
    Declaration { name: s(name), value }
}

fn color(r: u8, g: u8, b: u8) -> Value {
    Value::ColorValue(Color { r, g, b, a: 255 })
}

#[test]
fn specificity_id_beats_classes_beats_tag() {
    let a = Selector::Simple(simple(None, Some("x"), &[]));
    let b = Selector::Simple(simple(None, None, &["c1", "c2"]));
    let c = Selector::Simple(simple(Some("div"), None, &[]));
    assert_eq!(a.specificity(), (1, 0, 0));
    assert_eq!(b.specificity(), (0, 2, 0));
    assert_eq!(c.specificity(), (0, 0, 1));
    assert!(a.specificity() > b.specificity());
    assert!(b.specificity() > c.specificity());
}

#[test]
fn specificity_more_classes_beats_fewer() {
    let two = Selector::Simple(simple(Some("p"), None, &["c1", "c2"]));
    let one = Selector::Simple(simple(Some("p"), None, &["c1"]));
    assert!(two.specificity() > one.specificity());
}

#[test]
fn universal_selector_matches_everything() {
    let universal = simple(None, None, &[]);
    assert!(matches_simple_selector(&elem("div", &[]), &universal));
    assert!(matches_simple_selector(&elem("p", &[("id", "x"), ("class", "a b")]), &universal));
}

#[test]
fn class_selector_matches_whitespace_split_tokens() {
    let by_class = simple(None, None, &["bar"]);
    assert!(matches_simple_selector(&elem("div", &[("class", "foo bar")]), &by_class));
    assert!(!matches_simple_selector(&elem("div", &[("class", "foo baz")]), &by_class));
    // `bar` must be a whole token, not a substring.
    assert!(!matches_simple_selector(&elem("div", &[("class", "foobar")]), &by_class));
    assert!(!matches_simple_selector(&elem("div", &[]), &by_class));
}

#[test]
fn id_selector_matches_exactly() {
    let by_id = simple(None, Some("main"), &[]);
    assert!(matches_simple_selector(&elem("div", &[("id", "main")]), &by_id));
    assert!(!matches_simple_selector(&elem("div", &[("id", "main2")]), &by_id));
    assert!(!matches_simple_selector(&elem("div", &[]), &by_id));
}

#[test]
fn tag_selector_matches_tag_name() {
    let by_tag = Selector::Simple(simple(Some("div"), None, &[]));
    assert!(robinson::style::matches(&elem("div", &[]), &by_tag));
    assert!(!robinson::style::matches(&elem("span", &[]), &by_tag));
}

#[test]
fn all_components_must_match() {
    let sel = simple(Some("div"), Some("x"), &["a"]);
    assert!(matches_simple_selector(&elem("div", &[("id", "x"), ("class", "a")]), &sel));
    assert!(!matches_simple_selector(&elem("div", &[("id", "x")]), &sel));
    assert!(!matches_simple_selector(&elem("div", &[("class", "a")]), &sel));
    assert!(!matches_simple_selector(&elem("span", &[("id", "x"), ("class", "a")]), &sel));
}

#[test]
fn match_rule_uses_first_matching_selector() {
    // Selectors sorted most-specific first: #x, then .a, then div.
    let r = rule(
        vec![
            Selector::Simple(simple(None, Some("x"), &[])),
            Selector::Simple(simple(None, None, &["a"])),
            Selector::Simple(simple(Some("div"), None, &[])),
        ],
        vec![decl("color", color(1, 2, 3))],
    );
    // Element matches `.a` and `div` but not `#x`: the first matching
    // selector's specificity represents the rule.
    let m = match_rule(&elem("div", &[("class", "a")]), &r).expect("rule should match");
    assert_eq!(m.0, (0, 1, 0));
    // No selector matches.
    assert!(match_rule(&elem("span", &[]), &r).is_none());
}

#[test]
fn matching_rules_keeps_stylesheet_order() {
    let sheet = Stylesheet {
        rules: vec![
            rule(vec![Selector::Simple(simple(Some("div"), None, &[]))], vec![]),
            rule(vec![Selector::Simple(simple(Some("span"), None, &[]))], vec![]),
            rule(vec![Selector::Simple(simple(None, None, &[]))], vec![]),
        ],
    };
    let found = matching_rules(&elem("div", &[]), &sheet);
    assert_eq!(found.len(), 2);
    assert_eq!(found[0].0, (0, 0, 1));
    assert_eq!(found[1].0, (0, 0, 0));
}

#[test]
fn cascade_later_rule_wins_on_equal_specificity() {
    let sheet = Stylesheet {
        rules: vec![
            rule(
                vec![Selector::Simple(simple(Some("div"), None, &[]))],
                vec![decl("color", color(255, 0, 0))],
            ),
            rule(
                vec![Selector::Simple(simple(Some("div"), None, &[]))],
                vec![decl("color", color(0, 0, 255))],
            ),
        ],
    };
    let values = specified_values(&elem("div", &[]), &sheet);
    assert_eq!(values.value("color"), Some(color(0, 0, 255)));
}

#[test]
fn cascade_higher_specificity_wins_despite_order() {
    let sheet = Stylesheet {
        rules: vec![
            rule(
                vec![Selector::Simple(simple(None, None, &["hot"]))],
                vec![decl("color", color(255, 0, 0))],
            ),
            rule(
                vec![Selector::Simple(simple(Some("div"), None, &[]))],
                vec![decl("color", color(0, 0, 255))],
            ),
        ],
    };
    // The class rule is more specific than the tag rule even though it
    // appears first.
    let values = specified_values(&elem("div", &[("class", "hot")]), &sheet);
    assert_eq!(values.value("color"), Some(color(255, 0, 0)));
}

#[test]
fn cascade_merges_distinct_properties() {
    let sheet = Stylesheet {
        rules: vec![
            rule(
                vec![Selector::Simple(simple(Some("div"), None, &[]))],
                vec![decl("margin", Value::Length(8, Unit::Px))],
            ),
            rule(
                vec![Selector::Simple(simple(None, None, &["wide"]))],
                vec![decl("width", Value::Length(600, Unit::Px))],
            ),
        ],
    };
    let values = specified_values(&elem("div", &[("class", "wide")]), &sheet);
    assert_eq!(values.value("margin"), Some(Value::Length(8, Unit::Px)));
    assert_eq!(values.value("width"), Some(Value::Length(600, Unit::Px)));
    assert_eq!(values.value("height"), None);
}

#[test]
fn lookup_tries_primary_then_fallback_then_default() {
    let mut values = PropertyMap::new();
    values.insert(s("margin"), Value::Length(7, Unit::Px));
    let zero = Value::Length(0, Unit::Px);
    assert_eq!(values.lookup("margin-left", "margin", &zero), Value::Length(7, Unit::Px));
    values.insert(s("margin-left"), Value::Length(3, Unit::Px));
    assert_eq!(values.lookup("margin-left", "margin", &zero), Value::Length(3, Unit::Px));
    assert_eq!(values.lookup("padding-left", "padding", &zero), zero);
}

#[test]
fn property_map_last_insertion_wins() {
    let mut values = PropertyMap::new();
    values.insert(s("width"), Value::Length(1, Unit::Px));
    values.insert(s("width"), Value::Length(2, Unit::Px));
    assert_eq!(values.value("width"), Some(Value::Length(2, Unit::Px)));
}

#[test]
fn display_resolution() {
    let mut block = PropertyMap::new();
    block.insert(s("display"), Value::Keyword(s("block")));
    let mut none = PropertyMap::new();
    none.insert(s("display"), Value::Keyword(s("none")));
    let mut other = PropertyMap::new();
    other.insert(s("display"), Value::Keyword(s("inline-table")));
    let mut length = PropertyMap::new();
    length.insert(s("display"), Value::Length(1, Unit::Px));
    let node = |m: PropertyMap| robinson::style::StyledNode { specified_values: m, children: vec![] };
    assert_eq!(node(block).display(), Display::Block);
    assert_eq!(node(none).display(), Display::DisplayNone);
    assert_eq!(node(other).display(), Display::Inline);
    assert_eq!(node(length).display(), Display::Inline);
    assert_eq!(node(PropertyMap::new()).display(), Display::Inline);
}

#[test]
fn style_tree_mirrors_nodes_and_skips_text_styling() {
    let sheet = Stylesheet {
        rules: vec![rule(
            vec![Selector::Simple(simple(Some("p"), None, &[]))],
            vec![decl("color", color(9, 9, 9))],
        )],
    };
    let dom = element(
        s("div"),
        attrs(&[]),
        vec![element(s("p"), attrs(&[]), vec![text(s("hi"))]), text(s("tail"))],
    );
    let styled = style_tree(&dom, &sheet);
    assert_eq!(styled.children.len(), 2);
    assert_eq!(styled.value("color"), None);
    assert_eq!(styled.children[0].value("color"), Some(color(9, 9, 9)));
    // Text nodes always get an empty property map.
    assert_eq!(styled.children[0].children[0].value("color"), None);
    assert_eq!(styled.children[1].value("color"), None);
}

#[test]
fn empty_stylesheet_styles_nothing() {
    let sheet = Stylesheet { rules: vec![] };
    let values = specified_values(&elem("div", &[("class", "a")]), &sheet);
    assert_eq!(values.value("color"), None);
    let styled = style_tree(&element(s("div"), attrs(&[]), vec![]), &sheet);
    assert_eq!(styled.display(), Display::Inline);
}

#[test]
fn element_accessors() {
    let e = elem("div", &[("id", "root"), ("class", "a  b")]);
    assert_eq!(e.id(), Some(&s("root")));
    // Split at whitespace: runs of whitespace produce no empty tokens.
    assert_eq!(e.classes(), vec![s("a"), s("b")]);
    let bare = elem("div", &[]);
    assert_eq!(bare.id(), None);
    assert_eq!(bare.classes(), Vec::<String>::new());
}

#[test]
fn classes_split_at_any_whitespace() {
    assert_eq!(elem("div", &[("class", "a\tb\nc\rd")]).classes(), vec![
        s("a"),
        s("b"),
        s("c"),
        s("d"),
    ]);
    assert_eq!(elem("div", &[("class", "  lead trail  ")]).classes(), vec![s("lead"), s("trail")]);
    assert_eq!(elem("div", &[("class", " \t\n")]).classes(), Vec::<String>::new());
    assert_eq!(elem("div", &[("class", "")]).classes(), Vec::<String>::new());
    // Duplicates are kept in order; matching treats the tokens as a set.
    assert_eq!(elem("div", &[("class", "a a")]).classes(), vec![s("a"), s("a")]);
}

#[test]
fn class_selector_matches_across_tabs_and_newlines() {
    let by_a = simple(None, None, &["a"]);
    let by_b = simple(None, None, &["b"]);
    assert!(matches_simple_selector(&elem("div", &[("class", "a\tb")]), &by_a));
    assert!(matches_simple_selector(&elem("div", &[("class", "a\tb")]), &by_b));
    assert!(matches_simple_selector(&elem("div", &[("class", "x\na")]), &by_a));
    // An empty-named class selector matches nothing: whitespace never
    // yields an empty token.
    let by_empty = simple(None, None, &[""]);
    assert!(!matches_simple_selector(&elem("div", &[("class", "a  b")]), &by_empty));
}
