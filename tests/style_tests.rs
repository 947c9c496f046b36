use browser_engine::css::{Declaration, Rule, Selector, SimpleSelector, Stylesheet, Unit, Value};
use browser_engine::dom::{ElementData, Node};
use browser_engine::style::{selector_matches, Display, StyledNode};

fn s(t: &str) -> String {
    t.to_string()
}

fn elem(tag: &str, id: Option<&str>, classes: &[&str], children: Vec<Node>) -> Node {
    Node::element(
        ElementData::new(s(tag), id.map(s), classes.iter().map(|c| s(c)).collect()),
        children,
    )
}

fn simple(tag: Option<&str>, id: Option<&str>, classes: &[&str]) -> SimpleSelector {
    SimpleSelector::new(tag.map(s), id.map(s), classes.iter().map(|c| s(c)).collect())
}

fn rule(selectors: Vec<SimpleSelector>, decls: Vec<(&str, Value)>) -> Rule {
    Rule::new(
        vec![Selector::new(selectors, Vec::new())],
        decls.into_iter().map(|(p, v)| Declaration::new(s(p), v)).collect(),
    )
}

fn other(v: &str) -> Value {
    Value::Other(s(v))
}

fn is_other(v: Option<&Value>, expected: &str) -> bool {
    matches!(v, Some(Value::Other(x)) if x == expected)
}

#[test]
fn later_matching_rule_wins() {
    let node = elem("div", None, &["a", "b"], vec![]);
    let sheet = Stylesheet::new(vec![
        rule(vec![simple(None, None, &["a"])], vec![("color", other("red"))]),
        rule(vec![simple(None, None, &["b"])], vec![("color", other("blue"))]),
    ]);
    let styled = StyledNode::new(&node, &sheet);
    assert!(is_other(styled.value("color"), "blue"));
}

#[test]
fn later_rule_keeps_other_properties() {
    let node = elem("div", None, &["a", "b"], vec![]);
    let sheet = Stylesheet::new(vec![
        rule(vec![simple(None, None, &["a"])], vec![("color", other("red")), ("display", other("block"))]),
        rule(vec![simple(None, None, &["b"])], vec![("color", other("blue"))]),
    ]);
    let styled = StyledNode::new(&node, &sheet);
    assert!(is_other(styled.value("color"), "blue"));
    assert!(is_other(styled.value("display"), "block"));
    assert!(styled.value("width").is_none());
}

#[test]
fn rule_that_does_not_match_is_ignored() {
    let node = elem("div", None, &["a"], vec![]);
    let sheet = Stylesheet::new(vec![
        rule(vec![simple(None, None, &["a"])], vec![("color", other("red"))]),
        rule(vec![simple(None, None, &["z"])], vec![("color", other("blue"))]),
    ]);
    let styled = StyledNode::new(&node, &sheet);
    assert!(is_other(styled.value("color"), "red"));
}

#[test]
fn or_selector_matches_any_alternative() {
    let sel = Selector::new(vec![simple(Some("div"), None, &["x"]), simple(Some("span"), None, &[])], vec![',']);
    let span = ElementData::new(s("span"), None, vec![]);
    let div = ElementData::new(s("div"), None, vec![]);
    let div_x = ElementData::new(s("div"), None, vec![s("x"), s("y")]);
    assert!(selector_matches(&span, &sel));
    assert!(!selector_matches(&div, &sel));
    assert!(selector_matches(&div_x, &sel));
}

#[test]
fn id_selector_needs_the_same_id() {
    let sel = Selector::new(vec![simple(None, Some("main"), &[])], vec![]);
    let no_id = ElementData::new(s("div"), None, vec![]);
    let other_id = ElementData::new(s("div"), Some(s("side")), vec![]);
    let same_id = ElementData::new(s("div"), Some(s("main")), vec![]);
    assert!(!selector_matches(&no_id, &sel));
    assert!(!selector_matches(&other_id, &sel));
    assert!(selector_matches(&same_id, &sel));
    let any = Selector::new(vec![simple(None, None, &[])], vec![]);
    assert!(selector_matches(&same_id, &any));
}

#[test]
fn empty_selector_list_matches_nothing() {
    let sel = Selector::new(vec![], vec![]);
    let div = ElementData::new(s("div"), None, vec![]);
    assert!(!selector_matches(&div, &sel));
}

#[test]
fn text_children_are_dropped() {
    let node = elem("p", None, &[], vec![Node::text(s("hello")), elem("b", None, &[], vec![]), Node::text(s("!"))]);
    let sheet = Stylesheet::new(vec![rule(vec![simple(Some("b"), None, &[])], vec![("width", Value::Length(5, Unit::Px))])]);
    let styled = StyledNode::new(&node, &sheet);
    assert_eq!(styled.children.len(), 1);
    assert_eq!(styled.children[0].num_or("width", 0), 5);
    assert_eq!(styled.num_or("width", 7), 7);
}

#[test]
fn display_keywords() {
    let mk = |v: Option<&str>| {
        let node = elem("div", None, &[], vec![]);
        let decls = match v {
            Some(v) => vec![("display", other(v))],
            None => vec![],
        };
        let sheet = Stylesheet::new(vec![rule(vec![simple(None, None, &[])], decls)]);
        StyledNode::new(&node, &sheet).get_display()
    };
    assert_eq!(mk(Some("block")), Display::Block);
    assert_eq!(mk(Some("none")), Display::Hidden);
    assert_eq!(mk(Some("inline-block")), Display::InlineBlock);
    assert_eq!(mk(Some("flex")), Display::Inline);
    assert_eq!(mk(None), Display::Inline);
}
