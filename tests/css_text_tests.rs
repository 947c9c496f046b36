use browser_engine::css::{Color, Declaration, Rule, Selector, SimpleSelector, Stylesheet, Unit, Value};

fn simple(tag: Option<&str>, id: Option<&str>, classes: &[&str]) -> SimpleSelector {
    SimpleSelector::new(
        tag.map(|t| t.to_string()),
        id.map(|i| i.to_string()),
        classes.iter().map(|c| c.to_string()).collect(),
    )
}

#[test]
fn simple_selector_text() {
    assert_eq!(simple(Some("div"), Some("main"), &["a", "b"]).to_string(), "div#main.a.b");
    assert_eq!(simple(None, None, &["x"]).to_string(), ".x");
    assert_eq!(simple(None, None, &[]).to_string(), "");
}

#[test]
fn selector_text_joins_alternatives() {
    let sel = Selector::new(vec![simple(Some("div"), None, &["x"]), simple(Some("span"), None, &[])], vec![]);
    assert_eq!(sel.to_string(), "div.x, span");
}

#[test]
fn value_and_color_text() {
    assert_eq!(Color::new(1, 2, 3, 255).to_string(), "r: 1 g: 2 b: 3 a: 255");
    assert_eq!(Value::Length(-5, Unit::Px).to_string(), "-5");
    assert_eq!(Value::Length(1234567, Unit::Pct).to_string(), "1234567");
    assert_eq!(Value::Length(i64::MIN, Unit::Px).to_string(), "-9223372036854775808");
    assert_eq!(Value::Other("block".to_string()).to_string(), "\"block\"");
}

#[test]
fn rule_and_stylesheet_text() {
    let rule = Rule::new(
        vec![
            Selector::new(vec![simple(None, None, &["a"])], vec![]),
            Selector::new(vec![simple(Some("h1"), None, &[])], vec![]),
        ],
        vec![
            Declaration::new("color".to_string(), Value::Other("red".to_string())),
            Declaration::new("width".to_string(), Value::Length(20, Unit::Px)),
        ],
    );
    let expected = ".a, h1 {\n    color: \"red\"\n    width: 20\n}";
    assert_eq!(rule.to_string(), expected);
    let empty = Rule::new(vec![], vec![]);
    assert_eq!(empty.to_string(), " {\n}");
    let sheet = Stylesheet::new(vec![rule, empty]);
    assert_eq!(sheet.to_string(), format!("{}\n\n {{\n}}", expected));
    assert_eq!(Stylesheet::new(vec![]).to_string(), "");
}
