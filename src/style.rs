use vstd::prelude::*;

use crate::css::{Declaration, Rule, Selector, SimpleSelector, Stylesheet, Value};
use crate::dom::{ElementData, Node, NodeType};

verus! {

/// One styled element: the properties resolved for it and the styled
/// elements among its children, in document order.
pub struct StyledNode {
    /// Declarations in the order they were applied; for a property the last
    /// one counts.
    pub styles: Vec<Declaration>,
    pub children: Vec<StyledNode>,
}

#[derive(Clone, Copy, Debug, PartialEq, Eq, Structural)]
pub enum Display {
    Block,
    Inline,
    InlineBlock,
    /// `display: none`: the element and its subtree produce no box.
    Hidden,
}

/// A simple selector matches when its tag name, its id and each of its
/// classes are matched by the element.
pub open spec fn simple_matches(s: SimpleSelector, e: ElementData) -> bool {
    &&& (s.tag_name matches Some(t) ==> t@ == e.tag_name@)
    &&& (s.id matches Some(i) ==> (e.id matches Some(j) && j@ == i@))
    &&& forall|k: int| 0 <= k < s.classes@.len() ==> e.has_class(#[trigger] s.classes@[k]@)
}

/// A selector matches when any one of its alternatives does.
pub open spec fn matches_selector(sel: Selector, e: ElementData) -> bool {
    exists|i: int| 0 <= i < sel.simple@.len() && simple_matches(#[trigger] sel.simple@[i], e)
}

pub open spec fn rule_applies(r: Rule, e: ElementData) -> bool {
    exists|i: int| 0 <= i < r.selectors@.len() && matches_selector(#[trigger] r.selectors@[i], e)
}

/// The property map after writing the declarations into `m` in order.
pub open spec fn apply_declarations(m: Map<Seq<char>, Value>, ds: Seq<Declaration>) -> Map<
    Seq<char>,
    Value,
>
    decreases ds.len(),
{
    if ds.len() == 0 {
        m
    } else {
        apply_declarations(m, ds.drop_last()).insert(ds.last().property@, ds.last().value)
    }
}

/// The properties that the rules give an element: each rule that applies
/// writes all its declarations, in document order.
pub open spec fn cascade(rules: Seq<Rule>, e: ElementData) -> Map<Seq<char>, Value>
    decreases rules.len(),
{
    if rules.len() == 0 {
        Map::empty()
    } else {
        let prev = cascade(rules.drop_last(), e);
        if rule_applies(rules.last(), e) {
            apply_declarations(prev, rules.last().declarations@)
        } else {
            prev
        }
    }
}

pub open spec fn is_element(n: Node) -> bool {
    n.node_type is Element
}

pub open spec fn element_pred() -> spec_fn(Node) -> bool {
    |c: Node| is_element(c)
}

pub open spec fn element_children(n: Node) -> Seq<Node> {
    n.children@.filter(element_pred())
}

pub open spec fn node_styles(n: Node, sheet: Stylesheet) -> Map<Seq<char>, Value> {
    match n.node_type {
        NodeType::Element(e) => cascade(sheet.rules@, e),
        NodeType::Text(_) => Map::empty(),
    }
}

/// `sn` is the styled tree of `n` under `sheet`.
pub open spec fn styled_from(sn: StyledNode, n: Node, sheet: Stylesheet) -> bool
    decreases sn,
{
    &&& sn.style_map() == node_styles(n, sheet)
    &&& sn.children@.len() == element_children(n).len()
    &&& forall|i: int|
        0 <= i < sn.children@.len() ==> styled_from(
            #[trigger] sn.children@[i],
            element_children(n)[i],
            sheet,
        )
}

pub open spec fn display_of(v: Option<Value>) -> Display {
    match v {
        Some(Value::Other(s)) => if s@ == "block"@ {
            Display::Block
        } else if s@ == "none"@ {
            Display::Hidden
        } else if s@ == "inline-block"@ {
            Display::InlineBlock
        } else {
            Display::Inline
        },
        _ => Display::Inline,
    }
}

pub open spec fn num_or_spec(v: Option<Value>, default: i64) -> i64 {
    match v {
        Some(Value::Length(n, _)) => n,
        _ => default,
    }
}

proof fn lemma_apply_last(m: Map<Seq<char>, Value>, ds: Seq<Declaration>, j: int)
    requires
        0 <= j < ds.len(),
        forall|k: int| j < k < ds.len() ==> (#[trigger] ds[k]).property@ != ds[j].property@,
    ensures
        apply_declarations(m, ds).contains_key(ds[j].property@),
        apply_declarations(m, ds)[ds[j].property@] == ds[j].value,
    decreases ds.len(),
{
    if j < ds.len() - 1 {
        assert(ds.last() == ds[ds.len() - 1]);
        lemma_apply_last(m, ds.drop_last(), j);
    }
}

proof fn lemma_apply_absent(m: Map<Seq<char>, Value>, ds: Seq<Declaration>, key: Seq<char>)
    requires
        forall|k: int| 0 <= k < ds.len() ==> (#[trigger] ds[k]).property@ != key,
    ensures
        apply_declarations(m, ds).contains_key(key) == m.contains_key(key),
        m.contains_key(key) ==> apply_declarations(m, ds)[key] == m[key],
    decreases ds.len(),
{
    if ds.len() > 0 {
        assert(ds.last() == ds[ds.len() - 1]);
        lemma_apply_absent(m, ds.drop_last(), key);
    }
}

/// When a rule applies to an element, the element's value for a property
/// that the rule declares is the rule's last declaration of it, whatever the
/// earlier rules said.
pub proof fn lemma_later_rule_wins(rules: Seq<Rule>, r: Rule, e: ElementData, j: int)
    requires
        rule_applies(r, e),
        0 <= j < r.declarations@.len(),
        forall|k: int|
            j < k < r.declarations@.len() ==> (#[trigger] r.declarations@[k]).property@
                != r.declarations@[j].property@,
    ensures
        cascade(rules.push(r), e).contains_key(r.declarations@[j].property@),
        cascade(rules.push(r), e)[r.declarations@[j].property@] == r.declarations@[j].value,
{
    assert(rules.push(r).drop_last() =~= rules);
    lemma_apply_last(cascade(rules, e), r.declarations@, j);
}

/// A rule leaves the properties it does not declare as the earlier rules
/// set them.
pub proof fn lemma_rule_keeps_undeclared(rules: Seq<Rule>, r: Rule, e: ElementData, key: Seq<char>)
    requires
        forall|k: int| 0 <= k < r.declarations@.len() ==> (#[trigger] r.declarations@[k]).property@ != key,
    ensures
        cascade(rules.push(r), e).contains_key(key) == cascade(rules, e).contains_key(key),
        cascade(rules, e).contains_key(key) ==> cascade(rules.push(r), e)[key] == cascade(rules, e)[key],
{
    assert(rules.push(r).drop_last() =~= rules);
    lemma_apply_absent(cascade(rules, e), r.declarations@, key);
}

/// Whether one of the selector's alternatives matches the element; the
/// combinators are not consulted.
pub fn selector_matches(element: &ElementData, selector: &Selector) -> (r: bool)
    ensures
        r == matches_selector(*selector, *element),
{
    let mut i: usize = 0;
    while i < selector.simple.len()
        invariant
            0 <= i <= selector.simple@.len(),
            forall|k: int| 0 <= k < i ==> !simple_matches(#[trigger] selector.simple@[k], *element),
        decreases selector.simple@.len() - i,
    {
        let simple = &selector.simple[i];
        let mut selector_match = true;
        match &simple.tag_name {
            Some(t) => {
                if *t != element.tag_name {
                    selector_match = false;
                }
            },
            None => {},
        }
        match &simple.id {
            Some(id) => match &element.id {
                Some(e_id) => {
                    if *e_id != *id {
                        selector_match = false;
                    }
                },
                None => {
                    selector_match = false;
                },
            },
            None => {},
        }
        let mut c: usize = 0;
        while c < simple.classes.len()
            invariant
                0 <= c <= simple.classes@.len(),
                simple == selector.simple@[i as int],
                selector_match == ((simple.tag_name matches Some(t) ==> t@ == element.tag_name@)
                    && (simple.id matches Some(x) ==> (element.id matches Some(j) && j@ == x@))
                    && forall|k: int| 0 <= k < c ==> element.has_class(#[trigger] simple.classes@[k]@)),
            decreases simple.classes@.len() - c,
        {
            let found = element.contains_class(&simple.classes[c]);
            selector_match = selector_match && found;
            c += 1;
        }
        if selector_match {
            return true;
        }
        i += 1;
    }
    false
}

impl StyledNode {
    /// The resolved properties of the node.
    pub open spec fn style_map(&self) -> Map<Seq<char>, Value> {
        apply_declarations(Map::empty(), self.styles@)
    }

    pub open spec fn prop(&self, name: Seq<char>) -> Option<Value> {
        if self.style_map().contains_key(name) {
            Some(self.style_map()[name])
        } else {
            None
        }
    }

    pub open spec fn display(&self) -> Display {
        display_of(self.prop("display"@))
    }

    /// Styles `node` and, depth first, every element below it. Text children
    /// are dropped.
    pub fn new(node: &Node, stylesheet: &Stylesheet) -> (r: StyledNode)
        ensures
            styled_from(r, *node, *stylesheet),
        decreases node,
    {
        let mut style_children: Vec<StyledNode> = Vec::new();
        let mut i: usize = 0;
        while i < node.children.len()
            invariant
                0 <= i <= node.children@.len(),
                style_children@.len() == node.children@.take(i as int).filter(element_pred()).len(),
                forall|k: int|
                    0 <= k < style_children@.len() ==> styled_from(
                        #[trigger] style_children@[k],
                        node.children@.take(i as int).filter(element_pred())[k],
                        *stylesheet,
                    ),
            decreases node.children@.len() - i,
        {
            let child = &node.children[i];
            proof {
                assert(node.children@.take(i + 1).drop_last() =~= node.children@.take(i as int));
                assert(node.children@.take(i + 1).last() == node.children@[i as int]);
            }
            let ghost before = style_children@;
            let ghost prefix = node.children@.take(i as int);
            proof {
                assert(node.children@.take(i + 1) =~= prefix.push(*child));
                prefix.lemma_filter_push(*child, element_pred());
            }
            match child.node_type {
                NodeType::Element(_) => {
                    let sc = StyledNode::new(child, stylesheet);
                    style_children.push(sc);
                    proof {
                        assert(is_element(*child));
                        
                        assert(node.children@.take(i + 1).filter(element_pred()) == prefix.filter(element_pred()).push(
                            *child,
                        ));
                        assert forall|k: int| 0 <= k < style_children@.len() implies styled_from(
                            #[trigger] style_children@[k],
                            node.children@.take(i + 1).filter(element_pred())[k],
                            *stylesheet,
                        ) by {
                            if k < before.len() {
                                assert(style_children@[k] == before[k]);
                            }
                        }
                    }
                },
                _ => {
                    proof {
                        assert(!is_element(*child));
                        assert(node.children@.take(i + 1).filter(element_pred()) == prefix.filter(element_pred()));
                    }
                },
            }
            i += 1;
        }
        proof {
            assert(node.children@.take(node.children@.len() as int) =~= node.children@);
        }
        let styles = match &node.node_type {
            NodeType::Element(e) => StyledNode::get_styles(e, stylesheet),
            _ => Vec::new(),
        };
        let r = StyledNode { styles, children: style_children };
        proof {
            assert(element_children(*node) == node.children@.filter(element_pred()));
        }
        r
    }

    /// The declarations of every rule that applies to `element`, in order.
    fn get_styles(element: &ElementData, stylesheet: &Stylesheet) -> (r: Vec<Declaration>)
        ensures
            apply_declarations(Map::empty(), r@) == cascade(stylesheet.rules@, *element),
    {
        let mut styles: Vec<Declaration> = Vec::new();
        let mut i: usize = 0;
        while i < stylesheet.rules.len()
            invariant
                0 <= i <= stylesheet.rules@.len(),
                apply_declarations(Map::empty(), styles@) == cascade(
                    stylesheet.rules@.take(i as int),
                    *element,
                ),
            decreases stylesheet.rules@.len() - i,
        {
            let rule = &stylesheet.rules[i];
            proof {
                assert(stylesheet.rules@.take(i + 1).drop_last() =~= stylesheet.rules@.take(
                    i as int,
                ));
                assert(stylesheet.rules@.take(i + 1).last() == *rule);
            }
            let mut matched = false;
            let mut s: usize = 0;
            while s < rule.selectors.len() && !matched
                invariant
                    0 <= s <= rule.selectors@.len(),
                    matched ==> rule_applies(*rule, *element),
                    !matched ==> forall|k: int|
                        0 <= k < s ==> !matches_selector(#[trigger] rule.selectors@[k], *element),
                decreases rule.selectors@.len() - s,
            {
                if selector_matches(element, &rule.selectors[s]) {
                    matched = true;
                }
                s += 1;
            }
            if matched {
                let ghost base = styles@;
                let mut d: usize = 0;
                while d < rule.declarations.len()
                    invariant
                        0 <= d <= rule.declarations@.len(),
                        apply_declarations(Map::empty(), styles@) == apply_declarations(
                            apply_declarations(Map::empty(), base),
                            rule.declarations@.take(d as int),
                        ),
                    decreases rule.declarations@.len() - d,
                {
                    let decl = &rule.declarations[d];
                    let property = decl.property.clone();
                    let value = decl.value.copy();
                    let ghost before = styles@;
                    styles.push(Declaration { property, value });
                    proof {
                        assert(styles@.drop_last() =~= before);
                        assert(rule.declarations@.take(d + 1).drop_last() =~= rule.declarations@.take(
                            d as int,
                        ));
                        assert(rule.declarations@.take(d + 1).last() == *decl);
                    }
                    d += 1;
                }
                proof {
                    assert(rule.declarations@.take(rule.declarations@.len() as int)
                        =~= rule.declarations@);
                }
            }
            i += 1;
        }
        proof {
            assert(stylesheet.rules@.take(stylesheet.rules@.len() as int) =~= stylesheet.rules@);
        }
        styles
    }

    /// The value resolved for property `name`, if any.
    pub fn value(&self, name: &str) -> (r: Option<&Value>)
        ensures
            r matches Some(v) ==> self.prop(name@) == Some(*v),
            r is None ==> self.prop(name@) is None,
    {
        let key = name.to_owned();
        let mut i: usize = self.styles.len();
        while i > 0
            invariant
                0 <= i <= self.styles@.len(),
                key@ == name@,
                forall|k: int| i <= k < self.styles@.len() ==> (#[trigger] self.styles@[k]).property@ != name@,
            decreases i,
        {
            if self.styles[i - 1].property == key {
                proof {
                    lemma_apply_last(Map::empty(), self.styles@, i - 1);
                }
                return Some(&self.styles[i - 1].value);
            }
            i -= 1;
        }
        proof {
            lemma_apply_absent(Map::empty(), self.styles@, name@);
        }
        None
    }

    /// The box kind the `display` property asks for; `inline` when unset or
    /// not a keyword.
    pub fn get_display(&self) -> (r: Display)
        ensures
            r == self.display(),
    {
        match self.value("display") {
            Some(Value::Other(v)) => {
                if *v == "block".to_owned() {
                    Display::Block
                } else if *v == "none".to_owned() {
                    Display::Hidden
                } else if *v == "inline-block".to_owned() {
                    Display::InlineBlock
                } else {
                    Display::Inline
                }
            },
            _ => Display::Inline,
        }
    }

    /// The magnitude of a length declared for `name`, whatever its unit, or
    /// `default`.
    pub fn num_or(&self, name: &str, default: i64) -> (r: i64)
        ensures
            r == num_or_spec(self.prop(name@), default),
    {
        match self.value(name) {
            Some(Value::Length(n, _)) => *n,
            _ => default,
        }
    }
}

} // verus!
