use vstd::prelude::*;

use crate::text::{int_text, push_char, push_int, push_str, sep_join};

verus! {

/// An ordered list of rules; a later rule overrides an earlier one.
pub struct Stylesheet {
    pub rules: Vec<Rule>,
}

/// A set of selector alternatives together with the declarations they apply.
pub struct Rule {
    pub selectors: Vec<Selector>,
    pub declarations: Vec<Declaration>,
}

/// Simple-selector alternatives; the combinators are kept as written but
/// matching does not consult them.
pub struct Selector {
    pub simple: Vec<SimpleSelector>,
    pub combinators: Vec<char>,
}

pub struct SimpleSelector {
    pub tag_name: Option<String>,
    pub id: Option<String>,
    pub classes: Vec<String>,
}

pub struct Declaration {
    pub property: String,
    pub value: Value,
}

/// A declared value. Lengths are integers in the caller's length unit.
pub enum Value {
    Color(Color),
    Length(i64, Unit),
    Other(String),
}

#[derive(Clone, Copy, Debug, PartialEq, Eq, Structural)]
pub enum Unit {
    Em,
    Ex,
    Ch,
    Rem,
    Vh,
    Vw,
    Vmin,
    Vmax,
    Px,
    Mm,
    Q,
    Cm,
    In,
    Pt,
    Pc,
    Pct,
}

/// A colour with 8-bit channels; `a` is the opacity, 255 being opaque.
#[derive(Clone, Copy, Debug, PartialEq, Eq, Structural)]
pub struct Color {
    pub r: u8,
    pub g: u8,
    pub b: u8,
    pub a: u8,
}

impl Stylesheet {
    pub fn new(rules: Vec<Rule>) -> (r: Stylesheet)
        ensures
            r.rules@ == rules@,
    {
        Stylesheet { rules }
    }
}

impl Default for Stylesheet {
    fn default() -> (r: Stylesheet)
        ensures
            r.rules@.len() == 0,
    {
        Stylesheet { rules: Vec::new() }
    }
}

impl Rule {
    pub fn new(selectors: Vec<Selector>, declarations: Vec<Declaration>) -> (r: Rule)
        ensures
            r.selectors@ == selectors@,
            r.declarations@ == declarations@,
    {
        Rule { selectors, declarations }
    }
}

impl Default for Rule {
    fn default() -> (r: Rule)
        ensures
            r.selectors@.len() == 0,
            r.declarations@.len() == 0,
    {
        Rule { selectors: Vec::new(), declarations: Vec::new() }
    }
}

impl Selector {
    pub fn new(simple: Vec<SimpleSelector>, combinators: Vec<char>) -> (r: Selector)
        ensures
            r.simple@ == simple@,
            r.combinators@ == combinators@,
    {
        Selector { simple, combinators }
    }
}

impl Default for Selector {
    fn default() -> (r: Selector)
        ensures
            r.simple@.len() == 0,
            r.combinators@.len() == 0,
    {
        Selector { simple: Vec::new(), combinators: Vec::new() }
    }
}

impl SimpleSelector {
    pub fn new(tag_name: Option<String>, id: Option<String>, classes: Vec<String>) -> (r:
        SimpleSelector)
        ensures
            r.tag_name == tag_name,
            r.id == id,
            r.classes@ == classes@,
    {
        SimpleSelector { tag_name, id, classes }
    }
}

impl Default for SimpleSelector {
    fn default() -> (r: SimpleSelector)
        ensures
            r.tag_name is None,
            r.id is None,
            r.classes@.len() == 0,
    {
        SimpleSelector { tag_name: None, id: None, classes: Vec::new() }
    }
}

impl Declaration {
    pub fn new(property: String, value: Value) -> (r: Declaration)
        ensures
            r.property == property,
            r.value == value,
    {
        Declaration { property, value }
    }
}

impl Default for Declaration {
    fn default() -> (r: Declaration)
        ensures
            r.property@.len() == 0,
            r.value matches Value::Other(s) && s@.len() == 0,
    {
        Declaration { property: String::new(), value: Value::Other(String::new()) }
    }
}

impl Value {
    /// A copy of the value.
    pub fn copy(&self) -> (r: Value)
        ensures
            r == *self,
    {
        match self {
            Value::Color(c) => Value::Color(*c),
            Value::Length(n, u) => Value::Length(*n, *u),
            Value::Other(s) => Value::Other(s.clone()),
        }
    }
}

impl Color {
    pub fn new(r: u8, g: u8, b: u8, a: u8) -> (c: Color)
        ensures
            c == (Color { r, g, b, a }),
    {
        Color { r, g, b, a }
    }
}

impl Default for Color {
    /// Opaque white.
    fn default() -> (c: Color)
        ensures
            c == (Color { r: 255, g: 255, b: 255, a: 255 }),
    {
        Color::new(255, 255, 255, 255)
    }
}

/// `tag#id.class1.class2`, each part only when present.
pub open spec fn simple_selector_text(s: SimpleSelector) -> Seq<char> {
    (match s.tag_name {
        Some(t) => t@,
        None => Seq::empty(),
    }) + (match s.id {
        Some(i) => seq!['#'] + i@,
        None => Seq::empty(),
    }) + classes_text(s.classes@)
}

pub open spec fn classes_text(cs: Seq<String>) -> Seq<char>
    decreases cs.len(),
{
    if cs.len() == 0 {
        Seq::empty()
    } else {
        classes_text(cs.drop_last()) + seq!['.'] + cs.last()@
    }
}

/// The alternatives, separated by `, `.
pub open spec fn selector_text(sel: Selector) -> Seq<char> {
    simples_text(sel.simple@)
}

pub open spec fn simples_text(ss: Seq<SimpleSelector>) -> Seq<char>
    decreases ss.len(),
{
    if ss.len() == 0 {
        Seq::empty()
    } else {
        sep_join(simples_text(ss.drop_last()), ", "@, simple_selector_text(ss.last()))
    }
}

pub open spec fn selectors_text(ss: Seq<Selector>) -> Seq<char>
    decreases ss.len(),
{
    if ss.len() == 0 {
        Seq::empty()
    } else {
        sep_join(selectors_text(ss.drop_last()), ", "@, selector_text(ss.last()))
    }
}

pub open spec fn color_text(c: Color) -> Seq<char> {
    "r: "@ + int_text(c.r as int) + " g: "@ + int_text(c.g as int) + " b: "@ + int_text(
        c.b as int,
    ) + " a: "@ + int_text(c.a as int)
}

/// A colour as its channels, a length as its magnitude, anything else in
/// double quotes.
pub open spec fn value_text(v: Value) -> Seq<char> {
    match v {
        Value::Color(c) => color_text(c),
        Value::Length(n, _) => int_text(n as int),
        Value::Other(s) => seq!['"'] + s@ + seq!['"'],
    }
}

pub open spec fn declaration_text(d: Declaration) -> Seq<char> {
    d.property@ + ": "@ + value_text(d.value)
}

pub open spec fn declarations_text(ds: Seq<Declaration>) -> Seq<char>
    decreases ds.len(),
{
    if ds.len() == 0 {
        Seq::empty()
    } else {
        declarations_text(ds.drop_last()) + "    "@ + declaration_text(ds.last()) + seq!['\n']
    }
}

/// The selectors, then the declarations in braces, one per line.
pub open spec fn rule_text(r: Rule) -> Seq<char> {
    selectors_text(r.selectors@) + " {\n"@ + declarations_text(r.declarations@) + seq!['}']
}

pub open spec fn rules_text(rs: Seq<Rule>) -> Seq<char>
    decreases rs.len(),
{
    if rs.len() == 0 {
        Seq::empty()
    } else {
        sep_join(rules_text(rs.drop_last()), "\n\n"@, rule_text(rs.last()))
    }
}

/// Appends `sep` when `s` is not empty.
fn push_separator(s: &mut String, sep: &str)
    ensures
        old(s)@.len() > 0 ==> final(s)@ == old(s)@ + sep@,
        old(s)@.len() == 0 ==> final(s)@ == old(s)@,
{
    if !s.as_str().is_empty() {
        push_str(s, sep);
    }
}

impl SimpleSelector {
    pub fn to_string(&self) -> (r: String)
        ensures
            r@ == simple_selector_text(*self),
    {
        let mut result = String::new();
        match &self.tag_name {
            Some(t) => push_str(&mut result, t.as_str()),
            None => {},
        }
        match &self.id {
            Some(i) => {
                push_char(&mut result, '#');
                push_str(&mut result, i.as_str());
            },
            None => {},
        }
        let ghost head = result@;
        let mut k: usize = 0;
        while k < self.classes.len()
            invariant
                0 <= k <= self.classes@.len(),
                result@ == head + classes_text(self.classes@.take(k as int)),
            decreases self.classes@.len() - k,
        {
            proof {
                assert(self.classes@.take(k + 1).drop_last() =~= self.classes@.take(k as int));
            }
            push_char(&mut result, '.');
            push_str(&mut result, self.classes[k].as_str());
            proof {
                assert(result@ =~= head + classes_text(self.classes@.take(k + 1)));
            }
            k += 1;
        }
        proof {
            assert(self.classes@.take(self.classes@.len() as int) =~= self.classes@);
            assert(result@ =~= simple_selector_text(*self));
        }
        result
    }
}

impl Selector {
    pub fn to_string(&self) -> (r: String)
        ensures
            r@ == selector_text(*self),
    {
        let mut result = String::new();
        let mut k: usize = 0;
        while k < self.simple.len()
            invariant
                0 <= k <= self.simple@.len(),
                result@ == simples_text(self.simple@.take(k as int)),
            decreases self.simple@.len() - k,
        {
            proof {
                assert(self.simple@.take(k + 1).drop_last() =~= self.simple@.take(k as int));
            }
            push_separator(&mut result, ", ");
            let item = self.simple[k].to_string();
            push_str(&mut result, item.as_str());
            proof {
                assert(result@ =~= simples_text(self.simple@.take(k + 1)));
            }
            k += 1;
        }
        proof {
            assert(self.simple@.take(self.simple@.len() as int) =~= self.simple@);
        }
        result
    }
}

impl Color {
    pub fn to_string(&self) -> (r: String)
        ensures
            r@ == color_text(*self),
    {
        let mut result = String::new();
        push_str(&mut result, "r: ");
        push_int(&mut result, self.r as i64);
        push_str(&mut result, " g: ");
        push_int(&mut result, self.g as i64);
        push_str(&mut result, " b: ");
        push_int(&mut result, self.b as i64);
        push_str(&mut result, " a: ");
        push_int(&mut result, self.a as i64);
        proof {
            assert(result@ =~= color_text(*self));
        }
        result
    }
}

impl Value {
    pub fn to_string(&self) -> (r: String)
        ensures
            r@ == value_text(*self),
    {
        match self {
            Value::Color(c) => c.to_string(),
            Value::Length(n, _) => {
                let mut result = String::new();
                push_int(&mut result, *n);
                proof {
                    assert(result@ =~= value_text(*self));
                }
                result
            },
            Value::Other(s) => {
                let mut result = String::new();
                push_char(&mut result, '"');
                push_str(&mut result, s.as_str());
                push_char(&mut result, '"');
                proof {
                    assert(result@ =~= value_text(*self));
                }
                result
            },
        }
    }
}

impl Declaration {
    pub fn to_string(&self) -> (r: String)
        ensures
            r@ == declaration_text(*self),
    {
        let mut result = String::new();
        push_str(&mut result, self.property.as_str());
        push_str(&mut result, ": ");
        let v = self.value.to_string();
        push_str(&mut result, v.as_str());
        proof {
            assert(result@ =~= declaration_text(*self));
        }
        result
    }
}

impl Rule {
    pub fn to_string(&self) -> (r: String)
        ensures
            r@ == rule_text(*self),
    {
        let mut result = String::new();
        let mut k: usize = 0;
        while k < self.selectors.len()
            invariant
                0 <= k <= self.selectors@.len(),
                result@ == selectors_text(self.selectors@.take(k as int)),
            decreases self.selectors@.len() - k,
        {
            proof {
                assert(self.selectors@.take(k + 1).drop_last() =~= self.selectors@.take(k as int));
            }
            push_separator(&mut result, ", ");
            let item = self.selectors[k].to_string();
            push_str(&mut result, item.as_str());
            proof {
                assert(result@ =~= selectors_text(self.selectors@.take(k + 1)));
            }
            k += 1;
        }
        proof {
            assert(self.selectors@.take(self.selectors@.len() as int) =~= self.selectors@);
        }
        push_str(&mut result, " {\n");
        let ghost head = result@;
        let mut k: usize = 0;
        while k < self.declarations.len()
            invariant
                0 <= k <= self.declarations@.len(),
                result@ == head + declarations_text(self.declarations@.take(k as int)),
            decreases self.declarations@.len() - k,
        {
            proof {
                assert(self.declarations@.take(k + 1).drop_last() =~= self.declarations@.take(
                    k as int,
                ));
            }
            push_str(&mut result, "    ");
            let item = self.declarations[k].to_string();
            push_str(&mut result, item.as_str());
            push_char(&mut result, '\n');
            proof {
                assert(result@ =~= head + declarations_text(self.declarations@.take(k + 1)));
            }
            k += 1;
        }
        push_char(&mut result, '}');
        proof {
            assert(self.declarations@.take(self.declarations@.len() as int) =~= self.declarations@);
            assert(result@ =~= rule_text(*self));
        }
        result
    }
}

impl Stylesheet {
    pub fn to_string(&self) -> (r: String)
        ensures
            r@ == rules_text(self.rules@),
    {
        let mut result = String::new();
        let mut k: usize = 0;
        while k < self.rules.len()
            invariant
                0 <= k <= self.rules@.len(),
                result@ == rules_text(self.rules@.take(k as int)),
            decreases self.rules@.len() - k,
        {
            proof {
                assert(self.rules@.take(k + 1).drop_last() =~= self.rules@.take(k as int));
            }
            push_separator(&mut result, "\n\n");
            let item = self.rules[k].to_string();
            push_str(&mut result, item.as_str());
            proof {
                assert(result@ =~= rules_text(self.rules@.take(k + 1)));
            }
            k += 1;
        }
        proof {
            assert(self.rules@.take(self.rules@.len() as int) =~= self.rules@);
        }
        result
    }
}

} // verus!
