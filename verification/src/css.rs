//! Stylesheet data model: rules, selectors, declarations, property values,
//! and selector specificity.

use vstd::prelude::*;

verus! {

/// A stylesheet is a series of rules, in source order. Source order matters:
/// when two rules tie on specificity, the later one wins the cascade.
pub struct Stylesheet {
    pub rules: Vec<Rule>,
}

/// One rule: a list of alternative selectors and the declarations that apply
/// when any of them matches.
///
/// Rules are stored with `selectors` sorted by specificity descending
/// (`rule_sorted` in the style module), so the first matching selector is
/// also a most specific one.
pub struct Rule {
    pub selectors: Vec<Selector>,
    pub declarations: Vec<Declaration>,
}

/// A selector. Only simple selectors are supported.
pub enum Selector {
    Simple(SimpleSelector),
}

/// A simple selector: optional tag name, optional id, and any number of
/// class names. An absent component matches vacuously, so the selector with
/// no components at all is the universal selector `*`.
pub struct SimpleSelector {
    pub tag_name: Option<String>,
    pub id: Option<String>,
    pub class: Vec<String>,
}

/// A property declaration: `name: value;`.
pub struct Declaration {
    pub name: String,
    pub value: Value,
}

/// A property value. Only keywords, pixel lengths and colors are supported;
/// lengths are whole pixels.
#[derive(Debug, PartialEq, Eq)]
pub enum Value {
    Keyword(String),
    Length(i64, Unit),
    ColorValue(Color),
}

/// A length unit. Only `px` is supported.
#[derive(Clone, Copy, Debug, PartialEq, Eq)]
pub enum Unit {
    Px,
}

/// An RGBA color.
#[derive(Clone, Copy, PartialEq, Eq, Structural, Debug)]
pub struct Color {
    pub r: u8,
    pub g: u8,
    pub b: u8,
    pub a: u8,
}

/// Specificity of a selector: `(#ids, #classes, #tags)`, compared
/// lexicographically; higher wins.
pub type Specificity = (usize, usize, usize);

/// Mathematical model of a simple selector.
pub ghost struct SimpleSelectorV {
    pub tag_name: Option<Seq<char>>,
    pub id: Option<Seq<char>>,
    pub class: Seq<Seq<char>>,
}

/// Mathematical model of a property value. The only unit is `px`, so a
/// length is modelled by its pixel count alone.
pub ghost enum ValueV {
    Keyword(Seq<char>),
    Length(int),
    ColorValue(Color),
}

/// Mathematical model of a declaration.
pub ghost struct DeclarationV {
    pub name: Seq<char>,
    pub value: ValueV,
}

/// Mathematical model of a rule.
pub ghost struct RuleV {
    pub selectors: Seq<SimpleSelectorV>,
    pub declarations: Seq<DeclarationV>,
}

impl View for SimpleSelector {
    type V = SimpleSelectorV;

    open spec fn view(&self) -> SimpleSelectorV {
        SimpleSelectorV {
            tag_name: match self.tag_name {
                Some(t) => Some(t@),
                None => None,
            },
            id: match self.id {
                Some(i) => Some(i@),
                None => None,
            },
            class: self.class.deep_view(),
        }
    }
}

impl View for Selector {
    type V = SimpleSelectorV;

    open spec fn view(&self) -> SimpleSelectorV {
        match self {
            Selector::Simple(s) => s@,
        }
    }
}

impl View for Value {
    type V = ValueV;

    open spec fn view(&self) -> ValueV {
        match self {
            Value::Keyword(s) => ValueV::Keyword(s@),
            Value::Length(n, _) => ValueV::Length(*n as int),
            Value::ColorValue(c) => ValueV::ColorValue(*c),
        }
    }
}

/// The pixel count of a value: a length's pixels, 0 for anything else.
pub open spec fn to_px_v(v: ValueV) -> int {
    match v {
        ValueV::Length(n) => n,
        _ => 0,
    }
}

/// Is this value the keyword `auto`?
pub open spec fn is_auto_v(v: ValueV) -> bool {
    v == ValueV::Keyword("auto"@)
}

impl Value {
    /// The pixel count of this value; non-lengths project to 0.
    pub fn to_px(&self) -> (r: i64)
        ensures
            r == to_px_v(self@),
    {
        match self {
            Value::Length(n, _) => *n,
            _ => 0,
        }
    }

    /// An owned copy of this value.
    pub fn dup(&self) -> (r: Value)
        ensures
            r == *self,
    {
        match self {
            Value::Keyword(s) => Value::Keyword(s.clone()),
            Value::Length(n, u) => Value::Length(*n, *u),
            Value::ColorValue(c) => Value::ColorValue(*c),
        }
    }

    /// Is this value the keyword `auto`?
    pub fn is_auto(&self) -> (r: bool)
        ensures
            r == is_auto_v(self@),
    {
        match self {
            Value::Keyword(s) => crate::strutil::str_eq(s.as_str(), "auto"),
            _ => false,
        }
    }
}

impl View for Declaration {
    type V = DeclarationV;

    open spec fn view(&self) -> DeclarationV {
        DeclarationV { name: self.name@, value: self.value@ }
    }
}

impl View for Rule {
    type V = RuleV;

    open spec fn view(&self) -> RuleV {
        RuleV {
            selectors: Seq::new(self.selectors@.len(), |i: int| self.selectors@[i]@),
            declarations: Seq::new(self.declarations@.len(), |i: int| self.declarations@[i]@),
        }
    }
}

impl View for Stylesheet {
    type V = Seq<RuleV>;

    open spec fn view(&self) -> Seq<RuleV> {
        Seq::new(self.rules@.len(), |i: int| self.rules@[i]@)
    }
}

/// The specificity of a (model) selector: one point per id, per class name
/// and per tag name present.
pub open spec fn spec_specificity(s: SimpleSelectorV) -> Specificity {
    (
        (if s.id is Some { 1usize } else { 0usize }),
        s.class.len() as usize,
        (if s.tag_name is Some { 1usize } else { 0usize }),
    )
}

/// Lexicographic strict order on specificities.
pub open spec fn specificity_lt(a: Specificity, b: Specificity) -> bool {
    a.0 < b.0 || (a.0 == b.0 && (a.1 < b.1 || (a.1 == b.1 && a.2 < b.2)))
}

/// Lexicographic non-strict order on specificities.
pub open spec fn specificity_le(a: Specificity, b: Specificity) -> bool {
    specificity_lt(a, b) || a == b
}

impl Selector {
    /// The specificity of this selector.
    pub fn specificity(&self) -> (r: Specificity)
        ensures
            r == spec_specificity(self@),
    {
        let Selector::Simple(simple) = self;
        let a: usize = if simple.id.is_some() {
            1
        } else {
            0
        };
        let b: usize = simple.class.len();
        let c: usize = if simple.tag_name.is_some() {
            1
        } else {
            0
        };
        proof {
            assert(simple@.class.len() == simple.class@.len());
        }
        (a, b, c)
    }
}

/// Compare two specificities, lexicographically: is `a <= b`?
pub fn specificity_leq(a: Specificity, b: Specificity) -> (r: bool)
    ensures
        r == specificity_le(a, b),
{
    if a.0 != b.0 {
        a.0 < b.0
    } else if a.1 != b.1 {
        a.1 < b.1
    } else {
        a.2 <= b.2
    }
}

/// Specificity ordering law, id level: any selector with an id outranks any
/// selector without one, regardless of their class and tag counts.
pub proof fn lemma_specificity_id_beats_classes(a: SimpleSelectorV, b: SimpleSelectorV)
    requires
        a.id is Some,
        b.id is None,
    ensures
        specificity_lt(spec_specificity(b), spec_specificity(a)),
{
}

/// Specificity ordering law, class level: among selectors without ids, more
/// class names beat fewer, regardless of tag counts.
pub proof fn lemma_specificity_more_classes_beat_fewer(a: SimpleSelectorV, b: SimpleSelectorV)
    requires
        a.id is Some <==> b.id is Some,
        a.class.len() > b.class.len(),
        a.class.len() <= usize::MAX,
    ensures
        specificity_lt(spec_specificity(b), spec_specificity(a)),
{
}

/// Specificity ordering law, tag level: with equal id and class counts, a
/// selector with a tag name outranks one without.
pub proof fn lemma_specificity_tag_breaks_tie(a: SimpleSelectorV, b: SimpleSelectorV)
    requires
        a.id is Some <==> b.id is Some,
        a.class.len() == b.class.len(),
        a.class.len() <= usize::MAX,
        a.tag_name is Some,
        b.tag_name is None,
    ensures
        specificity_lt(spec_specificity(b), spec_specificity(a)),
{
}

} // verus!
