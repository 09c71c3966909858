//! The style cascade: match selectors against elements, order matching rules
//! by specificity, merge their declarations into per-element property maps,
//! and mirror the node tree as a tree of styled nodes.

use vstd::prelude::*;
use crate::css::{
    is_auto_v, specificity_le, spec_specificity, Declaration, DeclarationV, Rule, RuleV, Selector,
    SimpleSelector, SimpleSelectorV, Specificity, Stylesheet, Value, ValueV,
};
use crate::dom::{
    node_view, spec_classes, spec_id, ElementData, ElementDataV, Node, NodeType, NodeTypeV, NodeV,
};
use crate::strutil::str_eq;

verus! {

/// Map from property names to values, insertion-ordered; the latest
/// insertion of a name wins.
pub struct PropertyMap {
    pub entries: Vec<Declaration>,
}

/// The map denoted by a sequence of declarations: later entries win.
pub open spec fn props_map(s: Seq<DeclarationV>) -> Map<Seq<char>, ValueV>
    decreases s.len(),
{
    if s.len() == 0 {
        Map::empty()
    } else {
        props_map(s.drop_last()).insert(s.last().name, s.last().value)
    }
}

/// The models of the declarations held by a property map.
pub open spec fn entries_view(s: Seq<Declaration>) -> Seq<DeclarationV> {
    Seq::new(s.len(), |i: int| s[i]@)
}

impl View for PropertyMap {
    type V = Map<Seq<char>, ValueV>;

    open spec fn view(&self) -> Map<Seq<char>, ValueV> {
        props_map(entries_view(self.entries@))
    }
}

/// Try `primary`, then `fallback`, then the caller-supplied default.
pub open spec fn lookup_v(
    m: Map<Seq<char>, ValueV>,
    primary: Seq<char>,
    fallback: Seq<char>,
    default: ValueV,
) -> ValueV {
    if m.contains_key(primary) {
        m[primary]
    } else if m.contains_key(fallback) {
        m[fallback]
    } else {
        default
    }
}

impl PropertyMap {
    /// An empty property map.
    pub fn new() -> (r: PropertyMap)
        ensures
            r@ == Map::<Seq<char>, ValueV>::empty(),
    {
        let r = PropertyMap { entries: Vec::new() };
        proof {
            assert(entries_view(r.entries@) =~= Seq::<DeclarationV>::empty());
        }
        r
    }

    /// Bind `name` to `value`, replacing any earlier binding of `name`.
    pub fn insert(&mut self, name: String, value: Value)
        ensures
            final(self)@ == old(self)@.insert(name@, value@),
    {
        let ghost before = entries_view(self.entries@);
        self.entries.push(Declaration { name, value });
        proof {
            assert(entries_view(self.entries@).drop_last() =~= before);
            assert(entries_view(self.entries@).last() == (DeclarationV {
                name: name@,
                value: value@,
            }));
        }
    }

    /// The value bound to `name`, if any.
    pub fn value(&self, name: &str) -> (r: Option<Value>)
        ensures
            match r {
                Some(v) => self@.contains_key(name@) && v@ == self@[name@],
                None => !self@.contains_key(name@),
            },
    {
        let mut i: usize = self.entries.len();
        proof {
            assert(entries_view(self.entries@).subrange(0, i as int) =~= entries_view(
                self.entries@,
            ));
        }
        while i > 0
            invariant
                i <= self.entries@.len(),
                self@.contains_key(name@) <==> props_map(
                    entries_view(self.entries@).subrange(0, i as int),
                ).contains_key(name@),
                self@.contains_key(name@) ==> self@[name@] == props_map(
                    entries_view(self.entries@).subrange(0, i as int),
                )[name@],
            decreases i,
        {
            i = i - 1;
            proof {
                let pre = entries_view(self.entries@).subrange(0, i as int + 1);
                assert(pre.drop_last() =~= entries_view(self.entries@).subrange(0, i as int));
                assert(pre.last() == self.entries@[i as int]@);
            }
            let d = &self.entries[i];
            if str_eq(d.name.as_str(), name) {
                return Some(d.value.dup());
            }
        }
        proof {
            assert(entries_view(self.entries@).subrange(0, 0) =~= Seq::<DeclarationV>::empty());
        }
        None
    }

    /// Try `primary`, then `fallback`, then return `default`.
    pub fn lookup(&self, primary: &str, fallback: &str, default: &Value) -> (r: Value)
        ensures
            r@ == lookup_v(self@, primary@, fallback@, default@),
    {
        match self.value(primary) {
            Some(v) => v,
            None => match self.value(fallback) {
                Some(v) => v,
                None => default.dup(),
            },
        }
    }

    /// An owned copy of this map.
    pub fn dup(&self) -> (r: PropertyMap)
        ensures
            r@ == self@,
            r.entries@.len() == self.entries@.len(),
    {
        let mut entries: Vec<Declaration> = Vec::new();
        let mut i: usize = 0;
        while i < self.entries.len()
            invariant
                i <= self.entries@.len(),
                entries@.len() == i,
                forall|j: int| 0 <= j < i ==> entries@[j] == self.entries@[j],
            decreases self.entries@.len() - i,
        {
            let d = &self.entries[i];
            entries.push(Declaration { name: d.name.clone(), value: d.value.dup() });
            i = i + 1;
        }
        let r = PropertyMap { entries };
        proof {
            assert(entries_view(r.entries@) =~= entries_view(self.entries@));
        }
        r
    }
}

/// The resolved `display` of an element.
#[derive(Clone, Copy, PartialEq, Eq, Structural, Debug)]
pub enum Display {
    Inline,
    Block,
    DisplayNone,
}

/// `display` resolution: keyword `block` gives a block box, keyword `none`
/// omits the element from layout, anything else (or no value) is inline.
pub open spec fn spec_display(m: Map<Seq<char>, ValueV>) -> Display {
    if m.contains_key("display"@) {
        match m["display"@] {
            ValueV::Keyword(s) => if s == "block"@ {
                Display::Block
            } else if s == "none"@ {
                Display::DisplayNone
            } else {
                Display::Inline
            },
            _ => Display::Inline,
        }
    } else {
        Display::Inline
    }
}

/// A node of the style tree: the property map the cascade resolved for one
/// input node, and one styled child per input child.
///
/// The style tree holds no reference back into the node tree: the `k`-th
/// styled child corresponds to the `k`-th node child, and the later passes
/// (layout, painting) read only the property map carried here. A consumer
/// that needs the originating node (say, for its text content) recovers it
/// by that positional correspondence.
pub struct StyledNode {
    pub specified_values: PropertyMap,
    pub children: Vec<StyledNode>,
}

/// Mathematical model of a styled node.
pub ghost struct StyledNodeV {
    pub specified_values: Map<Seq<char>, ValueV>,
    pub children: Seq<StyledNodeV>,
}

/// The model of a styled node, children included.
pub open spec fn styled_view(n: StyledNode) -> StyledNodeV
    decreases n, 0nat,
{
    StyledNodeV {
        specified_values: n.specified_values@,
        children: styled_seq_view(n.children, n.children@.len()),
    }
}

/// The models of the first `k` styled nodes of `v`.
pub open spec fn styled_seq_view(v: Vec<StyledNode>, k: nat) -> Seq<StyledNodeV>
    decreases v, k,
{
    if k == 0 || k > v@.len() {
        Seq::empty()
    } else {
        styled_seq_view(v, (k - 1) as nat).push(styled_view(v[k - 1]))
    }
}

/// `styled_seq_view` is the element-wise model of the vector's prefix.
pub proof fn lemma_styled_seq_view(v: Vec<StyledNode>, k: nat)
    requires
        k <= v@.len(),
    ensures
        styled_seq_view(v, k).len() == k,
        forall|i: int| 0 <= i < k ==> styled_seq_view(v, k)[i] == styled_view(v[i]),
    decreases k,
{
    if k > 0 {
        lemma_styled_seq_view(v, (k - 1) as nat);
    }
}

impl StyledNode {
    /// The specified value of property `name`, if any.
    pub fn value(&self, name: &str) -> (r: Option<Value>)
        ensures
            match r {
                Some(v) => styled_view(*self).specified_values.contains_key(name@) && v@
                    == styled_view(*self).specified_values[name@],
                None => !styled_view(*self).specified_values.contains_key(name@),
            },
    {
        self.specified_values.value(name)
    }

    /// Try property `primary`, then `fallback`, then return `default`.
    pub fn lookup(&self, primary: &str, fallback: &str, default: &Value) -> (r: Value)
        ensures
            r@ == lookup_v(styled_view(*self).specified_values, primary@, fallback@, default@),
    {
        self.specified_values.lookup(primary, fallback, default)
    }

    /// The resolved `display` of this node.
    pub fn display(&self) -> (r: Display)
        ensures
            r == spec_display(styled_view(*self).specified_values),
    {
        match self.value("display") {
            Some(Value::Keyword(s)) => {
                if str_eq(s.as_str(), "block") {
                    Display::Block
                } else if str_eq(s.as_str(), "none") {
                    Display::DisplayNone
                } else {
                    Display::Inline
                }
            },
            _ => Display::Inline,
        }
    }
}

/// Does the selector match the element? All present components must agree:
/// the tag name, the id, and every class name.
pub open spec fn sel_matches(e: ElementDataV, s: SimpleSelectorV) -> bool {
    &&& (s.tag_name matches Some(t) ==> t == e.tag_name)
    &&& (s.id matches Some(i) ==> spec_id(e) == Some(i))
    &&& (forall|k: int| 0 <= k < s.class.len() ==> spec_classes(e).contains(s.class[k]))
}

/// Does `v` hold a string whose characters are `s`?
fn contains_str(v: &Vec<String>, s: &str) -> (r: bool)
    ensures
        r == v.deep_view().contains(s@),
{
    let mut i: usize = 0;
    while i < v.len()
        invariant
            i <= v@.len(),
            forall|j: int| 0 <= j < i ==> v.deep_view()[j] != s@,
        decreases v@.len() - i,
    {
        if str_eq(v[i].as_str(), s) {
            proof {
                assert(v.deep_view()[i as int] == s@);
            }
            return true;
        }
        i = i + 1;
    }
    false
}

/// Match one simple selector against an element.
pub fn matches_simple_selector(elem: &ElementData, selector: &SimpleSelector) -> (r: bool)
    ensures
        r == sel_matches(elem@, selector@),
{
    if let Some(t) = &selector.tag_name {
        if !str_eq(t.as_str(), elem.tag_name.as_str()) {
            return false;
        }
    }
    if let Some(id) = &selector.id {
        match elem.id() {
            Some(v) => if !str_eq(id.as_str(), v.as_str()) {
                return false;
            },
            None => {
                return false;
            },
        }
    }
    let elem_classes = elem.classes();
    let mut k: usize = 0;
    while k < selector.class.len()
        invariant
            k <= selector.class@.len(),
            elem_classes.deep_view() == spec_classes(elem@),
            selector@.class == selector.class.deep_view(),
            forall|j: int| 0 <= j < k ==> spec_classes(elem@).contains(selector@.class[j]),
            selector@.tag_name matches Some(t) ==> t == elem@.tag_name,
            selector@.id matches Some(i) ==> spec_id(elem@) == Some(i),
        decreases selector.class@.len() - k,
    {
        if !contains_str(&elem_classes, selector.class[k].as_str()) {
            proof {
                assert(selector@.class[k as int] == selector.class@[k as int]@);
            }
            return false;
        }
        k = k + 1;
    }
    true
}

/// Match a selector against an element.
pub fn matches(elem: &ElementData, selector: &Selector) -> (r: bool)
    ensures
        r == sel_matches(elem@, selector@),
{
    match selector {
        Selector::Simple(simple) => matches_simple_selector(elem, simple),
    }
}

/// Matching law: the universal selector (no tag, no id, no classes) matches
/// every element.
pub proof fn lemma_universal_selector_matches(e: ElementDataV)
    ensures
        sel_matches(e, SimpleSelectorV { tag_name: None, id: None, class: Seq::empty() }),
{
}

/// Matching law: a bare class selector matches exactly the elements whose
/// whitespace-split class tokens include the class name.
pub proof fn lemma_class_selector_matches(e: ElementDataV, cls: Seq<char>)
    ensures
        sel_matches(e, SimpleSelectorV { tag_name: None, id: None, class: seq![cls] })
            <==> spec_classes(e).contains(cls),
{
    let s = SimpleSelectorV { tag_name: None, id: None, class: seq![cls] };
    if spec_classes(e).contains(cls) {
        assert forall|k: int| 0 <= k < s.class.len() implies spec_classes(e).contains(
            s.class[k],
        ) by {
            assert(s.class[k] == cls);
        }
    }
    if sel_matches(e, s) {
        assert(spec_classes(e).contains(s.class[0]));
    }
}

/// Matching law: a bare id selector matches exactly the elements whose `id`
/// attribute equals the selector's id.
pub proof fn lemma_id_selector_matches(e: ElementDataV, id: Seq<char>)
    ensures
        sel_matches(e, SimpleSelectorV { tag_name: None, id: Some(id), class: Seq::empty() })
            <==> spec_id(e) == Some(id),
{
}

/// A rule that matched an element, paired with the specificity of the first
/// (most specific) selector that matched.
pub type MatchedRule<'a> = (Specificity, &'a Rule);

/// The first selector in the list that matches the element.
pub open spec fn first_match(e: ElementDataV, sels: Seq<SimpleSelectorV>) -> Option<
    SimpleSelectorV,
>
    decreases sels.len(),
{
    if sels.len() == 0 {
        None
    } else if sel_matches(e, sels[0]) {
        Some(sels[0])
    } else {
        first_match(e, sels.drop_first())
    }
}

/// The rule's effective match against an element: the specificity of the
/// first matching selector, if any selector matches.
pub open spec fn rule_match(e: ElementDataV, r: RuleV) -> Option<(Specificity, RuleV)> {
    match first_match(e, r.selectors) {
        Some(s) => Some((spec_specificity(s), r)),
        None => None,
    }
}

/// The well-formedness a rule is stored with: its selectors sorted by
/// specificity descending, most specific first.
pub open spec fn rule_sorted(r: RuleV) -> bool {
    forall|i: int, j: int|
        0 <= i < j < r.selectors.len() ==> specificity_le(
            spec_specificity(#[trigger] r.selectors[j]),
            spec_specificity(#[trigger] r.selectors[i]),
        )
}

/// In a sorted selector list, the first matching selector is also a most
/// specific matching one, so its specificity can represent the whole rule.
pub proof fn lemma_first_match_most_specific(e: ElementDataV, sels: Seq<SimpleSelectorV>)
    requires
        forall|i: int, j: int|
            0 <= i < j < sels.len() ==> specificity_le(
                spec_specificity(#[trigger] sels[j]),
                spec_specificity(#[trigger] sels[i]),
            ),
        first_match(e, sels) is Some,
    ensures
        first_match(e, sels) matches Some(s) ==> {
            &&& sels.contains(s)
            &&& sel_matches(e, s)
            &&& forall|i: int|
                0 <= i < sels.len() && sel_matches(e, #[trigger] sels[i]) ==> specificity_le(
                    spec_specificity(sels[i]),
                    spec_specificity(s),
                )
        },
    decreases sels.len(),
{
    if sels.len() > 0 {
        if sel_matches(e, sels[0]) {
            assert(sels.contains(sels[0]));
        } else {
            let rest = sels.drop_first();
            lemma_first_match_most_specific(e, rest);
            let s = first_match(e, rest)->Some_0;
            assert(rest.contains(s));
            let w = choose|w: int| 0 <= w < rest.len() && rest[w] == s;
            assert(sels[w + 1] == s);
            assert(sels.contains(s));
            assert forall|i: int|
                0 <= i < sels.len() && sel_matches(e, #[trigger] sels[i]) implies specificity_le(
                spec_specificity(sels[i]),
                spec_specificity(s),
            ) by {
                assert(i >= 1);
                assert(rest[i - 1] == sels[i]);
            }
        }
    }
}

/// If `rule` matches `elem`, the matched rule with its effective
/// specificity; `None` otherwise.
pub fn match_rule<'a>(elem: &ElementData, rule: &'a Rule) -> (r: Option<MatchedRule<'a>>)
    ensures
        match r {
            Some(m) => rule_match(elem@, rule@) == Some((m.0, m.1@)),
            None => rule_match(elem@, rule@) is None,
        },
{
    let mut i: usize = 0;
    proof {
        assert(rule@.selectors.subrange(0, rule@.selectors.len() as int) =~= rule@.selectors);
    }
    while i < rule.selectors.len()
        invariant
            i <= rule.selectors@.len(),
            rule@.selectors.len() == rule.selectors@.len(),
            first_match(elem@, rule@.selectors) == first_match(
                elem@,
                rule@.selectors.subrange(i as int, rule@.selectors.len() as int),
            ),
        decreases rule.selectors@.len() - i,
    {
        proof {
            let suf = rule@.selectors.subrange(i as int, rule@.selectors.len() as int);
            assert(suf[0] == rule@.selectors[i as int]);
            assert(suf.drop_first() =~= rule@.selectors.subrange(
                i as int + 1,
                rule@.selectors.len() as int,
            ));
        }
        let sel = &rule.selectors[i];
        if matches(elem, sel) {
            return Some((sel.specificity(), rule));
        }
        i = i + 1;
    }
    proof {
        assert(rule@.selectors.subrange(
            rule@.selectors.len() as int,
            rule@.selectors.len() as int,
        ) =~= Seq::<SimpleSelectorV>::empty());
    }
    None
}

/// The models of a sequence of matched rules.
pub open spec fn matched_view(v: Seq<(Specificity, &Rule)>) -> Seq<(Specificity, RuleV)> {
    Seq::new(v.len(), |i: int| (v[i].0, v[i].1@))
}

/// Every rule of the stylesheet that matches the element, in stylesheet
/// order, each with its effective specificity.
pub open spec fn spec_matching_rules(e: ElementDataV, rules: Seq<RuleV>) -> Seq<
    (Specificity, RuleV),
>
    decreases rules.len(),
{
    if rules.len() == 0 {
        Seq::empty()
    } else {
        spec_matching_rules(e, rules.drop_last()) + (match rule_match(e, rules.last()) {
            Some(m) => seq![m],
            None => Seq::empty(),
        })
    }
}

/// Collect the rules of the stylesheet that match the element, in
/// stylesheet order.
pub fn matching_rules<'a>(elem: &ElementData, stylesheet: &'a Stylesheet) -> (r: Vec<
    MatchedRule<'a>,
>)
    ensures
        matched_view(r@) == spec_matching_rules(elem@, stylesheet@),
{
    let mut out: Vec<MatchedRule<'a>> = Vec::new();
    let mut i: usize = 0;
    proof {
        assert(stylesheet@.subrange(0, 0) =~= Seq::<RuleV>::empty());
        assert(matched_view(out@) =~= Seq::<(Specificity, RuleV)>::empty());
    }
    while i < stylesheet.rules.len()
        invariant
            i <= stylesheet.rules@.len(),
            stylesheet@.len() == stylesheet.rules@.len(),
            matched_view(out@) == spec_matching_rules(
                elem@,
                stylesheet@.subrange(0, i as int),
            ),
        decreases stylesheet.rules@.len() - i,
    {
        proof {
            let pre = stylesheet@.subrange(0, i as int + 1);
            assert(pre.drop_last() =~= stylesheet@.subrange(0, i as int));
            assert(pre.last() == stylesheet@[i as int]);
            assert(stylesheet@[i as int] == stylesheet.rules@[i as int]@);
        }
        let ghost before = matched_view(out@);
        match match_rule(elem, &stylesheet.rules[i]) {
            Some(m) => {
                out.push(m);
                proof {
                    assert(matched_view(out@) =~= before.push(
                        (m.0, m.1@),
                    ));
                }
            },
            None => {
            },
        }
        proof {
            assert(matched_view(out@) =~= spec_matching_rules(
                elem@,
                stylesheet@.subrange(0, i as int + 1),
            ));
        }
        i = i + 1;
    }
    proof {
        assert(stylesheet@.subrange(0, stylesheet@.len() as int) =~= stylesheet@);
    }
    out
}

/// Insert `x` into the sorted sequence `t`, after every entry whose
/// specificity is less than or equal to `x`'s: the insertion step of a
/// stable insertion sort.
pub open spec fn ins(t: Seq<(Specificity, RuleV)>, x: (Specificity, RuleV)) -> Seq<
    (Specificity, RuleV),
>
    decreases t.len(),
{
    if t.len() == 0 {
        seq![x]
    } else if specificity_le(t.last().0, x.0) {
        t.push(x)
    } else {
        ins(t.drop_last(), x).push(t.last())
    }
}

/// Stable insertion sort by specificity, ascending. Entries with equal
/// specificity keep their relative order, so later stylesheet rules stay
/// later and win the cascade.
pub open spec fn insort(s: Seq<(Specificity, RuleV)>) -> Seq<(Specificity, RuleV)>
    decreases s.len(),
{
    if s.len() == 0 {
        Seq::empty()
    } else {
        ins(insort(s.drop_last()), s.last())
    }
}

/// Inserting at the first position from the right whose entry is `<= x`
/// splices `x` into place.
proof fn lemma_ins_split(t: Seq<(Specificity, RuleV)>, x: (Specificity, RuleV), k: int)
    requires
        0 <= k <= t.len(),
        forall|m: int| k <= m < t.len() ==> !specificity_le(t[m].0, x.0),
        k > 0 ==> specificity_le(t[k - 1].0, x.0),
    ensures
        ins(t, x) =~= t.subrange(0, k).push(x) + t.subrange(k, t.len() as int),
    decreases t.len(),
{
    if k == t.len() {
        if t.len() == 0 {
            assert(t.subrange(0, 0) =~= Seq::<(Specificity, RuleV)>::empty());
        } else {
            assert(specificity_le(t.last().0, x.0));
            assert(t.subrange(0, k) =~= t);
        }
    } else {
        assert(!specificity_le(t.last().0, x.0));
        let dl = t.drop_last();
        lemma_ins_split(dl, x, k);
        assert(dl.subrange(0, k) =~= t.subrange(0, k));
        assert(dl.subrange(k, dl.len() as int).push(t.last()) =~= t.subrange(k, t.len() as int));
    }
}

/// Sort matched rules by specificity ascending, stably: ties keep their
/// stylesheet order.
pub fn sort_by_specificity<'a>(v: Vec<MatchedRule<'a>>) -> (r: Vec<MatchedRule<'a>>)
    ensures
        matched_view(r@) == insort(matched_view(v@)),
{
    let mut out: Vec<MatchedRule<'a>> = Vec::new();
    let mut j: usize = 0;
    proof {
        assert(matched_view(v@).subrange(0, 0) =~= Seq::<(Specificity, RuleV)>::empty());
        assert(matched_view(out@) =~= Seq::<(Specificity, RuleV)>::empty());
    }
    while j < v.len()
        invariant
            j <= v@.len(),
            matched_view(out@) == insort(matched_view(v@).subrange(0, j as int)),
        decreases v@.len() - j,
    {
        let x = v[j];
        let mut k: usize = out.len();
        while k > 0 && !crate::css::specificity_leq(out[k - 1].0, x.0)
            invariant
                k <= out@.len(),
                forall|m: int|
                    k <= m < out@.len() ==> !specificity_le(matched_view(out@)[m].0, x.0),
            decreases k,
        {
            k = k - 1;
        }
        let ghost before = matched_view(out@);
        out.insert(k, x);
        proof {
            lemma_ins_split(before, (x.0, x.1@), k as int);
            assert(matched_view(out@) =~= before.subrange(0, k as int).push((x.0, x.1@))
                + before.subrange(k as int, before.len() as int));
            let pre = matched_view(v@).subrange(0, j as int + 1);
            assert(pre.drop_last() =~= matched_view(v@).subrange(0, j as int));
            assert(pre.last() == (x.0, x.1@));
        }
        j = j + 1;
    }
    proof {
        assert(matched_view(v@).subrange(0, v@.len() as int) =~= matched_view(v@));
    }
    out
}

/// Apply declarations to a property map in order, each overwriting any
/// earlier binding of its name.
pub open spec fn apply_decls(m: Map<Seq<char>, ValueV>, ds: Seq<DeclarationV>) -> Map<
    Seq<char>,
    ValueV,
>
    decreases ds.len(),
{
    if ds.len() == 0 {
        m
    } else {
        apply_decls(m, ds.drop_last()).insert(ds.last().name, ds.last().value)
    }
}

/// Apply the declarations of each matched rule, in order.
pub open spec fn apply_rules(m: Map<Seq<char>, ValueV>, ms: Seq<(Specificity, RuleV)>) -> Map<
    Seq<char>,
    ValueV,
>
    decreases ms.len(),
{
    if ms.len() == 0 {
        m
    } else {
        apply_decls(apply_rules(m, ms.drop_last()), ms.last().1.declarations)
    }
}

/// The element's specified values: the declarations of its matching rules,
/// applied from lowest to highest specificity, stylesheet order breaking
/// ties, so the most specific (or latest) rule wins each property.
pub open spec fn spec_specified_values(e: ElementDataV, rules: Seq<RuleV>) -> Map<
    Seq<char>,
    ValueV,
> {
    apply_rules(Map::empty(), insort(spec_matching_rules(e, rules)))
}

/// Resolve the cascade for one element.
pub fn specified_values(elem: &ElementData, stylesheet: &Stylesheet) -> (r: PropertyMap)
    ensures
        r@ == spec_specified_values(elem@, stylesheet@),
{
    let rules = matching_rules(elem, stylesheet);
    let sorted = sort_by_specificity(rules);
    let ghost sv = matched_view(sorted@);
    let mut values = PropertyMap::new();
    let mut i: usize = 0;
    proof {
        assert(sv.subrange(0, 0) =~= Seq::<(Specificity, RuleV)>::empty());
    }
    while i < sorted.len()
        invariant
            i <= sorted@.len(),
            sv == matched_view(sorted@),
            sv == insort(spec_matching_rules(elem@, stylesheet@)),
            values@ == apply_rules(Map::empty(), sv.subrange(0, i as int)),
        decreases sorted@.len() - i,
    {
        let rule = sorted[i].1;
        let ghost mid = apply_rules(Map::empty(), sv.subrange(0, i as int));
        let mut j: usize = 0;
        proof {
            assert(rule@.declarations.subrange(0, 0) =~= Seq::<DeclarationV>::empty());
        }
        while j < rule.declarations.len()
            invariant
                j <= rule.declarations@.len(),
                rule@.declarations.len() == rule.declarations@.len(),
                values@ == apply_decls(mid, rule@.declarations.subrange(0, j as int)),
            decreases rule.declarations@.len() - j,
        {
            proof {
                let pre = rule@.declarations.subrange(0, j as int + 1);
                assert(pre.drop_last() =~= rule@.declarations.subrange(0, j as int));
                assert(pre.last() == rule.declarations@[j as int]@);
            }
            let d = &rule.declarations[j];
            values.insert(d.name.clone(), d.value.dup());
            j = j + 1;
        }
        proof {
            assert(rule@.declarations.subrange(0, rule@.declarations.len() as int)
                =~= rule@.declarations);
            let pre = sv.subrange(0, i as int + 1);
            assert(pre.drop_last() =~= sv.subrange(0, i as int));
            assert(pre.last() == sv[i as int]);
            assert(sv[i as int].1 == rule@);
        }
        i = i + 1;
    }
    proof {
        assert(sv.subrange(0, sv.len() as int) =~= sv);
    }
    values
}

/// The value of the last declaration of property `p` in `ds`, if any.
pub open spec fn decls_value(ds: Seq<DeclarationV>, p: Seq<char>) -> Option<ValueV>
    decreases ds.len(),
{
    if ds.len() == 0 {
        None
    } else if ds.last().name == p {
        Some(ds.last().value)
    } else {
        decls_value(ds.drop_last(), p)
    }
}

/// Applying declarations binds `p` to its last declared value, and leaves it
/// untouched when `ds` never declares it.
pub proof fn lemma_apply_decls_lookup(m: Map<Seq<char>, ValueV>, ds: Seq<DeclarationV>, p: Seq<char>)
    ensures
        match decls_value(ds, p) {
            Some(v) => apply_decls(m, ds).contains_key(p) && apply_decls(m, ds)[p] == v,
            None => (apply_decls(m, ds).contains_key(p) <==> m.contains_key(p)) && (m.contains_key(
                p,
            ) ==> apply_decls(m, ds)[p] == m[p]),
        },
    decreases ds.len(),
{
    if ds.len() != 0 {
        lemma_apply_decls_lookup(m, ds.drop_last(), p);
    }
}

/// The value the ordered rule list assigns to property `p`: the last
/// declaration of `p` in the last rule that declares it at all.
pub open spec fn rules_value(ms: Seq<(Specificity, RuleV)>, p: Seq<char>) -> Option<ValueV>
    decreases ms.len(),
{
    if ms.len() == 0 {
        None
    } else {
        match decls_value(ms.last().1.declarations, p) {
            Some(v) => Some(v),
            None => rules_value(ms.drop_last(), p),
        }
    }
}

/// Applying rules in order binds each property to the value of the last
/// rule declaring it, later rules overriding earlier ones value-by-value.
pub proof fn lemma_apply_rules_lookup(
    m: Map<Seq<char>, ValueV>,
    ms: Seq<(Specificity, RuleV)>,
    p: Seq<char>,
)
    ensures
        match rules_value(ms, p) {
            Some(v) => apply_rules(m, ms).contains_key(p) && apply_rules(m, ms)[p] == v,
            None => (apply_rules(m, ms).contains_key(p) <==> m.contains_key(p)) && (
            m.contains_key(p) ==> apply_rules(m, ms)[p] == m[p]),
        },
    decreases ms.len(),
{
    if ms.len() != 0 {
        lemma_apply_rules_lookup(m, ms.drop_last(), p);
        lemma_apply_decls_lookup(
            apply_rules(m, ms.drop_last()),
            ms.last().1.declarations,
            p,
        );
    }
}

/// Cascade determinism law: in a stylesheet of two rules that both match the
/// element with the same effective specificity and both declare property
/// `p`, the later rule's (last) declaration of `p` wins.
pub proof fn lemma_cascade_later_wins(
    e: ElementDataV,
    r1: RuleV,
    r2: RuleV,
    s: Specificity,
    p: Seq<char>,
)
    requires
        rule_match(e, r1) == Some((s, r1)),
        rule_match(e, r2) == Some((s, r2)),
        decls_value(r2.declarations, p) is Some,
    ensures
        spec_specified_values(e, seq![r1, r2]).contains_key(p),
        decls_value(r2.declarations, p) matches Some(v) ==> spec_specified_values(
            e,
            seq![r1, r2],
        )[p] == v,
{
    let rules = seq![r1, r2];
    let m1 = (s, r1);
    let m2 = (s, r2);
    let none_match: Seq<RuleV> = Seq::empty();
    assert(rules.drop_last() =~= seq![r1]);
    assert(seq![r1].drop_last() =~= none_match);
    assert(spec_matching_rules(e, none_match) == Seq::<(Specificity, RuleV)>::empty());
    assert(seq![r1].last() == r1);
    assert(spec_matching_rules(e, seq![r1]) == spec_matching_rules(e, none_match) + seq![m1]);
    assert(spec_matching_rules(e, seq![r1]) =~= seq![m1]);
    assert(rules.last() == r2);
    assert(spec_matching_rules(e, rules) == spec_matching_rules(e, seq![r1]) + seq![m2]);
    assert(spec_matching_rules(e, rules) =~= seq![m1, m2]);
    let none_sorted: Seq<(Specificity, RuleV)> = Seq::empty();
    assert(seq![m1, m2].drop_last() =~= seq![m1]);
    assert(seq![m1].drop_last() =~= none_sorted);
    assert(insort(none_sorted) == none_sorted);
    assert(seq![m1].last() == m1);
    assert(insort(seq![m1]) == ins(none_sorted, m1));
    assert(ins(none_sorted, m1) =~= seq![m1]);
    assert(specificity_le(s, s));
    assert(seq![m1, m2].last() == m2);
    assert(insort(seq![m1, m2]) == ins(seq![m1], m2));
    assert(ins(seq![m1], m2) == seq![m1].push(m2));
    assert(seq![m1].push(m2) =~= seq![m1, m2]);
    let empty_map = Map::<Seq<char>, ValueV>::empty();
    let base = apply_decls(empty_map, r1.declarations);
    assert(apply_rules(empty_map, none_sorted) == empty_map);
    assert(apply_rules(empty_map, seq![m1]) == base);
    assert(apply_rules(empty_map, seq![m1, m2]) == apply_decls(base, r2.declarations));
    lemma_apply_decls_lookup(base, r2.declarations, p);
}

/// The style tree of a node: its cascade result (elements) or an empty map
/// (text), and the style trees of its children, in order.
pub open spec fn spec_style_tree(n: NodeV, rules: Seq<RuleV>) -> StyledNodeV
    decreases n, 0nat,
{
    StyledNodeV {
        specified_values: match n.node_type {
            NodeTypeV::Element(e) => spec_specified_values(e, rules),
            NodeTypeV::Text(_) => Map::empty(),
        },
        children: spec_style_children(n.children, rules, n.children.len()),
    }
}

/// The style trees of the first `k` nodes of `cs`.
pub open spec fn spec_style_children(cs: Seq<NodeV>, rules: Seq<RuleV>, k: nat) -> Seq<StyledNodeV>
    decreases cs, k,
{
    if k == 0 || k > cs.len() {
        Seq::empty()
    } else {
        spec_style_children(cs, rules, (k - 1) as nat).push(
            spec_style_tree(cs[k - 1], rules),
        )
    }
}

/// `spec_style_children` is the element-wise style tree of the prefix.
pub proof fn lemma_spec_style_children(cs: Seq<NodeV>, rules: Seq<RuleV>, k: nat)
    requires
        k <= cs.len(),
    ensures
        spec_style_children(cs, rules, k).len() == k,
        forall|i: int|
            0 <= i < k ==> spec_style_children(cs, rules, k)[i] == spec_style_tree(cs[i], rules),
    decreases k,
{
    if k > 0 {
        lemma_spec_style_children(cs, rules, (k - 1) as nat);
    }
}

/// Apply a stylesheet to a whole node tree, producing the style tree: one
/// styled node per input node, in the same shape.
pub fn style_tree(root: &Node, stylesheet: &Stylesheet) -> (r: StyledNode)
    ensures
        styled_view(r) == spec_style_tree(node_view(*root), stylesheet@),
    decreases *root,
{
    let specified = match &root.node_type {
        NodeType::Element(elem) => specified_values(elem, stylesheet),
        NodeType::Text(_) => PropertyMap::new(),
    };
    let mut children: Vec<StyledNode> = Vec::new();
    let mut i: usize = 0;
    while i < root.children.len()
        invariant
            i <= root.children@.len(),
            children@.len() == i,
            forall|j: int|
                0 <= j < i ==> styled_view(children@[j]) == spec_style_tree(
                    node_view(root.children@[j]),
                    stylesheet@,
                ),
        decreases root.children@.len() - i,
    {
        let c = style_tree(&root.children[i], stylesheet);
        children.push(c);
        i = i + 1;
    }
    let r = StyledNode { specified_values: specified, children };
    proof {
        let n = node_view(*root);
        let len = root.children@.len();
        crate::dom::lemma_nodes_view(root.children, len);
        lemma_styled_seq_view(r.children, len);
        lemma_spec_style_children(n.children, stylesheet@, len);
        assert(styled_view(r).children =~= spec_style_tree(n, stylesheet@).children);
    }
    r
}

} // verus!
