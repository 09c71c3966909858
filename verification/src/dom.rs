//! Markup element tree: nodes are either text or elements; an element has a
//! tag name and an attribute map with unique keys (later insertions of the
//! same key overwrite earlier ones).

use vstd::prelude::*;
use crate::strutil::{split_ws, split_ws_v, str_eq};

verus! {

/// One element attribute: `name="value"`.
pub struct Attribute {
    pub name: String,
    pub value: String,
}

/// A flat string-to-string attribute map. Lookups return the value of the
/// latest insertion of a key, so the map behaves as if keys were unique.
pub struct AttrMap {
    pub attributes: Vec<Attribute>,
}

/// The map denoted by a sequence of attribute insertions: later entries win.
pub open spec fn attrs_map(s: Seq<Attribute>) -> Map<Seq<char>, Seq<char>>
    decreases s.len(),
{
    if s.len() == 0 {
        Map::empty()
    } else {
        attrs_map(s.drop_last()).insert(s.last().name@, s.last().value@)
    }
}

impl View for AttrMap {
    type V = Map<Seq<char>, Seq<char>>;

    open spec fn view(&self) -> Map<Seq<char>, Seq<char>> {
        attrs_map(self.attributes@)
    }
}

impl AttrMap {
    /// An empty attribute map.
    pub fn new() -> (r: AttrMap)
        ensures
            r@ == Map::<Seq<char>, Seq<char>>::empty(),
    {
        AttrMap { attributes: Vec::new() }
    }

    /// Bind `name` to `value`, replacing any earlier binding of `name`.
    pub fn insert(&mut self, name: String, value: String)
        ensures
            final(self)@ == old(self)@.insert(name@, value@),
    {
        let ghost before = self.attributes@;
        self.attributes.push(Attribute { name, value });
        proof {
            assert(self.attributes@.drop_last() =~= before);
        }
    }

    /// Look up `name`, returning the latest value bound to it.
    pub fn get(&self, name: &str) -> (r: Option<&String>)
        ensures
            match r {
                Some(v) => self@.contains_key(name@) && v@ == self@[name@],
                None => !self@.contains_key(name@),
            },
    {
        let mut i: usize = self.attributes.len();
        proof {
            assert(self.attributes@.subrange(0, i as int) =~= self.attributes@);
        }
        while i > 0
            invariant
                i <= self.attributes@.len(),
                self@.contains_key(name@) <==> attrs_map(
                    self.attributes@.subrange(0, i as int),
                ).contains_key(name@),
                self@.contains_key(name@) ==> self@[name@] == attrs_map(
                    self.attributes@.subrange(0, i as int),
                )[name@],
            decreases i,
        {
            i = i - 1;
            let a = &self.attributes[i];
            proof {
                let pre = self.attributes@.subrange(0, i as int + 1);
                assert(pre.drop_last() =~= self.attributes@.subrange(0, i as int));
                assert(pre.last() == self.attributes@[i as int]);
            }
            if str_eq(a.name.as_str(), name) {
                return Some(&a.value);
            }
        }
        proof {
            assert(self.attributes@.subrange(0, 0) =~= Seq::<Attribute>::empty());
        }
        None
    }
}

/// The data of an element node: tag name and attributes.
pub struct ElementData {
    pub tag_name: String,
    pub attributes: AttrMap,
}

/// Mathematical model of an element.
pub ghost struct ElementDataV {
    pub tag_name: Seq<char>,
    pub attributes: Map<Seq<char>, Seq<char>>,
}

impl View for ElementData {
    type V = ElementDataV;

    open spec fn view(&self) -> ElementDataV {
        ElementDataV { tag_name: self.tag_name@, attributes: self.attributes@ }
    }
}

/// The element's id: the value of its `id` attribute, if any.
pub open spec fn spec_id(e: ElementDataV) -> Option<Seq<char>> {
    if e.attributes.contains_key("id"@) {
        Some(e.attributes["id"@])
    } else {
        None
    }
}

/// The element's class tokens: its `class` attribute split at whitespace
/// (space, tab, line feed, carriage return), or nothing when the attribute
/// is absent. Whitespace runs produce no empty tokens; repeated tokens are
/// kept in order, but the set they denote is what matching tests, so
/// duplicates are harmless.
pub open spec fn spec_classes(e: ElementDataV) -> Seq<Seq<char>> {
    if e.attributes.contains_key("class"@) {
        split_ws_v(e.attributes["class"@])
    } else {
        Seq::empty()
    }
}

impl ElementData {
    /// The value of the `id` attribute, if present.
    pub fn id(&self) -> (r: Option<&String>)
        ensures
            match r {
                Some(v) => spec_id(self@) == Some(v@),
                None => spec_id(self@) is None,
            },
    {
        self.attributes.get("id")
    }

    /// The whitespace-split tokens of the `class` attribute, in order.
    pub fn classes(&self) -> (r: Vec<String>)
        ensures
            r.deep_view() == spec_classes(self@),
    {
        match self.attributes.get("class") {
            Some(class_list) => split_ws(class_list.as_str()),
            None => {
                let r: Vec<String> = Vec::new();
                proof {
                    assert(r.deep_view() =~= Seq::<Seq<char>>::empty());
                }
                r
            },
        }
    }
}

/// A node is either raw text or an element; an element owns its children.
pub enum NodeType {
    Text(String),
    Element(ElementData),
}

/// One node of the input tree.
pub struct Node {
    pub children: Vec<Node>,
    pub node_type: NodeType,
}

/// Mathematical model of a node's own data.
pub ghost enum NodeTypeV {
    Text(Seq<char>),
    Element(ElementDataV),
}

/// Mathematical model of a node tree.
pub ghost struct NodeV {
    pub children: Seq<NodeV>,
    pub node_type: NodeTypeV,
}

/// The model of a node, children included.
pub open spec fn node_view(n: Node) -> NodeV
    decreases n, 0nat,
{
    NodeV {
        children: nodes_view(n.children, n.children@.len()),
        node_type: match n.node_type {
            NodeType::Text(s) => NodeTypeV::Text(s@),
            NodeType::Element(e) => NodeTypeV::Element(e@),
        },
    }
}

/// The models of the first `k` nodes of `v`.
pub open spec fn nodes_view(v: Vec<Node>, k: nat) -> Seq<NodeV>
    decreases v, k,
{
    if k == 0 || k > v@.len() {
        Seq::empty()
    } else {
        nodes_view(v, (k - 1) as nat).push(node_view(v[k - 1]))
    }
}

/// `nodes_view` is the element-wise model of the vector's prefix.
pub proof fn lemma_nodes_view(v: Vec<Node>, k: nat)
    requires
        k <= v@.len(),
    ensures
        nodes_view(v, k).len() == k,
        forall|i: int| 0 <= i < k ==> nodes_view(v, k)[i] == node_view(v[i]),
    decreases k,
{
    if k > 0 {
        lemma_nodes_view(v, (k - 1) as nat);
    }
}

/// Make a text node.
pub fn text(data: String) -> (r: Node)
    ensures
        node_view(r) == (NodeV {
            children: Seq::<NodeV>::empty(),
            node_type: NodeTypeV::Text(data@),
        }),
{
    let r = Node { children: Vec::new(), node_type: NodeType::Text(data) };
    proof {
        assert(node_view(r).children =~= Seq::<NodeV>::empty());
    }
    r
}

/// Make an element node.
pub fn element(name: String, attrs: AttrMap, children: Vec<Node>) -> (r: Node)
    ensures
        node_view(r).node_type == NodeTypeV::Element(
            ElementDataV { tag_name: name@, attributes: attrs@ },
        ),
        node_view(r).children.len() == children@.len(),
        forall|i: int|
            0 <= i < children@.len() ==> node_view(r).children[i] == node_view(children@[i]),
{
    let r = Node {
        children,
        node_type: NodeType::Element(ElementData { tag_name: name, attributes: attrs }),
    };
    proof {
        lemma_nodes_view(r.children, r.children@.len());
    }
    r
}

} // verus!
