//! Block layout: build a tree of layout boxes from the style tree (inserting
//! anonymous boxes so no box mixes block and inline children), then solve the
//! CSS block width constraint system top-down and accumulate heights
//! bottom-up, stacking block children vertically.
//!
//! All geometry is in whole pixels (`i64`).

use vstd::prelude::*;
use crate::css::{is_auto_v, to_px_v, Unit, Value, ValueV};
use crate::style::{
    lookup_v, props_map, spec_display, styled_seq_view, styled_view, Display, PropertyMap,
    StyledNode, StyledNodeV,
};
use crate::css::DeclarationV;

verus! {

/// A rectangle: position of its upper-left corner and its extent.
#[derive(Clone, Copy, PartialEq, Eq, Structural, Debug)]
pub struct Rect {
    pub x: i64,
    pub y: i64,
    pub width: i64,
    pub height: i64,
}

/// Sizes of the four edges of one box layer.
#[derive(Clone, Copy, PartialEq, Eq, Structural, Debug)]
pub struct EdgeSizes {
    pub left: i64,
    pub right: i64,
    pub top: i64,
    pub bottom: i64,
}

/// The box model: a content rectangle surrounded by padding, border and
/// margin edges.
#[derive(Clone, Copy, PartialEq, Eq, Structural, Debug)]
pub struct Dimensions {
    pub content: Rect,
    pub padding: EdgeSizes,
    pub border: EdgeSizes,
    pub margin: EdgeSizes,
}

/// Mathematical model of a rectangle.
pub ghost struct RectV {
    pub x: int,
    pub y: int,
    pub width: int,
    pub height: int,
}

/// Mathematical model of edge sizes.
pub ghost struct EdgeSizesV {
    pub left: int,
    pub right: int,
    pub top: int,
    pub bottom: int,
}

/// Mathematical model of box dimensions.
pub ghost struct DimensionsV {
    pub content: RectV,
    pub padding: EdgeSizesV,
    pub border: EdgeSizesV,
    pub margin: EdgeSizesV,
}

impl View for Rect {
    type V = RectV;

    open spec fn view(&self) -> RectV {
        RectV { x: self.x as int, y: self.y as int, width: self.width as int, height: self.height as int }
    }
}

impl View for EdgeSizes {
    type V = EdgeSizesV;

    open spec fn view(&self) -> EdgeSizesV {
        EdgeSizesV {
            left: self.left as int,
            right: self.right as int,
            top: self.top as int,
            bottom: self.bottom as int,
        }
    }
}

impl View for Dimensions {
    type V = DimensionsV;

    open spec fn view(&self) -> DimensionsV {
        DimensionsV {
            content: self.content@,
            padding: self.padding@,
            border: self.border@,
            margin: self.margin@,
        }
    }
}

/// The all-zero rectangle.
pub open spec fn rect_zero_v() -> RectV {
    RectV { x: 0, y: 0, width: 0, height: 0 }
}

/// All-zero edges.
pub open spec fn edges_zero_v() -> EdgeSizesV {
    EdgeSizesV { left: 0, right: 0, top: 0, bottom: 0 }
}

/// All-zero dimensions.
pub open spec fn dims_zero_v() -> DimensionsV {
    DimensionsV {
        content: rect_zero_v(),
        padding: edges_zero_v(),
        border: edges_zero_v(),
        margin: edges_zero_v(),
    }
}

impl Default for Rect {
    /// The all-zero rectangle.
    fn default() -> (r: Rect)
        ensures
            r@ == rect_zero_v(),
    {
        Rect { x: 0, y: 0, width: 0, height: 0 }
    }
}

impl Default for EdgeSizes {
    /// All-zero edges.
    fn default() -> (r: EdgeSizes)
        ensures
            r@ == edges_zero_v(),
    {
        EdgeSizes { left: 0, right: 0, top: 0, bottom: 0 }
    }
}

impl Default for Dimensions {
    /// All-zero dimensions.
    fn default() -> (r: Dimensions)
        ensures
            r@ == dims_zero_v(),
    {
        Dimensions {
            content: Rect::default(),
            padding: EdgeSizes::default(),
            border: EdgeSizes::default(),
            margin: EdgeSizes::default(),
        }
    }
}

/// Grow a rectangle outward by the given edges: the left and top edges shift
/// the corner, and both horizontal (vertical) edges widen (heighten) it.
pub open spec fn expand_v(r: RectV, e: EdgeSizesV) -> RectV {
    RectV {
        x: r.x - e.left,
        y: r.y - e.top,
        width: r.width + e.left + e.right,
        height: r.height + e.top + e.bottom,
    }
}

/// Does `x` fit in an `i64`?
pub open spec fn in_i64(x: int) -> bool {
    i64::MIN <= x <= i64::MAX
}

/// Every intermediate of the expansion arithmetic fits in an `i64`.
pub open spec fn expand_fits(r: RectV, e: EdgeSizesV) -> bool {
    &&& in_i64(r.x - e.left)
    &&& in_i64(r.y - e.top)
    &&& in_i64(r.width + e.left)
    &&& in_i64(r.width + e.left + e.right)
    &&& in_i64(r.height + e.top)
    &&& in_i64(r.height + e.top + e.bottom)
}

/// The content area plus its padding.
pub open spec fn padding_box_v(d: DimensionsV) -> RectV {
    expand_v(d.content, d.padding)
}

/// The content area plus padding and borders.
pub open spec fn border_box_v(d: DimensionsV) -> RectV {
    expand_v(padding_box_v(d), d.border)
}

/// The content area plus padding, borders and margins.
pub open spec fn margin_box_v(d: DimensionsV) -> RectV {
    expand_v(border_box_v(d), d.margin)
}

/// The expansion arithmetic of `padding_box` fits in `i64`.
pub open spec fn padding_box_fits(d: DimensionsV) -> bool {
    expand_fits(d.content, d.padding)
}

/// The expansion arithmetic of `border_box` fits in `i64`.
pub open spec fn border_box_fits(d: DimensionsV) -> bool {
    padding_box_fits(d) && expand_fits(padding_box_v(d), d.border)
}

/// The expansion arithmetic of `margin_box` fits in `i64`.
pub open spec fn margin_box_fits(d: DimensionsV) -> bool {
    border_box_fits(d) && expand_fits(border_box_v(d), d.margin)
}

impl Rect {
    /// This rectangle grown outward by `edge`.
    pub fn expanded_by(self, edge: EdgeSizes) -> (r: Rect)
        requires
            expand_fits(self@, edge@),
        ensures
            r@ == expand_v(self@, edge@),
    {
        Rect {
            x: self.x - edge.left,
            y: self.y - edge.top,
            width: self.width + edge.left + edge.right,
            height: self.height + edge.top + edge.bottom,
        }
    }
}

impl Dimensions {
    /// The area covered by the content area plus its padding.
    pub fn padding_box(self) -> (r: Rect)
        requires
            padding_box_fits(self@),
        ensures
            r@ == padding_box_v(self@),
    {
        self.content.expanded_by(self.padding)
    }

    /// The area covered by the content area plus padding and borders.
    pub fn border_box(self) -> (r: Rect)
        requires
            border_box_fits(self@),
        ensures
            r@ == border_box_v(self@),
    {
        self.padding_box().expanded_by(self.border)
    }

    /// The area covered by the content area plus padding, borders and
    /// margins.
    pub fn margin_box(self) -> (r: Rect)
        requires
            margin_box_fits(self@),
        ensures
            r@ == margin_box_v(self@),
    {
        self.border_box().expanded_by(self.margin)
    }
}

/// Edge-wise negation.
pub open spec fn edges_neg_v(e: EdgeSizesV) -> EdgeSizesV {
    EdgeSizesV { left: -e.left, right: -e.right, top: -e.top, bottom: -e.bottom }
}

/// Derived-rectangle law: with all-zero edges, the margin box (and hence the
/// border and padding boxes) is the content rectangle itself.
pub proof fn lemma_margin_box_zero_edges(d: DimensionsV)
    requires
        d.padding == edges_zero_v(),
        d.border == edges_zero_v(),
        d.margin == edges_zero_v(),
    ensures
        margin_box_v(d) == d.content,
        border_box_v(d) == d.content,
        padding_box_v(d) == d.content,
{
}

/// Derived-rectangle law: expanding a rectangle by some edges and then by
/// their negation returns the original rectangle.
pub proof fn lemma_expand_then_shrink(r: RectV, e: EdgeSizesV)
    ensures
        expand_v(expand_v(r, e), edges_neg_v(e)) == r,
{
}

/// What kind of box a layout box is. Block and inline boxes carry the
/// property map of the styled node they came from (the map itself, not a
/// reference: the originating styled node is recovered positionally, since
/// boxes appear in their styled nodes' order); anonymous blocks are
/// synthesised and carry no style.
pub enum BoxType {
    BlockNode(PropertyMap),
    InlineNode(PropertyMap),
    AnonymousBlock,
}

/// One box of the layout tree.
pub struct LayoutBox {
    pub dimensions: Dimensions,
    pub box_type: BoxType,
    pub children: Vec<LayoutBox>,
}

/// Mathematical model of a box kind.
pub ghost enum BoxTypeV {
    BlockNode(Map<Seq<char>, ValueV>),
    InlineNode(Map<Seq<char>, ValueV>),
    AnonymousBlock,
}

/// Mathematical model of a layout box.
pub ghost struct LayoutBoxV {
    pub dimensions: DimensionsV,
    pub box_type: BoxTypeV,
    pub children: Seq<LayoutBoxV>,
}

impl View for BoxType {
    type V = BoxTypeV;

    open spec fn view(&self) -> BoxTypeV {
        match self {
            BoxType::BlockNode(m) => BoxTypeV::BlockNode(m@),
            BoxType::InlineNode(m) => BoxTypeV::InlineNode(m@),
            BoxType::AnonymousBlock => BoxTypeV::AnonymousBlock,
        }
    }
}

/// The model of a layout box, children included.
pub open spec fn box_view(b: LayoutBox) -> LayoutBoxV
    decreases b, 0nat,
{
    LayoutBoxV {
        dimensions: b.dimensions@,
        box_type: b.box_type@,
        children: boxes_view(b.children, b.children@.len()),
    }
}

/// The models of the first `k` boxes of `v`.
pub open spec fn boxes_view(v: Vec<LayoutBox>, k: nat) -> Seq<LayoutBoxV>
    decreases v, k,
{
    if k == 0 || k > v@.len() {
        Seq::empty()
    } else {
        boxes_view(v, (k - 1) as nat).push(box_view(v[k - 1]))
    }
}

/// `boxes_view` is the element-wise model of the vector's prefix.
pub proof fn lemma_boxes_view(v: Vec<LayoutBox>, k: nat)
    requires
        k <= v@.len(),
    ensures
        boxes_view(v, k).len() == k,
        forall|i: int| 0 <= i < k ==> boxes_view(v, k)[i] == box_view(v[i]),
    decreases k,
{
    if k > 0 {
        lemma_boxes_view(v, (k - 1) as nat);
    }
}

/// The property map a block or inline box carries; anonymous boxes carry
/// none.
pub open spec fn box_props(b: LayoutBoxV) -> Map<Seq<char>, ValueV> {
    match b.box_type {
        BoxTypeV::BlockNode(m) => m,
        BoxTypeV::InlineNode(m) => m,
        BoxTypeV::AnonymousBlock => Map::empty(),
    }
}

impl LayoutBox {
    /// A fresh box of the given kind: zero dimensions, no children.
    pub fn new(box_type: BoxType) -> (r: LayoutBox)
        ensures
            box_view(r) == (LayoutBoxV {
                dimensions: dims_zero_v(),
                box_type: box_type@,
                children: Seq::<LayoutBoxV>::empty(),
            }),
    {
        let r = LayoutBox { box_type, dimensions: Dimensions::default(), children: Vec::new() };
        proof {
            assert(box_view(r).children =~= Seq::<LayoutBoxV>::empty());
        }
        r
    }

    /// The style of the styled node this box came from. Anonymous blocks
    /// have none and may not be asked.
    pub fn get_style_node(&self) -> (r: &PropertyMap)
        requires
            !(box_view(*self).box_type is AnonymousBlock),
        ensures
            r@ == box_props(box_view(*self)),
    {
        match &self.box_type {
            BoxType::BlockNode(m) => m,
            BoxType::InlineNode(m) => m,
            BoxType::AnonymousBlock => vstd::pervasive::unreached(),
        }
    }
}

/// Construction of the layout tree failed.
#[derive(Clone, Copy, PartialEq, Eq, Structural, Debug)]
pub enum LayoutError {
    /// The root style node resolved to `display: none`: the document has no
    /// renderable root.
    RootDisplayNone,
}

/// Append an inline child under a box of kind `parent`: inline and anonymous
/// parents take it directly; a block parent puts it into a trailing
/// anonymous block, reusing the last child if it already is one.
pub open spec fn add_inline_child(
    acc: Seq<LayoutBoxV>,
    child: LayoutBoxV,
    parent: BoxTypeV,
) -> Seq<LayoutBoxV> {
    if parent is BlockNode {
        if acc.len() > 0 && acc.last().box_type is AnonymousBlock {
            acc.update(
                acc.len() - 1,
                LayoutBoxV { children: acc.last().children.push(child), ..acc.last() },
            )
        } else {
            acc.push(
                LayoutBoxV {
                    dimensions: dims_zero_v(),
                    box_type: BoxTypeV::AnonymousBlock,
                    children: seq![child],
                },
            )
        }
    } else {
        acc.push(child)
    }
}

/// The layout box of a styled node: block or inline by its `display` value,
/// holding its property map, with the boxes of its children arranged by
/// `spec_build_children`. Only defined usefully when `display` is not
/// `none`; the builder never calls it otherwise.
pub open spec fn spec_build(sn: StyledNodeV) -> LayoutBoxV
    decreases sn, 0nat,
{
    let kind = if spec_display(sn.specified_values) == Display::Block {
        BoxTypeV::BlockNode(sn.specified_values)
    } else {
        BoxTypeV::InlineNode(sn.specified_values)
    };
    LayoutBoxV {
        dimensions: dims_zero_v(),
        box_type: kind,
        children: spec_build_children(sn.children, sn.children.len(), kind),
    }
}

/// The child boxes a box of kind `parent` gets from the first `k` styled
/// children: block children append directly, `display: none` children are
/// dropped, and inline children go through `add_inline_child`.
pub open spec fn spec_build_children(
    cs: Seq<StyledNodeV>,
    k: nat,
    parent: BoxTypeV,
) -> Seq<LayoutBoxV>
    decreases cs, k,
{
    if k == 0 || k > cs.len() {
        Seq::empty()
    } else {
        let acc = spec_build_children(cs, (k - 1) as nat, parent);
        match spec_display(cs[k - 1].specified_values) {
            Display::Block => acc.push(spec_build(cs[k - 1])),
            Display::DisplayNone => acc,
            Display::Inline => add_inline_child(acc, spec_build(cs[k - 1]), parent),
        }
    }
}

impl LayoutBox {
    /// Append an inline child: directly for inline and anonymous boxes; for
    /// a block box, into a trailing anonymous block (reusing the last child
    /// if it already is one).
    fn push_inline_child(&mut self, child: LayoutBox)
        ensures
            final(self).box_type == old(self).box_type,
            final(self).dimensions == old(self).dimensions,
            boxes_view(final(self).children, final(self).children@.len()) == add_inline_child(
                boxes_view(old(self).children, old(self).children@.len()),
                box_view(child),
                old(self).box_type@,
            ),
    {
        let ghost acc = boxes_view(self.children, self.children@.len());
        proof {
            lemma_boxes_view(self.children, self.children@.len());
        }
        let is_block = match &self.box_type {
            BoxType::BlockNode(_) => true,
            _ => false,
        };
        if !is_block {
            self.children.push(child);
            proof {
                lemma_boxes_view(self.children, self.children@.len());
                assert(boxes_view(self.children, self.children@.len()) =~= acc.push(
                    box_view(child),
                ));
            }
            return ;
        }
        let n = self.children.len();
        let reuse_last = if n == 0 {
            false
        } else {
            match &self.children[n - 1].box_type {
                BoxType::AnonymousBlock => true,
                _ => false,
            }
        };
        if reuse_last {
            let mut last = match self.children.pop() {
                Some(b) => b,
                None => vstd::pervasive::unreached(),
            };
            let ghost last0 = last;
            let ghost inner = boxes_view(last.children, last.children@.len());
            proof {
                lemma_boxes_view(last.children, last.children@.len());
                assert(box_view(last) == acc.last());
            }
            last.children.push(child);
            proof {
                lemma_boxes_view(last.children, last.children@.len());
                assert(boxes_view(last.children, last.children@.len()) =~= inner.push(
                    box_view(child),
                ));
            }
            self.children.push(last);
            proof {
                lemma_boxes_view(self.children, self.children@.len());
                assert(boxes_view(self.children, self.children@.len()) =~= add_inline_child(
                    acc,
                    box_view(child),
                    old(self).box_type@,
                ));
            }
        } else {
            let mut anon = LayoutBox::new(BoxType::AnonymousBlock);
            anon.children.push(child);
            proof {
                lemma_boxes_view(anon.children, anon.children@.len());
                assert(boxes_view(anon.children, anon.children@.len()) =~= seq![box_view(child)]);
            }
            self.children.push(anon);
            proof {
                lemma_boxes_view(self.children, self.children@.len());
                assert(boxes_view(self.children, self.children@.len()) =~= add_inline_child(
                    acc,
                    box_view(child),
                    old(self).box_type@,
                ));
            }
        }
    }
}

/// Build the layout box of a styled node whose `display` is not `none`.
fn build_box(style_node: &StyledNode) -> (r: LayoutBox)
    requires
        spec_display(styled_view(*style_node).specified_values) != Display::DisplayNone,
    ensures
        box_view(r) == spec_build(styled_view(*style_node)),
    decreases *style_node,
{
    let ghost sv = styled_view(*style_node);
    let d = style_node.display();
    let bt = match d {
        Display::Block => BoxType::BlockNode(style_node.specified_values.dup()),
        _ => BoxType::InlineNode(style_node.specified_values.dup()),
    };
    let ghost kind = bt@;
    let mut root = LayoutBox::new(bt);
    let mut i: usize = 0;
    proof {
        crate::style::lemma_styled_seq_view(style_node.children, style_node.children@.len());
    }
    while i < style_node.children.len()
        invariant
            i <= style_node.children@.len(),
            sv == styled_view(*style_node),
            sv.children.len() == style_node.children@.len(),
            forall|j: int|
                0 <= j < sv.children.len() ==> sv.children[j] == styled_view(
                    style_node.children@[j],
                ),
            root.box_type@ == kind,
            root.dimensions@ == dims_zero_v(),
            boxes_view(root.children, root.children@.len()) == spec_build_children(
                sv.children,
                i as nat,
                kind,
            ),
        decreases style_node.children@.len() - i,
    {
        let child = &style_node.children[i];
        let ghost acc = boxes_view(root.children, root.children@.len());
        match child.display() {
            Display::Block => {
                let cb = build_box(child);
                let ghost oldkids = root.children;
                root.children.push(cb);
                proof {
                    lemma_boxes_view(oldkids, oldkids@.len());
                    lemma_boxes_view(root.children, root.children@.len());
                    assert(boxes_view(root.children, root.children@.len()) =~= acc.push(
                        box_view(cb),
                    ));
                }
            },
            Display::Inline => {
                let cb = build_box(child);
                root.push_inline_child(cb);
            },
            Display::DisplayNone => {},
        }
        i = i + 1;
    }
    proof {
        assert(box_view(root) =~= spec_build(sv));
    }
    root
}

/// Build the tree of layout boxes for a style tree, without computing any
/// geometry. Fails exactly when the root's `display` is `none`: such a
/// document has no renderable root.
pub fn build_layout_tree(style_node: &StyledNode) -> (r: Result<LayoutBox, LayoutError>)
    ensures
        match r {
            Ok(b) => spec_display(styled_view(*style_node).specified_values)
                != Display::DisplayNone && box_view(b) == spec_build(styled_view(*style_node)),
            Err(e) => spec_display(styled_view(*style_node).specified_values)
                == Display::DisplayNone && e == LayoutError::RootDisplayNone,
        },
{
    match style_node.display() {
        Display::DisplayNone => Err(LayoutError::RootDisplayNone),
        _ => Ok(build_box(style_node)),
    }
}

/// A length of zero pixels.
pub open spec fn px_zero() -> ValueV {
    ValueV::Length(0)
}

/// The value bound to `name`, or `default` when absent.
pub open spec fn value_or(m: Map<Seq<char>, ValueV>, name: Seq<char>, default: ValueV) -> ValueV {
    if m.contains_key(name) {
        m[name]
    } else {
        default
    }
}

/// The declared `width` (default: the keyword `auto`).
pub open spec fn sw_width0(m: Map<Seq<char>, ValueV>) -> ValueV {
    value_or(m, "width"@, ValueV::Keyword("auto"@))
}

/// The declared left margin (default: zero).
pub open spec fn sw_ml0(m: Map<Seq<char>, ValueV>) -> ValueV {
    lookup_v(m, "margin-left"@, "margin"@, px_zero())
}

/// The declared right margin (default: zero).
pub open spec fn sw_mr0(m: Map<Seq<char>, ValueV>) -> ValueV {
    lookup_v(m, "margin-right"@, "margin"@, px_zero())
}

/// The left border width, in pixels.
pub open spec fn sw_bl(m: Map<Seq<char>, ValueV>) -> int {
    to_px_v(lookup_v(m, "border-left-width"@, "border-width"@, px_zero()))
}

/// The right border width, in pixels.
pub open spec fn sw_br(m: Map<Seq<char>, ValueV>) -> int {
    to_px_v(lookup_v(m, "border-right-width"@, "border-width"@, px_zero()))
}

/// The left padding, in pixels.
pub open spec fn sw_pl(m: Map<Seq<char>, ValueV>) -> int {
    to_px_v(lookup_v(m, "padding-left"@, "padding"@, px_zero()))
}

/// The right padding, in pixels.
pub open spec fn sw_pr(m: Map<Seq<char>, ValueV>) -> int {
    to_px_v(lookup_v(m, "padding-right"@, "padding"@, px_zero()))
}

/// The minimum horizontal space the box asks for: the seven horizontal
/// quantities summed, `auto` counting as zero.
pub open spec fn sw_total(m: Map<Seq<char>, ValueV>) -> int {
    to_px_v(sw_ml0(m)) + to_px_v(sw_mr0(m)) + sw_bl(m) + sw_br(m) + sw_pl(m) + sw_pr(m) + to_px_v(
        sw_width0(m),
    )
}

/// The over-constraint repair applies: the width is fixed and the box is
/// already wider than its container, so auto margins are forced to zero.
pub open spec fn sw_repair(m: Map<Seq<char>, ValueV>, cb_width: int) -> bool {
    !is_auto_v(sw_width0(m)) && sw_total(m) > cb_width
}

/// The left margin after the over-constraint repair.
pub open spec fn sw_ml1(m: Map<Seq<char>, ValueV>, cb_width: int) -> ValueV {
    if sw_repair(m, cb_width) && is_auto_v(sw_ml0(m)) {
        px_zero()
    } else {
        sw_ml0(m)
    }
}

/// The right margin after the over-constraint repair.
pub open spec fn sw_mr1(m: Map<Seq<char>, ValueV>, cb_width: int) -> ValueV {
    if sw_repair(m, cb_width) && is_auto_v(sw_mr0(m)) {
        px_zero()
    } else {
        sw_mr0(m)
    }
}

/// The container space left over (negative on overflow).
pub open spec fn sw_underflow(m: Map<Seq<char>, ValueV>, cb_width: int) -> int {
    cb_width - sw_total(m)
}

/// Halve toward zero, as `i64` division does.
pub open spec fn half_toward_zero(u: int) -> int {
    if u >= 0 {
        u / 2
    } else {
        -((-u) / 2)
    }
}

/// The used values the width solve produces: all seven horizontal
/// quantities, in pixels.
pub ghost struct SolvedWidthsV {
    pub width: int,
    pub margin_left: int,
    pub margin_right: int,
    pub border_left: int,
    pub border_right: int,
    pub padding_left: int,
    pub padding_right: int,
}

/// Solve the block width constraint system: make the seven horizontal
/// quantities sum to the containing width by adjusting the `auto` ones, or
/// failing those, the right margin. When both margins are `auto`, the space
/// is split evenly, an odd pixel going to the right margin.
pub open spec fn spec_solve_width(m: Map<Seq<char>, ValueV>, cb_width: int) -> SolvedWidthsV {
    let width0 = sw_width0(m);
    let ml1 = sw_ml1(m, cb_width);
    let mr1 = sw_mr1(m, cb_width);
    let u = sw_underflow(m, cb_width);
    let wa = is_auto_v(width0);
    let mla = is_auto_v(ml1);
    let mra = is_auto_v(mr1);
    let wmm = if !wa && !mla && !mra {
        (to_px_v(width0), to_px_v(ml1), to_px_v(mr1) + u)
    } else if !wa && mla && !mra {
        (to_px_v(width0), u, to_px_v(mr1))
    } else if !wa && !mla && mra {
        (to_px_v(width0), to_px_v(ml1), u)
    } else if wa {
        let ml2 = if mla {
            0
        } else {
            to_px_v(ml1)
        };
        let mr2 = if mra {
            0
        } else {
            to_px_v(mr1)
        };
        if u >= 0 {
            (u, ml2, mr2)
        } else {
            (0, ml2, mr2 + u)
        }
    } else {
        let h = half_toward_zero(u);
        (to_px_v(width0), h, u - h)
    };
    SolvedWidthsV {
        width: wmm.0,
        margin_left: wmm.1,
        margin_right: wmm.2,
        border_left: sw_bl(m),
        border_right: sw_br(m),
        padding_left: sw_pl(m),
        padding_right: sw_pr(m),
    }
}

/// Width-solve law: the solved horizontal quantities always total exactly
/// the containing block's content width — every case of the solve absorbs
/// the underflow completely.
pub proof fn lemma_width_solve_totals(m: Map<Seq<char>, ValueV>, cb_width: int)
    ensures
        ({
            let s = spec_solve_width(m, cb_width);
            s.margin_left + s.border_left + s.padding_left + s.width + s.padding_right
                + s.border_right + s.margin_right == cb_width
        }),
{
    let u = sw_underflow(m, cb_width);
    assert(to_px_v(sw_ml1(m, cb_width)) == to_px_v(sw_ml0(m)));
    assert(to_px_v(sw_mr1(m, cb_width)) == to_px_v(sw_mr0(m)));
    if u >= 0 {
        assert(half_toward_zero(u) + (u - half_toward_zero(u)) == u);
    } else {
        assert(half_toward_zero(u) + (u - half_toward_zero(u)) == u);
    }
}

/// Every intermediate of the width solve's arithmetic fits in an `i64`,
/// partial sums included, in the order the solver computes them.
pub open spec fn width_fits(m: Map<Seq<char>, ValueV>, cb_width: int) -> bool {
    let t1 = to_px_v(sw_ml0(m)) + to_px_v(sw_mr0(m));
    let t2 = t1 + sw_bl(m);
    let t3 = t2 + sw_br(m);
    let t4 = t3 + sw_pl(m);
    let t5 = t4 + sw_pr(m);
    let total = t5 + to_px_v(sw_width0(m));
    let u = cb_width - total;
    let wa = is_auto_v(sw_width0(m));
    let mla = is_auto_v(sw_ml1(m, cb_width));
    let mra = is_auto_v(sw_mr1(m, cb_width));
    &&& in_i64(t1)
    &&& in_i64(t2)
    &&& in_i64(t3)
    &&& in_i64(t4)
    &&& in_i64(t5)
    &&& in_i64(total)
    &&& in_i64(u)
    &&& (!wa && !mla && !mra ==> in_i64(to_px_v(sw_mr1(m, cb_width)) + u))
    &&& (wa && u < 0 ==> in_i64(
        (if mra {
            0int
        } else {
            to_px_v(sw_mr1(m, cb_width))
        }) + u,
    ))
    &&& (!wa && mla && mra ==> in_i64(-u))
}

/// The declared top margin of a positioned block, in pixels.
pub open spec fn vp_mt(m: Map<Seq<char>, ValueV>) -> int {
    to_px_v(lookup_v(m, "margin-top"@, "margin"@, px_zero()))
}

/// The declared bottom margin, in pixels.
pub open spec fn vp_mb(m: Map<Seq<char>, ValueV>) -> int {
    to_px_v(lookup_v(m, "margin-bottom"@, "margin"@, px_zero()))
}

/// The declared top border width, in pixels.
pub open spec fn vp_bt(m: Map<Seq<char>, ValueV>) -> int {
    to_px_v(lookup_v(m, "border-top-width"@, "border-width"@, px_zero()))
}

/// The declared bottom border width, in pixels.
pub open spec fn vp_bb(m: Map<Seq<char>, ValueV>) -> int {
    to_px_v(lookup_v(m, "border-bottom-width"@, "border-width"@, px_zero()))
}

/// The declared top padding, in pixels.
pub open spec fn vp_pt(m: Map<Seq<char>, ValueV>) -> int {
    to_px_v(lookup_v(m, "padding-top"@, "padding"@, px_zero()))
}

/// The declared bottom padding, in pixels.
pub open spec fn vp_pb(m: Map<Seq<char>, ValueV>) -> int {
    to_px_v(lookup_v(m, "padding-bottom"@, "padding"@, px_zero()))
}

/// Store the solved horizontal quantities into the dimensions.
pub open spec fn spec_apply_width(d: DimensionsV, s: SolvedWidthsV) -> DimensionsV {
    DimensionsV {
        content: RectV { width: s.width, ..d.content },
        padding: EdgeSizesV { left: s.padding_left, right: s.padding_right, ..d.padding },
        border: EdgeSizesV { left: s.border_left, right: s.border_right, ..d.border },
        margin: EdgeSizesV { left: s.margin_left, right: s.margin_right, ..d.margin },
    }
}

/// Resolve the vertical edges and position the box: `x` from the containing
/// block's origin plus the left edges, `y` stacked below all content already
/// placed in the containing block (its running `height`).
pub open spec fn spec_position(m: Map<Seq<char>, ValueV>, d: DimensionsV, cb: DimensionsV) -> DimensionsV {
    DimensionsV {
        content: RectV {
            x: cb.content.x + d.margin.left + d.border.left + d.padding.left,
            y: cb.content.height + cb.content.y + vp_mt(m) + vp_bt(m) + vp_pt(m),
            ..d.content
        },
        padding: EdgeSizesV { top: vp_pt(m), bottom: vp_pb(m), ..d.padding },
        border: EdgeSizesV { top: vp_bt(m), bottom: vp_bb(m), ..d.border },
        margin: EdgeSizesV { top: vp_mt(m), bottom: vp_mb(m), ..d.margin },
    }
}

/// Every intermediate of the position arithmetic fits in an `i64`.
pub open spec fn position_fits(m: Map<Seq<char>, ValueV>, d: DimensionsV, cb: DimensionsV) -> bool {
    &&& in_i64(cb.content.x + d.margin.left)
    &&& in_i64(cb.content.x + d.margin.left + d.border.left)
    &&& in_i64(cb.content.x + d.margin.left + d.border.left + d.padding.left)
    &&& in_i64(cb.content.height + cb.content.y)
    &&& in_i64(cb.content.height + cb.content.y + vp_mt(m))
    &&& in_i64(cb.content.height + cb.content.y + vp_mt(m) + vp_bt(m))
    &&& in_i64(cb.content.height + cb.content.y + vp_mt(m) + vp_bt(m) + vp_pt(m))
}

/// The height of the box's margin box: the vertical space it takes up in
/// its container.
pub open spec fn margin_box_height_v(d: DimensionsV) -> int {
    margin_box_v(d).height
}

/// Lay out a box in its containing block: block boxes run the full block
/// algorithm (width, position, children, height); inline and anonymous
/// boxes are left untouched.
pub open spec fn spec_layout(b: LayoutBoxV, cb: DimensionsV) -> LayoutBoxV
    decreases b, 0nat,
{
    match b.box_type {
        BoxTypeV::BlockNode(m) => {
            let d1 = spec_apply_width(b.dimensions, spec_solve_width(m, cb.content.width));
            let d2 = spec_position(m, d1, cb);
            let r = spec_layout_children(b.children, b.children.len(), d2);
            let d3 = r.1;
            let d4 = if m.contains_key("height"@) && m["height"@] is Length {
                DimensionsV { content: RectV { height: to_px_v(m["height"@]), ..d3.content }, ..d3 }
            } else {
                d3
            };
            LayoutBoxV { dimensions: d4, box_type: b.box_type, children: r.0 }
        },
        _ => b,
    }
}

/// Lay out the first `k` children in order, each against the box's current
/// dimensions, whose content height grows by each child's margin-box height
/// so the next child stacks below it. Returns the laid-out children and the
/// box's dimensions afterwards.
pub open spec fn spec_layout_children(cs: Seq<LayoutBoxV>, k: nat, d: DimensionsV) -> (
    Seq<LayoutBoxV>,
    DimensionsV,
)
    decreases cs, k,
{
    if k == 0 || k > cs.len() {
        (Seq::empty(), d)
    } else {
        let r = spec_layout_children(cs, (k - 1) as nat, d);
        let c = spec_layout(cs[k - 1], r.1);
        let dh = r.1.content.height + margin_box_height_v(c.dimensions);
        (r.0.push(c), DimensionsV { content: RectV { height: dh, ..r.1.content }, ..r.1 })
    }
}

/// Every intermediate of laying out this box tree fits in an `i64`.
pub open spec fn layout_fits(b: LayoutBoxV, cb: DimensionsV) -> bool
    decreases b, 0nat,
{
    match b.box_type {
        BoxTypeV::BlockNode(m) => {
            let d1 = spec_apply_width(b.dimensions, spec_solve_width(m, cb.content.width));
            let d2 = spec_position(m, d1, cb);
            width_fits(m, cb.content.width) && position_fits(m, d1, cb) && children_fits(
                b.children,
                b.children.len(),
                d2,
            )
        },
        _ => true,
    }
}

/// Every intermediate of laying out the first `k` children fits in an
/// `i64`: each child's own layout, its margin-box arithmetic, and the
/// running height.
pub open spec fn children_fits(cs: Seq<LayoutBoxV>, k: nat, d: DimensionsV) -> bool
    decreases cs, k,
{
    if k == 0 || k > cs.len() {
        true
    } else {
        let r = spec_layout_children(cs, (k - 1) as nat, d);
        let c = spec_layout(cs[k - 1], r.1);
        children_fits(cs, (k - 1) as nat, d) && layout_fits(cs[k - 1], r.1) && margin_box_fits(
            c.dimensions,
        ) && in_i64(r.1.content.height + margin_box_height_v(c.dimensions))
    }
}

/// `children_fits` for a count covers every smaller count.
pub proof fn lemma_children_fits_prefix(cs: Seq<LayoutBoxV>, k1: nat, k2: nat, d: DimensionsV)
    requires
        k1 <= k2 <= cs.len(),
        children_fits(cs, k2, d),
    ensures
        children_fits(cs, k1, d),
    decreases k2,
{
    if k1 < k2 {
        lemma_children_fits_prefix(cs, k1, (k2 - 1) as nat, d);
    }
}

/// The number of boxes in a tree, its root included. The count ignores the
/// geometry, so laying out changes no count.
pub open spec fn box_count(b: LayoutBoxV) -> nat
    decreases b, 0nat,
{
    1 + boxes_count(b.children)
}

/// The number of boxes in a forest.
pub open spec fn boxes_count(cs: Seq<LayoutBoxV>) -> nat
    decreases cs, 1nat,
{
    if cs.len() == 0 {
        0
    } else {
        boxes_count(cs.drop_last()) + box_count(cs.last())
    }
}

/// No tree of a forest outgrows the forest.
pub proof fn lemma_boxes_count_element(cs: Seq<LayoutBoxV>, i: int)
    requires
        0 <= i < cs.len(),
    ensures
        box_count(cs[i]) <= boxes_count(cs),
    decreases cs.len(),
{
    if i < cs.len() - 1 {
        lemma_boxes_count_element(cs.drop_last(), i);
    }
}

impl LayoutBox {
    /// Solve the block width constraint system against the containing block
    /// and store the used horizontal values.
    fn calculate_block_width(self, containing_block: Dimensions) -> (r: LayoutBox)
        requires
            box_view(self).box_type is BlockNode,
            width_fits(box_props(box_view(self)), containing_block@.content.width),
        ensures
            box_view(r) == (LayoutBoxV {
                dimensions: spec_apply_width(
                    box_view(self).dimensions,
                    spec_solve_width(
                        box_props(box_view(self)),
                        containing_block@.content.width,
                    ),
                ),
                ..box_view(self)
            }),
    {
        let ghost m = box_props(box_view(self));
        let ghost cbw = containing_block@.content.width;
        let ghost s = spec_solve_width(m, cbw);
        let style = self.get_style_node();
        let zero = Value::Length(0, Unit::Px);
        let width = match style.value("width") {
            Some(v) => v,
            None => Value::Keyword(String::from_str("auto")),
        };
        proof {
            assert(width@ == sw_width0(m));
        }
        let mut margin_left = style.lookup("margin-left", "margin", &zero);
        let mut margin_right = style.lookup("margin-right", "margin", &zero);
        let border_left = style.lookup("border-left-width", "border-width", &zero).to_px();
        let border_right = style.lookup("border-right-width", "border-width", &zero).to_px();
        let padding_left = style.lookup("padding-left", "padding", &zero).to_px();
        let padding_right = style.lookup("padding-right", "padding", &zero).to_px();
        let total = margin_left.to_px() + margin_right.to_px() + border_left + border_right
            + padding_left + padding_right + width.to_px();
        proof {
            assert(total == sw_total(m));
        }
        let width_auto = width.is_auto();
        if !width_auto && total > containing_block.content.width {
            if margin_left.is_auto() {
                margin_left = Value::Length(0, Unit::Px);
            }
            if margin_right.is_auto() {
                margin_right = Value::Length(0, Unit::Px);
            }
        }
        proof {
            assert(margin_left@ == sw_ml1(m, cbw));
            assert(margin_right@ == sw_mr1(m, cbw));
        }
        let underflow = containing_block.content.width - total;
        let ml_auto = margin_left.is_auto();
        let mr_auto = margin_right.is_auto();
        let w_px: i64;
        let ml_px: i64;
        let mr_px: i64;
        if !width_auto && !ml_auto && !mr_auto {
            // Over-constrained: the right margin absorbs the underflow (and
            // may go negative).
            w_px = width.to_px();
            ml_px = margin_left.to_px();
            mr_px = margin_right.to_px() + underflow;
        } else if !width_auto && ml_auto && !mr_auto {
            w_px = width.to_px();
            ml_px = underflow;
            mr_px = margin_right.to_px();
        } else if !width_auto && !ml_auto && mr_auto {
            w_px = width.to_px();
            ml_px = margin_left.to_px();
            mr_px = underflow;
        } else if width_auto {
            // Auto width: auto margins become zero, and the width takes the
            // underflow; a negative underflow instead overflows out of the
            // right margin.
            let ml2: i64 = if ml_auto {
                0
            } else {
                margin_left.to_px()
            };
            let mr2: i64 = if mr_auto {
                0
            } else {
                margin_right.to_px()
            };
            if underflow >= 0 {
                w_px = underflow;
                ml_px = ml2;
                mr_px = mr2;
            } else {
                w_px = 0;
                ml_px = ml2;
                mr_px = mr2 + underflow;
            }
        } else {
            // Both margins auto: split the underflow evenly, an odd pixel
            // going to the right margin.
            let half: i64 = if underflow >= 0 {
                underflow / 2
            } else {
                -((-underflow) / 2)
            };
            w_px = width.to_px();
            ml_px = half;
            mr_px = underflow - half;
        }
        proof {
            assert(w_px == s.width && ml_px == s.margin_left && mr_px == s.margin_right);
        }
        let mut d = self.dimensions;
        d.content.width = w_px;
        d.padding.left = padding_left;
        d.padding.right = padding_right;
        d.border.left = border_left;
        d.border.right = border_right;
        d.margin.left = ml_px;
        d.margin.right = mr_px;
        let r = LayoutBox { dimensions: d, box_type: self.box_type, children: self.children };
        proof {
            assert(r.dimensions@ == spec_apply_width(self.dimensions@, s));
        }
        r
    }

    /// Resolve the vertical edges and position the box within its
    /// containing block, directly below the content already placed there.
    fn calculate_block_position(self, containing_block: Dimensions) -> (r: LayoutBox)
        requires
            box_view(self).box_type is BlockNode,
            position_fits(
                box_props(box_view(self)),
                box_view(self).dimensions,
                containing_block@,
            ),
        ensures
            box_view(r) == (LayoutBoxV {
                dimensions: spec_position(
                    box_props(box_view(self)),
                    box_view(self).dimensions,
                    containing_block@,
                ),
                ..box_view(self)
            }),
    {
        let ghost m = box_props(box_view(self));
        let style = self.get_style_node();
        let zero = Value::Length(0, Unit::Px);
        let mt = style.lookup("margin-top", "margin", &zero).to_px();
        let mb = style.lookup("margin-bottom", "margin", &zero).to_px();
        let bt = style.lookup("border-top-width", "border-width", &zero).to_px();
        let bb = style.lookup("border-bottom-width", "border-width", &zero).to_px();
        let pt = style.lookup("padding-top", "padding", &zero).to_px();
        let pb = style.lookup("padding-bottom", "padding", &zero).to_px();
        let mut d = self.dimensions;
        d.margin.top = mt;
        d.margin.bottom = mb;
        d.border.top = bt;
        d.border.bottom = bb;
        d.padding.top = pt;
        d.padding.bottom = pb;
        d.content.x = containing_block.content.x + d.margin.left + d.border.left
            + d.padding.left;
        // Stack below all previously-placed boxes: the containing block's
        // height is the running height of the children laid out so far.
        d.content.y = containing_block.content.height + containing_block.content.y + d.margin.top
            + d.border.top + d.padding.top;
        let r = LayoutBox { dimensions: d, box_type: self.box_type, children: self.children };
        proof {
            assert(r.dimensions@ == spec_position(m, self.dimensions@, containing_block@));
        }
        r
    }

    /// Lay out the children in order against this box's dimensions, growing
    /// the content height by each child's margin-box height so the next
    /// child stacks below it.
    fn layout_block_children(self) -> (r: LayoutBox)
        requires
            children_fits(
                box_view(self).children,
                box_view(self).children.len(),
                box_view(self).dimensions,
            ),
        ensures
            box_view(r) == ({
                let t = spec_layout_children(
                    box_view(self).children,
                    box_view(self).children.len(),
                    box_view(self).dimensions,
                );
                LayoutBoxV { dimensions: t.1, box_type: box_view(self).box_type, children: t.0 }
            }),
        decreases box_count(box_view(self)), 1nat,
    {
        let ghost bv = box_view(self);
        let ghost cs0 = bv.children;
        let ghost d0 = bv.dimensions;
        let ghost total = cs0.len();
        let LayoutBox { mut dimensions, box_type, children } = self;
        let mut rem = children;
        let mut out: Vec<LayoutBox> = Vec::new();
        proof {
            lemma_boxes_view(rem, rem@.len());
            assert(boxes_view(out, out@.len()) =~= Seq::<LayoutBoxV>::empty());
            assert(boxes_view(rem, rem@.len()) =~= cs0.subrange(0, total as int));
        }
        #[verifier::loop_isolation(false)]
        while rem.len() > 0
            invariant
                total == cs0.len(),
                out@.len() + rem@.len() == total,
                boxes_view(out, out@.len()) == spec_layout_children(cs0, out@.len() as nat, d0).0,
                dimensions@ == spec_layout_children(cs0, out@.len() as nat, d0).1,
                boxes_view(rem, rem@.len()) =~= cs0.subrange(out@.len() as int, total as int),
                children_fits(cs0, total, d0),
                box_count(bv) == 1 + boxes_count(cs0),
            decreases rem@.len(),
        {
            let ghost k = out@.len() as nat;
            let ghost oldrem = rem;
            proof {
                lemma_children_fits_prefix(cs0, (k + 1) as nat, total, d0);
                lemma_boxes_view(oldrem, oldrem@.len());
                assert(box_view(oldrem[0]) == cs0.subrange(k as int, total as int)[0]);
                assert(box_view(oldrem[0]) == cs0[k as int]);
                lemma_boxes_count_element(cs0, k as int);
            }
            let c = rem.remove(0);
            let laid = c.layout(dimensions);
            let mbh = laid.dimensions.margin_box().height;
            dimensions.content.height = dimensions.content.height + mbh;
            let ghost oldout = out;
            out.push(laid);
            proof {
                lemma_boxes_view(oldout, oldout@.len());
                lemma_boxes_view(out, out@.len());
                assert(boxes_view(out, out@.len()) =~= boxes_view(oldout, oldout@.len()).push(
                    box_view(laid),
                ));
                lemma_boxes_view(rem, rem@.len());
                assert forall|j: int| 0 <= j < rem@.len() implies box_view(rem[j]) == cs0.subrange(
                    k as int + 1,
                    total as int,
                )[j] by {
                    assert(rem[j] == oldrem[j + 1]);
                    assert(box_view(oldrem[j + 1]) == cs0.subrange(k as int, total as int)[j + 1]);
                }
                assert(boxes_view(rem, rem@.len()) =~= cs0.subrange(k as int + 1, total as int));
            }
        }
        proof {
            assert(cs0.subrange(total as int, total as int) =~= Seq::<LayoutBoxV>::empty());
            assert(out@.len() == total);
        }
        let r = LayoutBox { dimensions, box_type, children: out };
        proof {
            assert(box_view(r).children == spec_layout_children(cs0, total, d0).0);
            assert(box_view(r) == ({
                let t = spec_layout_children(cs0, total, d0);
                LayoutBoxV { dimensions: t.1, box_type: bv.box_type, children: t.0 }
            }));
        }
        r
    }

    /// Use an explicit `height` pixel length if one is declared; otherwise
    /// keep the accumulated children height.
    fn calculate_block_height(self) -> (r: LayoutBox)
        requires
            box_view(self).box_type is BlockNode,
        ensures
            box_view(r) == ({
                let m = box_props(box_view(self));
                let d3 = box_view(self).dimensions;
                let d4 = if m.contains_key("height"@) && m["height"@] is Length {
                    DimensionsV {
                        content: RectV { height: to_px_v(m["height"@]), ..d3.content },
                        ..d3
                    }
                } else {
                    d3
                };
                LayoutBoxV { dimensions: d4, ..box_view(self) }
            }),
    {
        let explicit = match self.get_style_node().value("height") {
            Some(Value::Length(h, Unit::Px)) => Some(h),
            _ => None,
        };
        match explicit {
            Some(h) => {
                let mut d = self.dimensions;
                d.content.height = h;
                LayoutBox { dimensions: d, box_type: self.box_type, children: self.children }
            },
            None => self,
        }
    }

    /// The full block layout algorithm: width first (it depends only on the
    /// containing block), then position, then the children, then the height
    /// (it depends on the children).
    fn layout_block(self, containing_block: Dimensions) -> (r: LayoutBox)
        requires
            box_view(self).box_type is BlockNode,
            layout_fits(box_view(self), containing_block@),
        ensures
            box_view(r) == spec_layout(box_view(self), containing_block@),
        decreases box_count(box_view(self)), 2nat,
    {
        let ghost bv = box_view(self);
        let s1 = self.calculate_block_width(containing_block);
        let s2 = s1.calculate_block_position(containing_block);
        proof {
            assert(box_count(box_view(s2)) == box_count(bv));
        }
        let s3 = s2.layout_block_children();
        s3.calculate_block_height()
    }

    /// Lay out a box and everything under it against its containing block.
    /// Only block boxes get geometry; inline and anonymous boxes are left
    /// as they are.
    pub fn layout(self, containing_block: Dimensions) -> (r: LayoutBox)
        requires
            layout_fits(box_view(self), containing_block@),
        ensures
            box_view(r) == spec_layout(box_view(self), containing_block@),
        decreases box_count(box_view(self)), 3nat,
    {
        let is_block = match &self.box_type {
            BoxType::BlockNode(_) => true,
            _ => false,
        };
        if is_block {
            self.layout_block(containing_block)
        } else {
            self
        }
    }
}

/// The containing block as the layout algorithm first sees it: its content
/// height zeroed, since that field carries the running height of the
/// children placed so far.
pub open spec fn with_zero_height(cb: DimensionsV) -> DimensionsV {
    DimensionsV { content: RectV { height: 0, ..cb.content }, ..cb }
}

/// Transform a style tree into a laid-out layout tree: build the boxes,
/// then solve their geometry against the containing block. The containing
/// block's content width, x and y describe the viewport; its height is
/// zeroed before layout. Fails exactly when the root's `display` is `none`.
pub fn layout_tree(node: &StyledNode, containing_block: Dimensions) -> (r: Result<
    LayoutBox,
    LayoutError,
>)
    requires
        spec_display(styled_view(*node).specified_values) != Display::DisplayNone
            ==> layout_fits(spec_build(styled_view(*node)), with_zero_height(containing_block@)),
    ensures
        match r {
            Ok(b) => spec_display(styled_view(*node).specified_values) != Display::DisplayNone
                && box_view(b) == spec_layout(
                spec_build(styled_view(*node)),
                with_zero_height(containing_block@),
            ),
            Err(e) => spec_display(styled_view(*node).specified_values)
                == Display::DisplayNone && e == LayoutError::RootDisplayNone,
        },
{
    let mut cb = containing_block;
    // The solver reads the containing block's height as the running height
    // of previously placed children, so it must start at zero.
    cb.content.height = 0;
    match build_layout_tree(node) {
        Ok(root_box) => Ok(root_box.layout(cb)),
        Err(e) => Err(e),
    }
}

/// The total vertical space a forest takes up: the sum of the margin-box
/// heights of its trees.
pub open spec fn mbh_sum(s: Seq<LayoutBoxV>) -> int
    decreases s.len(),
{
    if s.len() == 0 {
        0
    } else {
        mbh_sum(s.drop_last()) + margin_box_height_v(s.last().dimensions)
    }
}

/// Laying out children only grows the box's content height, by exactly the
/// sum of the children's margin-box heights.
pub proof fn lemma_children_running_height(cs: Seq<LayoutBoxV>, k: nat, d: DimensionsV)
    requires
        k <= cs.len(),
    ensures
        spec_layout_children(cs, k, d).0.len() == k,
        spec_layout_children(cs, k, d).1 == (DimensionsV {
            content: RectV {
                height: d.content.height + mbh_sum(spec_layout_children(cs, k, d).0),
                ..d.content
            },
            ..d
        }),
    decreases k,
{
    if k == 0 {
        assert(spec_layout_children(cs, 0, d).1 == d);
    } else {
        lemma_children_running_height(cs, (k - 1) as nat, d);
        let prev = spec_layout_children(cs, (k - 1) as nat, d);
        let c = spec_layout(cs[k - 1], prev.1);
        assert(prev.0.push(c).drop_last() =~= prev.0);
    }
}

/// The first `k1` laid-out children agree with the first `k1` of any longer
/// run: laying out later children never changes earlier ones.
pub proof fn lemma_children_prefix(cs: Seq<LayoutBoxV>, d: DimensionsV, k1: nat, k2: nat)
    requires
        k1 <= k2 <= cs.len(),
    ensures
        spec_layout_children(cs, k1, d).0 =~= spec_layout_children(cs, k2, d).0.subrange(
            0,
            k1 as int,
        ),
    decreases k2,
{
    lemma_children_running_height(cs, k1, d);
    lemma_children_running_height(cs, k2, d);
    if k1 < k2 {
        lemma_children_prefix(cs, d, k1, (k2 - 1) as nat);
        lemma_children_running_height(cs, (k2 - 1) as nat, d);
    }
}

/// Vertical stacking law: among block children laid out in a containing
/// block, child `k` sits at the containing block's content `y`, plus its
/// starting height, plus the margin-box heights of the `k` children before
/// it, plus the child's own top margin, border and padding.
pub proof fn lemma_vertical_stacking(cs: Seq<LayoutBoxV>, d: DimensionsV, k: int)
    requires
        0 <= k < cs.len(),
        cs[k].box_type is BlockNode,
    ensures
        ({
            let full = spec_layout_children(cs, cs.len(), d).0;
            let m = box_props(cs[k]);
            full.len() == cs.len() && full[k].dimensions.content.y == d.content.y
                + d.content.height + mbh_sum(full.subrange(0, k)) + vp_mt(m) + vp_bt(m) + vp_pt(m)
        }),
{
    let full = spec_layout_children(cs, cs.len(), d).0;
    let pref = spec_layout_children(cs, k as nat, d);
    let m = box_props(cs[k]);
    lemma_children_running_height(cs, cs.len(), d);
    lemma_children_running_height(cs, k as nat, d);
    lemma_children_prefix(cs, d, k as nat, cs.len());
    let c = spec_layout(cs[k], pref.1);
    assert(spec_layout_children(cs, (k + 1) as nat, d).0 == pref.0.push(c));
    lemma_children_prefix(cs, d, (k + 1) as nat, cs.len());
    lemma_children_running_height(cs, (k + 1) as nat, d);
    assert(full.subrange(0, k + 1)[k] == full[k]);
    assert(full[k] == c);
    let d1 = spec_apply_width(
        cs[k].dimensions,
        spec_solve_width(m, pref.1.content.width),
    );
    let d2 = spec_position(m, d1, pref.1);
    let rr = spec_layout_children(cs[k].children, cs[k].children.len(), d2);
    lemma_children_running_height(cs[k].children, cs[k].children.len(), d2);
    assert(rr.1.content.y == d2.content.y);
    assert(c.dimensions.content.y == d2.content.y);
    assert(d2.content.y == pref.1.content.height + pref.1.content.y + vp_mt(m) + vp_bt(m) + vp_pt(
        m,
    ));
    assert(pref.1.content.height == d.content.height + mbh_sum(pref.0));
    assert(pref.0 =~= full.subrange(0, k));
}

/// The largest style length the sufficient condition for overflow-freedom
/// admits, in pixels (about a million).
pub const PX_STYLE_LIMIT: i64 = 0x100000;

/// The largest box count the sufficient condition admits.
pub const BOX_COUNT_LIMIT: usize = 4096;

/// The largest viewport coordinate the sufficient condition admits (about a
/// billion pixels).
pub const VIEWPORT_LIMIT: i64 = 0x40000000;

/// The geometry bound every box laid out under the sufficient condition
/// stays within (far below `i64` range, leaving room for the painting
/// arithmetic).
pub const GEOM_LIMIT: i64 = 0x4000000000000;

/// Every geometry field of the dimensions is at most `g` in magnitude.
pub open spec fn dims_bounded(d: DimensionsV, g: int) -> bool {
    &&& -g <= d.content.x <= g
    &&& -g <= d.content.y <= g
    &&& -g <= d.content.width <= g
    &&& -g <= d.content.height <= g
    &&& -g <= d.padding.left <= g && -g <= d.padding.right <= g && -g <= d.padding.top <= g && -g
        <= d.padding.bottom <= g
    &&& -g <= d.border.left <= g && -g <= d.border.right <= g && -g <= d.border.top <= g && -g
        <= d.border.bottom <= g
    &&& -g <= d.margin.left <= g && -g <= d.margin.right <= g && -g <= d.margin.top <= g && -g
        <= d.margin.bottom <= g
}

/// Every geometry field of every box of the tree is at most `g` in
/// magnitude.
pub open spec fn laid_bounded(b: LayoutBoxV, g: int) -> bool
    decreases b, 0nat,
{
    dims_bounded(b.dimensions, g) && laid_seq_bounded(b.children, g)
}

/// `laid_bounded`, over a forest.
pub open spec fn laid_seq_bounded(cs: Seq<LayoutBoxV>, g: int) -> bool
    decreases cs, 1nat,
{
    cs.len() == 0 || (laid_seq_bounded(cs.drop_last(), g) && laid_bounded(cs.last(), g))
}

/// Every tree of a geometry-bounded forest is geometry-bounded.
pub proof fn lemma_laid_seq_element(cs: Seq<LayoutBoxV>, g: int, i: int)
    requires
        laid_seq_bounded(cs, g),
        0 <= i < cs.len(),
    ensures
        laid_bounded(cs[i], g),
    decreases cs.len(),
{
    if i < cs.len() - 1 {
        lemma_laid_seq_element(cs.drop_last(), g, i);
    }
}

/// Every length among the values of `m` is at most `bound` pixels in
/// magnitude.
pub open spec fn map_bounded(m: Map<Seq<char>, ValueV>, bound: int) -> bool {
    forall|k: Seq<char>|
        m.contains_key(k) ==> -bound <= to_px_v(#[trigger] m[k]) <= bound
}

/// A freshly built, not yet laid out box tree with modest styles: all
/// dimensions still zero, and every style length within `bound` pixels.
pub open spec fn built_bounded(b: LayoutBoxV, bound: int) -> bool
    decreases b, 0nat,
{
    &&& b.dimensions == dims_zero_v()
    &&& map_bounded(box_props(b), bound)
    &&& built_seq(b.children, bound)
}

/// `built_bounded`, over a forest.
pub open spec fn built_seq(cs: Seq<LayoutBoxV>, bound: int) -> bool
    decreases cs, 1nat,
{
    cs.len() == 0 || (built_seq(cs.drop_last(), bound) && built_bounded(cs.last(), bound))
}

/// Every tree of a bounded forest is bounded.
proof fn lemma_built_seq_element(cs: Seq<LayoutBoxV>, bound: int, i: int)
    requires
        built_seq(cs, bound),
        0 <= i < cs.len(),
    ensures
        built_bounded(cs[i], bound),
    decreases cs.len(),
{
    if i < cs.len() - 1 {
        lemma_built_seq_element(cs.drop_last(), bound, i);
    }
}

/// A looked-up edge property of a bounded map is a bounded pixel count.
proof fn lemma_lookup_px_bounded(m: Map<Seq<char>, ValueV>, p: Seq<char>, f: Seq<char>, bound: int)
    requires
        map_bounded(m, bound),
        bound >= 0,
    ensures
        -bound <= to_px_v(lookup_v(m, p, f, px_zero())) <= bound,
{
}

/// A freshly built tree, being all zeroes, is geometry-bounded.
proof fn lemma_built_laid(b: LayoutBoxV, bound: int, g: int)
    requires
        built_bounded(b, bound),
        g >= 0,
    ensures
        laid_bounded(b, g),
    decreases b, 0nat,
{
    lemma_built_laid_seq(b.children, bound, g);
}

/// `lemma_built_laid`, over a forest.
proof fn lemma_built_laid_seq(cs: Seq<LayoutBoxV>, bound: int, g: int)
    requires
        built_seq(cs, bound),
        g >= 0,
    ensures
        laid_seq_bounded(cs, g),
    decreases cs, 1nat,
{
    if cs.len() > 0 {
        lemma_built_laid_seq(cs.drop_last(), bound, g);
        lemma_built_laid(cs.last(), bound, g);
    }
}

/// Prefixes of a forest count at most the whole forest.
proof fn lemma_boxes_count_prefix(cs: Seq<LayoutBoxV>, k: int)
    requires
        0 <= k <= cs.len(),
    ensures
        boxes_count(cs.subrange(0, k)) <= boxes_count(cs),
    decreases cs.len() - k,
{
    if k == cs.len() {
        assert(cs.subrange(0, k) =~= cs);
    } else {
        lemma_boxes_count_prefix(cs, k + 1);
        assert(cs.subrange(0, k + 1).drop_last() =~= cs.subrange(0, k));
        assert(cs.subrange(0, k + 1).last() == cs[k]);
    }
}

/// For a freshly built box tree with styles within `PX_STYLE_LIMIT` pixels,
/// at most `BOX_COUNT_LIMIT` boxes, and a containing block within the stated
/// budgets, every intermediate of the layout arithmetic fits in an `i64`,
/// and the laid-out tree's margin box stays small.
#[verifier::rlimit(100)]
proof fn lemma_built_fits(b: LayoutBoxV, cb: DimensionsV)
    requires
        built_bounded(b, PX_STYLE_LIMIT as int),
        box_count(b) <= BOX_COUNT_LIMIT,
        -(VIEWPORT_LIMIT + 0x800000 * (BOX_COUNT_LIMIT - box_count(b))) <= cb.content.width
            <= VIEWPORT_LIMIT + 0x800000 * (BOX_COUNT_LIMIT - box_count(b)),
        -(VIEWPORT_LIMIT + 0x2000000000 * (BOX_COUNT_LIMIT - box_count(b))) <= cb.content.x
            <= VIEWPORT_LIMIT + 0x2000000000 * (BOX_COUNT_LIMIT - box_count(b)),
        -(VIEWPORT_LIMIT + 0x1000000000 * (BOX_COUNT_LIMIT - box_count(b))) <= cb.content.y
            <= VIEWPORT_LIMIT + 0x1000000000 * (BOX_COUNT_LIMIT - box_count(b)),
        -(0x700000 * (BOX_COUNT_LIMIT - box_count(b))) <= cb.content.height <= 0x700000 * (
        BOX_COUNT_LIMIT - box_count(b)),
    ensures
        layout_fits(b, cb),
        margin_box_fits(spec_layout(b, cb).dimensions),
        -(0x700000 * box_count(b)) <= margin_box_height_v(spec_layout(b, cb).dimensions)
            <= 0x700000 * box_count(b),
        laid_bounded(spec_layout(b, cb), GEOM_LIMIT as int),
    decreases b, 0nat,
{
    let bound = PX_STYLE_LIMIT as int;
    match b.box_type {
        BoxTypeV::BlockNode(m) => {
            let cbw = cb.content.width;
            lemma_lookup_px_bounded(m, "margin-left"@, "margin"@, bound);
            lemma_lookup_px_bounded(m, "margin-right"@, "margin"@, bound);
            lemma_lookup_px_bounded(m, "border-left-width"@, "border-width"@, bound);
            lemma_lookup_px_bounded(m, "border-right-width"@, "border-width"@, bound);
            lemma_lookup_px_bounded(m, "padding-left"@, "padding"@, bound);
            lemma_lookup_px_bounded(m, "padding-right"@, "padding"@, bound);
            lemma_lookup_px_bounded(m, "margin-top"@, "margin"@, bound);
            lemma_lookup_px_bounded(m, "margin-bottom"@, "margin"@, bound);
            lemma_lookup_px_bounded(m, "border-top-width"@, "border-width"@, bound);
            lemma_lookup_px_bounded(m, "border-bottom-width"@, "border-width"@, bound);
            lemma_lookup_px_bounded(m, "padding-top"@, "padding"@, bound);
            lemma_lookup_px_bounded(m, "padding-bottom"@, "padding"@, bound);
            assert(-bound <= to_px_v(sw_width0(m)) <= bound);
            let u = sw_underflow(m, cbw);
            let s = spec_solve_width(m, cbw);
            if u >= 0 {
                assert(0 <= u / 2 <= u) by (nonlinear_arith)
                    requires
                        u >= 0,
                ;
            } else {
                assert(0 <= (-u) / 2 <= -u) by (nonlinear_arith)
                    requires
                        -u >= 0,
                ;
            }
            assert(width_fits(m, cbw));
            let qw = VIEWPORT_LIMIT as int + 0x800000 * (BOX_COUNT_LIMIT as int - box_count(b));
            assert(-(qw + 7 * bound) <= s.width <= qw + 7 * bound);
            assert(-(qw + 8 * bound) <= s.margin_left <= qw + 8 * bound);
            assert(-(qw + 8 * bound) <= s.margin_right <= qw + 8 * bound);
            let d1 = spec_apply_width(b.dimensions, s);
            assert(position_fits(m, d1, cb));
            let d2 = spec_position(m, d1, cb);
            let cs = b.children;
            let n = cs.len();
            assert(box_count(b) == 1 + boxes_count(cs));
            lemma_built_children_fits(cs, n, d2);
            assert(layout_fits(b, cb));
            let r = spec_layout_children(cs, n, d2);
            lemma_children_running_height(cs, n, d2);
            assert(cs.subrange(0, n as int) =~= cs);
            let d4 = spec_layout(b, cb).dimensions;
            assert(-(0x700000 * box_count(b) - 6 * bound) <= d4.content.height <= 0x700000
                * box_count(b) - 6 * bound);
            assert(margin_box_fits(d4));
            assert(dims_bounded(d4, GEOM_LIMIT as int));
        },
        _ => {
            assert(margin_box_fits(b.dimensions));
            lemma_built_laid(b, bound, GEOM_LIMIT as int);
        },
    }
}

/// The forest half of `lemma_built_fits`: laying out the first `k` children
/// of a box whose current dimensions are within budget fits in `i64`, and
/// the accumulated height stays within the children's share.
proof fn lemma_built_children_fits(cs: Seq<LayoutBoxV>, k: nat, d: DimensionsV)
    requires
        k <= cs.len(),
        built_seq(cs, PX_STYLE_LIMIT as int),
        boxes_count(cs) < BOX_COUNT_LIMIT,
        -(VIEWPORT_LIMIT + 0x800000 * (BOX_COUNT_LIMIT - boxes_count(cs))) <= d.content.width
            <= VIEWPORT_LIMIT + 0x800000 * (BOX_COUNT_LIMIT - boxes_count(cs)),
        -(VIEWPORT_LIMIT + 0x2000000000 * (BOX_COUNT_LIMIT - boxes_count(cs))) <= d.content.x
            <= VIEWPORT_LIMIT + 0x2000000000 * (BOX_COUNT_LIMIT - boxes_count(cs)),
        -(VIEWPORT_LIMIT + 0x1000000000 * (BOX_COUNT_LIMIT - boxes_count(cs))) <= d.content.y
            <= VIEWPORT_LIMIT + 0x1000000000 * (BOX_COUNT_LIMIT - boxes_count(cs)),
        -(0x700000 * (BOX_COUNT_LIMIT - boxes_count(cs))) <= d.content.height <= 0x700000 * (
        BOX_COUNT_LIMIT - boxes_count(cs)),
    ensures
        children_fits(cs, k, d),
        ({
            let dk = spec_layout_children(cs, k, d).1;
            -(0x700000 * boxes_count(cs.subrange(0, k as int))) <= dk.content.height
                - d.content.height <= 0x700000 * boxes_count(cs.subrange(0, k as int))
        }),
        laid_seq_bounded(spec_layout_children(cs, k, d).0, GEOM_LIMIT as int),
    decreases cs, k,
{
    if k == 0 {
        assert(cs.subrange(0, 0) =~= Seq::<LayoutBoxV>::empty());
    } else {
        lemma_built_children_fits(cs, (k - 1) as nat, d);
        let prev = spec_layout_children(cs, (k - 1) as nat, d);
        let child = cs[k - 1];
        lemma_built_seq_element(cs, PX_STYLE_LIMIT as int, k - 1);
        lemma_boxes_count_element(cs, k - 1);
        lemma_boxes_count_prefix(cs, k - 1);
        lemma_boxes_count_prefix(cs, k as int);
        assert(cs.subrange(0, k as int).drop_last() =~= cs.subrange(0, k - 1));
        assert(cs.subrange(0, k as int).last() == cs[k - 1]);
        assert(boxes_count(cs.subrange(0, k as int)) == boxes_count(cs.subrange(0, k - 1))
            + box_count(child));
        lemma_children_running_height(cs, (k - 1) as nat, d);
        lemma_built_fits(child, prev.1);
        lemma_children_running_height(cs, k, d);
        let c = spec_layout(child, prev.1);
        assert(spec_layout_children(cs, k, d).0 == prev.0.push(c));
        assert(prev.0.push(c).drop_last() =~= prev.0);
        assert(prev.0.push(c).last() == c);
    }
}

/// Width-solve law, over the dimensions `calculate_block_width` stores: the
/// seven solved horizontal quantities total exactly the containing block's
/// content width — in particular whenever `width` is auto or exactly one
/// horizontal margin is auto, and in fact in the over-constrained cases too.
pub proof fn lemma_applied_width_totals(d0: DimensionsV, m: Map<Seq<char>, ValueV>, cb_width: int)
    ensures
        ({
            let d = spec_apply_width(d0, spec_solve_width(m, cb_width));
            d.margin.left + d.border.left + d.padding.left + d.content.width + d.padding.right
                + d.border.right + d.margin.right == cb_width
        }),
{
    lemma_width_solve_totals(m, cb_width);
}

/// Vertical stacking law, as `layout_block_children` leaves a box whose
/// content height started at zero: block child `k` sits at the box's
/// content `y`, plus the margin-box heights of the `k` children laid out
/// before it, plus the child's own top margin, border and padding.
pub proof fn lemma_block_children_stacking(cs: Seq<LayoutBoxV>, d: DimensionsV, k: int)
    requires
        d.content.height == 0,
        0 <= k < cs.len(),
        cs[k].box_type is BlockNode,
    ensures
        ({
            let laid = spec_layout_children(cs, cs.len(), d).0;
            let m = box_props(cs[k]);
            laid.len() == cs.len() && laid[k].dimensions.content.y == d.content.y + mbh_sum(
                laid.subrange(0, k),
            ) + vp_mt(m) + vp_bt(m) + vp_pt(m)
        }),
{
    lemma_vertical_stacking(cs, d, k);
}

/// Width-solve law, over whole boxes: a laid-out block box's seven
/// horizontal quantities total exactly its containing block's content width.
pub proof fn lemma_resolved_block_totals(b: LayoutBoxV, cb: DimensionsV)
    requires
        b.box_type is BlockNode,
    ensures
        ({
            let d = spec_layout(b, cb).dimensions;
            d.margin.left + d.border.left + d.padding.left + d.content.width + d.padding.right
                + d.border.right + d.margin.right == cb.content.width
        }),
{
    let m = box_props(b);
    lemma_width_solve_totals(m, cb.content.width);
    let d1 = spec_apply_width(b.dimensions, spec_solve_width(m, cb.content.width));
    let d2 = spec_position(m, d1, cb);
    lemma_children_running_height(b.children, b.children.len(), d2);
}

/// The number of nodes in a style tree, its root included.
pub open spec fn styled_count(sn: StyledNodeV) -> nat
    decreases sn, 0nat,
{
    1 + styled_seq_count(sn.children)
}

/// The number of nodes in a style forest.
pub open spec fn styled_seq_count(cs: Seq<StyledNodeV>) -> nat
    decreases cs, 1nat,
{
    if cs.len() == 0 {
        0
    } else {
        styled_seq_count(cs.drop_last()) + styled_count(cs.last())
    }
}

/// Every style length in the whole style tree is at most `bound` pixels in
/// magnitude.
pub open spec fn styled_bounded(sn: StyledNodeV, bound: int) -> bool
    decreases sn, 0nat,
{
    map_bounded(sn.specified_values, bound) && styled_seq_bounded(sn.children, bound)
}

/// `styled_bounded`, over a forest.
pub open spec fn styled_seq_bounded(cs: Seq<StyledNodeV>, bound: int) -> bool
    decreases cs, 1nat,
{
    cs.len() == 0 || (styled_seq_bounded(cs.drop_last(), bound) && styled_bounded(
        cs.last(),
        bound,
    ))
}

/// Every tree of a bounded style forest is bounded.
proof fn lemma_styled_seq_element(cs: Seq<StyledNodeV>, bound: int, i: int)
    requires
        styled_seq_bounded(cs, bound),
        0 <= i < cs.len(),
    ensures
        styled_bounded(cs[i], bound),
    decreases cs.len(),
{
    if i < cs.len() - 1 {
        lemma_styled_seq_element(cs.drop_last(), bound, i);
    }
}

/// Building a layout box from a bounded style tree yields a fresh, bounded
/// box tree with fewer than twice as many boxes as there were style nodes.
proof fn lemma_build_built(sn: StyledNodeV, bound: int)
    requires
        styled_bounded(sn, bound),
        bound >= 0,
    ensures
        built_bounded(spec_build(sn), bound),
        box_count(spec_build(sn)) <= 2 * styled_count(sn) - 1,
    decreases sn, 0nat,
{
    let kind = spec_build(sn).box_type;
    lemma_build_children(sn.children, sn.children.len(), kind, bound);
    assert(sn.children.subrange(0, sn.children.len() as int) =~= sn.children);
}

/// The forest half of `lemma_build_built`: the boxes built from the first
/// `k` styled children are fresh and bounded, and at most twice as many as
/// those style nodes (anonymous wrappers included).
proof fn lemma_build_children(cs: Seq<StyledNodeV>, k: nat, kind: BoxTypeV, bound: int)
    requires
        styled_seq_bounded(cs, bound),
        bound >= 0,
        k <= cs.len(),
    ensures
        built_seq(spec_build_children(cs, k, kind), bound),
        boxes_count(spec_build_children(cs, k, kind)) <= 2 * styled_seq_count(
            cs.subrange(0, k as int),
        ),
    decreases cs, k,
{
    if k == 0 {
        assert(cs.subrange(0, 0) =~= Seq::<StyledNodeV>::empty());
    } else {
        lemma_build_children(cs, (k - 1) as nat, kind, bound);
        lemma_styled_seq_element(cs, bound, k - 1);
        let acc = spec_build_children(cs, (k - 1) as nat, kind);
        let child = cs[k - 1];
        assert(cs.subrange(0, k as int).drop_last() =~= cs.subrange(0, k - 1));
        assert(cs.subrange(0, k as int).last() == child);
        assert(styled_count(child) >= 1);
        match spec_display(child.specified_values) {
            Display::DisplayNone => {},
            Display::Block => {
                lemma_build_built(child, bound);
                let built = spec_build(child);
                assert(acc.push(built).drop_last() =~= acc);
                assert(acc.push(built).last() == built);
                assert(boxes_count(acc.push(built)) == boxes_count(acc) + box_count(built));
            },
            Display::Inline => {
                lemma_build_built(child, bound);
                let built = spec_build(child);
                let out = add_inline_child(acc, built, kind);
                if kind is BlockNode && acc.len() > 0 && acc.last().box_type is AnonymousBlock {
                    let anon = acc.last();
                    assert(built_bounded(anon, bound));
                    let anon2 = LayoutBoxV { children: anon.children.push(built), ..anon };
                    assert(anon.children.push(built).drop_last() =~= anon.children);
                    assert(built_bounded(anon2, bound));
                    assert(box_count(anon2) == box_count(anon) + box_count(built));
                    assert(out.drop_last() =~= acc.drop_last());
                    assert(out.last() == anon2);
                    assert(boxes_count(out) == boxes_count(acc) + box_count(built));
                } else if kind is BlockNode {
                    let anon = LayoutBoxV {
                        dimensions: dims_zero_v(),
                        box_type: BoxTypeV::AnonymousBlock,
                        children: seq![built],
                    };
                    assert(seq![built].drop_last() =~= Seq::<LayoutBoxV>::empty());
                    assert(seq![built].last() == built);
                    assert(built_seq(Seq::<LayoutBoxV>::empty(), bound));
                    assert(built_bounded(anon, bound));
                    assert(out.drop_last() =~= acc);
                    assert(out.last() == anon);
                    assert(boxes_count(Seq::<LayoutBoxV>::empty()) == 0);
                    assert(boxes_count(seq![built]) == box_count(built));
                    assert(box_count(anon) == 1 + box_count(built));
                    assert(boxes_count(out) == boxes_count(acc) + 1 + box_count(built));
                } else {
                    assert(out.drop_last() =~= acc);
                    assert(out.last() == built);
                    assert(boxes_count(out) == boxes_count(acc) + box_count(built));
                }
            },
        }
    }
}

/// A sufficient, easily checked condition for the layout arithmetic of a
/// whole document to fit in `i64`: every style length within
/// `PX_STYLE_LIMIT` pixels, at most half `BOX_COUNT_LIMIT` style nodes, and
/// viewport coordinates within `VIEWPORT_LIMIT`.
pub proof fn lemma_modest_document_fits(sn: StyledNodeV, cb: DimensionsV)
    requires
        styled_bounded(sn, PX_STYLE_LIMIT as int),
        2 * styled_count(sn) <= BOX_COUNT_LIMIT,
        -VIEWPORT_LIMIT <= cb.content.x <= VIEWPORT_LIMIT,
        -VIEWPORT_LIMIT <= cb.content.y <= VIEWPORT_LIMIT,
        -VIEWPORT_LIMIT <= cb.content.width <= VIEWPORT_LIMIT,
    ensures
        layout_fits(spec_build(sn), with_zero_height(cb)),
        laid_bounded(spec_layout(spec_build(sn), with_zero_height(cb)), GEOM_LIMIT as int),
{
    lemma_build_built(sn, PX_STYLE_LIMIT as int);
    lemma_built_fits(spec_build(sn), with_zero_height(cb));
}

/// Every length declared anywhere in the style tree is at most `bound`
/// pixels in magnitude — stated over the stored declarations themselves, so
/// a run-time scan can decide it.
pub open spec fn styled_lengths_bounded(n: StyledNode, bound: int) -> bool
    decreases n, 0nat,
{
    &&& (forall|i: int|
        0 <= i < n.specified_values.entries@.len() ==> -bound <= to_px_v(
            #[trigger] n.specified_values.entries@[i]@.value,
        ) <= bound)
    &&& styled_vec_lengths_bounded(n.children, n.children@.len(), bound)
}

/// `styled_lengths_bounded`, over the first `k` children.
pub open spec fn styled_vec_lengths_bounded(v: Vec<StyledNode>, k: nat, bound: int) -> bool
    decreases v, k,
{
    k == 0 || k > v@.len() || (styled_vec_lengths_bounded(v, (k - 1) as nat, bound)
        && styled_lengths_bounded(v[k - 1], bound))
}

/// `styled_vec_lengths_bounded` for a count covers every smaller count.
proof fn lemma_styled_vec_lengths_prefix(v: Vec<StyledNode>, k1: nat, k2: nat, bound: int)
    requires
        k1 <= k2 <= v@.len(),
        styled_vec_lengths_bounded(v, k2, bound),
    ensures
        styled_vec_lengths_bounded(v, k1, bound),
    decreases k2,
{
    if k1 < k2 {
        lemma_styled_vec_lengths_prefix(v, k1, (k2 - 1) as nat, bound);
    }
}

/// Declarations with bounded lengths denote a bounded property map.
proof fn lemma_props_map_bounded(ds: Seq<DeclarationV>, bound: int)
    requires
        forall|i: int| 0 <= i < ds.len() ==> -bound <= to_px_v(#[trigger] ds[i].value) <= bound,
    ensures
        map_bounded(props_map(ds), bound),
    decreases ds.len(),
{
    if ds.len() > 0 {
        assert(forall|i: int|
            0 <= i < ds.drop_last().len() ==> -bound <= to_px_v(
                #[trigger] ds.drop_last()[i].value,
            ) <= bound);
        lemma_props_map_bounded(ds.drop_last(), bound);
        assert(-bound <= to_px_v(ds[ds.len() - 1].value) <= bound);
    }
}

/// Bounded stored declarations give a bounded style tree model.
proof fn lemma_lengths_bounded_view(n: StyledNode, bound: int)
    requires
        styled_lengths_bounded(n, bound),
    ensures
        styled_bounded(styled_view(n), bound),
    decreases n, 0nat,
{
    let ds = crate::style::entries_view(n.specified_values.entries@);
    assert(forall|i: int|
        0 <= i < ds.len() ==> -bound <= to_px_v(#[trigger] ds[i].value) <= bound);
    lemma_props_map_bounded(ds, bound);
    lemma_lengths_bounded_children(n.children, n.children@.len(), bound);
}

/// `lemma_lengths_bounded_view`, over the first `k` children.
proof fn lemma_lengths_bounded_children(v: Vec<StyledNode>, k: nat, bound: int)
    requires
        k <= v@.len(),
        styled_vec_lengths_bounded(v, k, bound),
    ensures
        styled_seq_bounded(styled_seq_view(v, k), bound),
    decreases v, k,
{
    if k > 0 {
        lemma_lengths_bounded_children(v, (k - 1) as nat, bound);
        lemma_lengths_bounded_view(v[k - 1 as int], bound);
        let prev = styled_seq_view(v, (k - 1) as nat);
        assert(prev.push(styled_view(v[k - 1 as int])).drop_last() =~= prev);
    }
}

/// The number of style nodes, counted no further than `cap`.
fn count_capped(node: &StyledNode, cap: usize) -> (r: usize)
    ensures
        r == vstd::math::min(styled_count(styled_view(*node)) as int, cap as int),
    decreases *node,
{
    if cap == 0 {
        return 0;
    }
    let mut total: usize = 1;
    let mut i: usize = 0;
    #[verifier::loop_isolation(false)]
    while i < node.children.len()
        invariant
            i <= node.children@.len(),
            1 <= total <= cap,
            total as int == vstd::math::min(
                1 + styled_seq_count(styled_seq_view(node.children, i as nat)) as int,
                cap as int,
            ),
        decreases node.children@.len() - i,
    {
        let c = count_capped(&node.children[i], cap - total);
        proof {
            let prev = styled_seq_view(node.children, i as nat);
            let now = styled_seq_view(node.children, (i + 1) as nat);
            assert(now.drop_last() =~= prev);
            assert(now.last() == styled_view(node.children[i as int]));
            assert(styled_count(styled_view(node.children[i as int])) >= 1);
        }
        total = total + c;
        i = i + 1;
    }
    total
}

/// Does every declaration of the style tree keep its length within the
/// `PX_STYLE_LIMIT` the layout arithmetic is proved safe for?
fn lengths_ok(node: &StyledNode) -> (r: bool)
    ensures
        r == styled_lengths_bounded(*node, PX_STYLE_LIMIT as int),
    decreases *node,
{
    let mut i: usize = 0;
    #[verifier::loop_isolation(false)]
    while i < node.specified_values.entries.len()
        invariant
            i <= node.specified_values.entries@.len(),
            forall|j: int|
                0 <= j < i ==> -(PX_STYLE_LIMIT as int) <= to_px_v(
                    #[trigger] node.specified_values.entries@[j]@.value,
                ) <= PX_STYLE_LIMIT as int,
        decreases node.specified_values.entries@.len() - i,
    {
        let d = &node.specified_values.entries[i];
        match &d.value {
            Value::Length(n, _) => {
                if *n < -PX_STYLE_LIMIT || *n > PX_STYLE_LIMIT {
                    proof {
                        assert(to_px_v(node.specified_values.entries@[i as int]@.value)
                            == *n as int);
                    }
                    return false;
                }
            },
            _ => {},
        }
        i = i + 1;
    }
    let mut j: usize = 0;
    #[verifier::loop_isolation(false)]
    while j < node.children.len()
        invariant
            j <= node.children@.len(),
            styled_vec_lengths_bounded(node.children, j as nat, PX_STYLE_LIMIT as int),
        decreases node.children@.len() - j,
    {
        if !lengths_ok(&node.children[j]) {
            proof {
                if styled_lengths_bounded(*node, PX_STYLE_LIMIT as int) {
                    lemma_styled_vec_lengths_prefix(
                        node.children,
                        (j + 1) as nat,
                        node.children@.len(),
                        PX_STYLE_LIMIT as int,
                    );
                }
            }
            return false;
        }
        j = j + 1;
    }
    true
}

/// Decide, at run time, the sufficient condition of
/// `lemma_modest_document_fits`: every declared length within
/// `PX_STYLE_LIMIT` pixels, at most half `BOX_COUNT_LIMIT` style nodes, and
/// viewport coordinates within `VIEWPORT_LIMIT`. When it answers true, the
/// whole layout computation for this document fits in `i64`, and the
/// resulting geometry stays within `GEOM_LIMIT`, so the tree can also be
/// rendered and painted. Unverified callers can guard `layout_tree` with
/// this check and fail explicitly instead of relying on the precondition.
pub fn layout_precheck(node: &StyledNode, containing_block: Dimensions) -> (r: bool)
    ensures
        r == (styled_lengths_bounded(*node, PX_STYLE_LIMIT as int) && 2 * styled_count(
            styled_view(*node),
        ) <= BOX_COUNT_LIMIT && -VIEWPORT_LIMIT <= containing_block.content.x <= VIEWPORT_LIMIT
            && -VIEWPORT_LIMIT <= containing_block.content.y <= VIEWPORT_LIMIT && -VIEWPORT_LIMIT
            <= containing_block.content.width <= VIEWPORT_LIMIT),
        r ==> layout_fits(spec_build(styled_view(*node)), with_zero_height(containing_block@)),
        r ==> laid_bounded(
            spec_layout(spec_build(styled_view(*node)), with_zero_height(containing_block@)),
            GEOM_LIMIT as int,
        ),
{
    if containing_block.content.x < -VIEWPORT_LIMIT || containing_block.content.x > VIEWPORT_LIMIT
        || containing_block.content.y < -VIEWPORT_LIMIT || containing_block.content.y
        > VIEWPORT_LIMIT || containing_block.content.width < -VIEWPORT_LIMIT
        || containing_block.content.width > VIEWPORT_LIMIT {
        return false;
    }
    if !lengths_ok(node) {
        return false;
    }
    let c = count_capped(node, BOX_COUNT_LIMIT);
    if c + c > BOX_COUNT_LIMIT {
        return false;
    }
    proof {
        lemma_lengths_bounded_view(*node, PX_STYLE_LIMIT as int);
        lemma_modest_document_fits(styled_view(*node), containing_block@);
    }
    true
}

/// Anonymous-box law: a block node with one inline child followed by one
/// block child produces exactly two layout children: an anonymous block
/// wrapping the inline child's box, then the block child's box.
pub proof fn lemma_anonymous_box_insertion(parent: StyledNodeV, c1: StyledNodeV, c2: StyledNodeV)
    requires
        spec_display(parent.specified_values) == Display::Block,
        parent.children == seq![c1, c2],
        spec_display(c1.specified_values) == Display::Inline,
        spec_display(c2.specified_values) == Display::Block,
    ensures
        spec_build(parent).children.len() == 2,
        spec_build(parent).children[0].box_type is AnonymousBlock,
        spec_build(parent).children[0].children == seq![spec_build(c1)],
        spec_build(parent).children[1] == spec_build(c2),
{
    let kind = BoxTypeV::BlockNode(parent.specified_values);
    let cs = parent.children;
    assert(cs.len() == 2);
    assert(cs[0] == c1);
    assert(cs[1] == c2);
    assert(spec_build_children(cs, 0, kind) == Seq::<LayoutBoxV>::empty());
    let acc1 = spec_build_children(cs, 1, kind);
    assert(acc1 == add_inline_child(Seq::empty(), spec_build(c1), kind));
    let anon = LayoutBoxV {
        dimensions: dims_zero_v(),
        box_type: BoxTypeV::AnonymousBlock,
        children: seq![spec_build(c1)],
    };
    assert(acc1 =~= seq![anon]);
    let acc2 = spec_build_children(cs, 2, kind);
    assert(acc2 == acc1.push(spec_build(c2)));
    assert(spec_build(parent).children == acc2);
    assert(acc2[0] == anon);
    assert(acc2[1] == spec_build(c2));
}

} // verus!
