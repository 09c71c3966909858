//! Rasterisation: walk the laid-out box tree into a display list of solid
//! rectangles (each box's background, then its four borders, then its
//! children on top), and paint that list onto a pixel canvas, later
//! commands drawing over earlier ones.

use vstd::prelude::*;
use crate::css::{Color, Value, ValueV};
use crate::layout::{
    border_box_fits, border_box_v, box_view, in_i64, lemma_boxes_view, BoxType, LayoutBox,
    LayoutBoxV, Rect, RectV,
};

verus! {

/// One drawing operation: fill a rectangle with a solid color.
#[derive(Clone, Copy, PartialEq, Eq, Structural, Debug)]
pub enum DisplayCommand {
    SolidColor(Color, Rect),
}

/// The graphics operations to replay, in paint order.
pub type DisplayList = Vec<DisplayCommand>;

impl View for DisplayCommand {
    type V = (Color, RectV);

    open spec fn view(&self) -> (Color, RectV) {
        match self {
            DisplayCommand::SolidColor(c, r) => (*c, r@),
        }
    }
}

/// The models of a sequence of display commands.
pub open spec fn dl_view(s: Seq<DisplayCommand>) -> Seq<(Color, RectV)> {
    Seq::new(s.len(), |i: int| s[i]@)
}

/// The color bound to property `name`, if the box has a style and the value
/// is a color.
pub open spec fn spec_get_color(b: LayoutBoxV, name: Seq<char>) -> Option<Color> {
    match b.box_type {
        crate::layout::BoxTypeV::AnonymousBlock => None,
        _ => {
            let m = crate::layout::box_props(b);
            if m.contains_key(name) {
                match m[name] {
                    ValueV::ColorValue(c) => Some(c),
                    _ => None,
                }
            } else {
                None
            }
        },
    }
}

/// The background command of one box: its border box filled with its
/// `background` color, or nothing when no color is set.
pub open spec fn spec_render_background(b: LayoutBoxV) -> Seq<(Color, RectV)> {
    match spec_get_color(b, "background"@) {
        Some(color) => seq![(color, border_box_v(b.dimensions))],
        None => Seq::empty(),
    }
}

/// The border commands of one box: one rectangle per edge of its border
/// box, or nothing when no `border-color` is set.
pub open spec fn spec_render_borders(b: LayoutBoxV) -> Seq<(Color, RectV)> {
    match spec_get_color(b, "border-color"@) {
        None => Seq::empty(),
        Some(color) => {
            let d = b.dimensions;
            let bb = border_box_v(d);
            seq![
                (color, RectV { x: bb.x, y: bb.y, width: d.border.left, height: bb.height }),
                (
                    color,
                    RectV {
                        x: bb.x + bb.width - d.border.right,
                        y: bb.y,
                        width: d.border.right,
                        height: bb.height,
                    },
                ),
                (color, RectV { x: bb.x, y: bb.y, width: bb.width, height: d.border.top }),
                (
                    color,
                    RectV {
                        x: bb.x,
                        y: bb.y + bb.height - d.border.bottom,
                        width: bb.width,
                        height: d.border.bottom,
                    },
                ),
            ]
        },
    }
}

/// The display list of a box tree: background, borders, then the children's
/// lists in order, so children draw on top of their parent.
pub open spec fn spec_render_box(b: LayoutBoxV) -> Seq<(Color, RectV)>
    decreases b, 0nat,
{
    spec_render_background(b) + spec_render_borders(b) + spec_render_children(
        b.children,
        b.children.len(),
    )
}

/// The display lists of the first `k` boxes of a forest, concatenated.
pub open spec fn spec_render_children(cs: Seq<LayoutBoxV>, k: nat) -> Seq<(Color, RectV)>
    decreases cs, k,
{
    if k == 0 || k > cs.len() {
        Seq::empty()
    } else {
        spec_render_children(cs, (k - 1) as nat) + spec_render_box(cs[k - 1])
    }
}

/// The rendering arithmetic of one box fits in `i64`: the border box, and,
/// when borders are drawn, the corners derived from it.
pub open spec fn render_one_fits(b: LayoutBoxV) -> bool {
    let d = b.dimensions;
    let bb = border_box_v(d);
    &&& (spec_get_color(b, "background"@) is Some ==> border_box_fits(d))
    &&& (spec_get_color(b, "border-color"@) is Some ==> border_box_fits(d) && in_i64(
        bb.x + bb.width,
    ) && in_i64(bb.x + bb.width - d.border.right) && in_i64(bb.y + bb.height) && in_i64(
        bb.y + bb.height - d.border.bottom,
    ))
}

/// The rendering arithmetic of a whole box tree fits in `i64`.
pub open spec fn paint_fits(b: LayoutBoxV) -> bool
    decreases b, 0nat,
{
    render_one_fits(b) && paint_children_fits(b.children, b.children.len())
}

/// The rendering arithmetic of the first `k` boxes of a forest fits.
pub open spec fn paint_children_fits(cs: Seq<LayoutBoxV>, k: nat) -> bool
    decreases cs, k,
{
    if k == 0 || k > cs.len() {
        true
    } else {
        paint_children_fits(cs, (k - 1) as nat) && paint_fits(cs[k - 1])
    }
}

/// `paint_children_fits` of a count covers every smaller count.
proof fn lemma_paint_fits_prefix(cs: Seq<LayoutBoxV>, k1: nat, k2: nat)
    requires
        k1 <= k2 <= cs.len(),
        paint_children_fits(cs, k2),
    ensures
        paint_children_fits(cs, k1),
    decreases k2,
{
    if k1 < k2 {
        lemma_paint_fits_prefix(cs, k1, (k2 - 1) as nat);
    }
}

/// Every command of the sequence keeps its clipping arithmetic in `i64`.
pub open spec fn cmds_fit(s: Seq<(Color, RectV)>) -> bool {
    forall|i: int| 0 <= i < s.len() ==> cmd_fits(#[trigger] s[i])
}

/// Commands that fit, concatenated, still fit.
proof fn lemma_cmds_fit_add(a: Seq<(Color, RectV)>, b: Seq<(Color, RectV)>)
    requires
        cmds_fit(a),
        cmds_fit(b),
    ensures
        cmds_fit(a + b),
{
    assert forall|i: int| 0 <= i < (a + b).len() implies cmd_fits(#[trigger] (a + b)[i]) by {
        if i < a.len() {
            assert((a + b)[i] == a[i]);
        } else {
            assert((a + b)[i] == b[i - a.len()]);
        }
    }
}

/// A box tree whose geometry is within `GEOM_LIMIT` can be rendered and
/// painted: the rendering arithmetic fits, and so does the clipping
/// arithmetic of every command it produces.
pub proof fn lemma_bounded_paint_fits(b: LayoutBoxV)
    requires
        crate::layout::laid_bounded(b, crate::layout::GEOM_LIMIT as int),
    ensures
        paint_fits(b),
        cmds_fit(spec_render_box(b)),
    decreases b, 0nat,
{
    lemma_bounded_paint_children(b.children, b.children.len());
    assert(cmds_fit(spec_render_background(b)));
    assert(cmds_fit(spec_render_borders(b)));
    lemma_cmds_fit_add(spec_render_background(b), spec_render_borders(b));
    lemma_cmds_fit_add(
        spec_render_background(b) + spec_render_borders(b),
        spec_render_children(b.children, b.children.len()),
    );
}

/// `lemma_bounded_paint_fits`, over the first `k` boxes of a forest.
proof fn lemma_bounded_paint_children(cs: Seq<LayoutBoxV>, k: nat)
    requires
        crate::layout::laid_seq_bounded(cs, crate::layout::GEOM_LIMIT as int),
        k <= cs.len(),
    ensures
        paint_children_fits(cs, k),
        cmds_fit(spec_render_children(cs, k)),
    decreases cs, k,
{
    if k == 0 {
        assert(cmds_fit(Seq::<(Color, RectV)>::empty()));
    } else {
        lemma_bounded_paint_children(cs, (k - 1) as nat);
        crate::layout::lemma_laid_seq_element(cs, crate::layout::GEOM_LIMIT as int, k - 1);
        lemma_bounded_paint_fits(cs[k - 1]);
        lemma_cmds_fit_add(spec_render_children(cs, (k - 1) as nat), spec_render_box(cs[k - 1]));
    }
}

/// The specified color for CSS property `name` of this box, or `None` if no
/// color was specified (anonymous boxes have no style at all).
pub fn get_color(layout_box: &LayoutBox, name: &str) -> (r: Option<Color>)
    ensures
        r == spec_get_color(box_view(*layout_box), name@),
{
    match &layout_box.box_type {
        BoxType::BlockNode(style) | BoxType::InlineNode(style) => match style.value(name) {
            Some(Value::ColorValue(color)) => Some(color),
            _ => None,
        },
        BoxType::AnonymousBlock => None,
    }
}

/// Append the box's background fill, if it has one.
fn render_background(list: &mut DisplayList, layout_box: &LayoutBox)
    requires
        spec_get_color(box_view(*layout_box), "background"@) is Some ==> border_box_fits(
            box_view(*layout_box).dimensions,
        ),
    ensures
        dl_view(final(list)@) == dl_view(old(list)@) + spec_render_background(
            box_view(*layout_box),
        ),
{
    let ghost before = dl_view(list@);
    match get_color(layout_box, "background") {
        Some(color) => {
            list.push(DisplayCommand::SolidColor(color, layout_box.dimensions.border_box()));
            proof {
                assert(dl_view(list@) =~= before + spec_render_background(
                    box_view(*layout_box),
                ));
            }
        },
        None => {
            proof {
                assert(dl_view(list@) =~= before + spec_render_background(
                    box_view(*layout_box),
                ));
            }
        },
    }
}

/// Append the box's four border rectangles, if it has a border color.
fn render_borders(list: &mut DisplayList, layout_box: &LayoutBox)
    requires
        render_one_fits(box_view(*layout_box)),
    ensures
        dl_view(final(list)@) == dl_view(old(list)@) + spec_render_borders(box_view(*layout_box)),
{
    let ghost before = dl_view(list@);
    let color = match get_color(layout_box, "border-color") {
        Some(color) => color,
        None => {
            proof {
                assert(dl_view(list@) =~= before + spec_render_borders(box_view(*layout_box)));
            }
            return ;
        },
    };
    let d = &layout_box.dimensions;
    let border_box = d.border_box();
    // Left border.
    list.push(
        DisplayCommand::SolidColor(
            color,
            Rect {
                x: border_box.x,
                y: border_box.y,
                width: d.border.left,
                height: border_box.height,
            },
        ),
    );
    // Right border.
    list.push(
        DisplayCommand::SolidColor(
            color,
            Rect {
                x: border_box.x + border_box.width - d.border.right,
                y: border_box.y,
                width: d.border.right,
                height: border_box.height,
            },
        ),
    );
    // Top border.
    list.push(
        DisplayCommand::SolidColor(
            color,
            Rect {
                x: border_box.x,
                y: border_box.y,
                width: border_box.width,
                height: d.border.top,
            },
        ),
    );
    // Bottom border.
    list.push(
        DisplayCommand::SolidColor(
            color,
            Rect {
                x: border_box.x,
                y: border_box.y + border_box.height - d.border.bottom,
                width: border_box.width,
                height: d.border.bottom,
            },
        ),
    );
    proof {
        assert(dl_view(list@) =~= before + spec_render_borders(box_view(*layout_box)));
    }
}

/// Append the commands for a box and, after them, those of its children.
fn render_layout_box(list: &mut DisplayList, layout_box: &LayoutBox)
    requires
        paint_fits(box_view(*layout_box)),
    ensures
        dl_view(final(list)@) == dl_view(old(list)@) + spec_render_box(box_view(*layout_box)),
    decreases *layout_box,
{
    let ghost bv = box_view(*layout_box);
    render_background(list, layout_box);
    render_borders(list, layout_box);
    let ghost head = dl_view(old(list)@) + spec_render_background(bv) + spec_render_borders(bv);
    proof {
        assert(dl_view(list@) == head);
        lemma_boxes_view(layout_box.children, layout_box.children@.len());
    }
    let mut i: usize = 0;
    #[verifier::loop_isolation(false)]
    while i < layout_box.children.len()
        invariant
            i <= layout_box.children@.len(),
            dl_view(list@) == head + spec_render_children(bv.children, i as nat),
        decreases layout_box.children@.len() - i,
    {
        proof {
            lemma_paint_fits_prefix(bv.children, (i + 1) as nat, bv.children.len());
        }
        render_layout_box(list, &layout_box.children[i]);
        i = i + 1;
    }
}

/// Clamp `v` into `[0, hi]`.
pub open spec fn clamp_v(v: int, hi: int) -> int {
    if v < 0 {
        0
    } else if v > hi {
        hi
    } else {
        v
    }
}

/// Clamp `v` into `[0, hi]`.
fn clamp_px(v: i64, hi: i64) -> (r: i64)
    requires
        hi >= 0,
    ensures
        r == clamp_v(v as int, hi as int),
{
    if v < 0 {
        0
    } else if v > hi {
        hi
    } else {
        v
    }
}

/// Does the command paint the pixel at `(x, y)` of a `w` by `h` canvas?
/// Its rectangle is clipped to the canvas first.
pub open spec fn covered(cmd: (Color, RectV), x: int, y: int, w: int, h: int) -> bool {
    let r = cmd.1;
    &&& clamp_v(r.x, w) <= x < clamp_v(r.x + r.width, w)
    &&& clamp_v(r.y, h) <= y < clamp_v(r.y + r.height, h)
}

/// Opaque white, the canvas background.
pub open spec fn white_v() -> Color {
    Color { r: 255, g: 255, b: 255, a: 255 }
}

/// The color of the pixel at `(x, y)` after replaying the commands in
/// order: the color of the last command covering it, or white.
pub open spec fn spec_pixel(cmds: Seq<(Color, RectV)>, x: int, y: int, w: int, h: int) -> Color
    decreases cmds.len(),
{
    if cmds.len() == 0 {
        white_v()
    } else if covered(cmds.last(), x, y, w, h) {
        cmds.last().0
    } else {
        spec_pixel(cmds.drop_last(), x, y, w, h)
    }
}

/// The command's clipping arithmetic fits in an `i64`.
pub open spec fn cmd_fits(cmd: (Color, RectV)) -> bool {
    in_i64(cmd.1.x + cmd.1.width) && in_i64(cmd.1.y + cmd.1.height)
}

/// A pixel canvas, rows stored top to bottom in one flat vector.
pub struct Canvas {
    pub pixels: Vec<Color>,
    pub width: usize,
    pub height: usize,
}

/// The pixel at `(x, y)` of a row-major pixel store of row length `w`.
pub open spec fn pix_at(s: Seq<Color>, w: int, x: int, y: int) -> Color {
    s[y * w + x]
}

/// Distinct pixel coordinates have distinct row-major indices.
proof fn lemma_row_major_injective(w: int, x1: int, y1: int, x2: int, y2: int)
    requires
        0 <= x1 < w,
        0 <= x2 < w,
        0 <= y1,
        0 <= y2,
        y1 * w + x1 == y2 * w + x2,
    ensures
        x1 == x2 && y1 == y2,
{
    assert(x1 == x2 && y1 == y2) by (nonlinear_arith)
        requires
            0 <= x1 < w,
            0 <= x2 < w,
            0 <= y1,
            0 <= y2,
            y1 * w + x1 == y2 * w + x2,
    ;
}

impl Canvas {
    /// The canvas's shape is consistent: one pixel per cell, and both sides
    /// small enough for pixel coordinates to be done in `i64`.
    pub open spec fn wf(&self) -> bool {
        &&& self.pixels@.len() == self.width * self.height
        &&& self.width * self.height <= usize::MAX
        &&& self.width <= i64::MAX
        &&& self.height <= i64::MAX
    }

    /// A blank, all-white canvas.
    pub fn new(width: usize, height: usize) -> (r: Canvas)
        requires
            width * height <= usize::MAX,
            width <= i64::MAX,
            height <= i64::MAX,
        ensures
            r.wf(),
            r.width == width,
            r.height == height,
            forall|i: int| 0 <= i < r.pixels@.len() ==> r.pixels@[i] == white_v(),
    {
        let n = width * height;
        let mut pixels: Vec<Color> = Vec::new();
        let mut i: usize = 0;
        while i < n
            invariant
                i <= n,
                pixels@.len() == i,
                forall|j: int| 0 <= j < i ==> pixels@[j] == white_v(),
            decreases n - i,
        {
            pixels.push(Color { r: 255, g: 255, b: 255, a: 255 });
            i = i + 1;
        }
        Canvas { width, height, pixels }
    }

    /// Replay one command: fill its rectangle, clipped to the canvas, with
    /// its color; every other pixel keeps its value.
    pub fn paint_item(&mut self, item: &DisplayCommand)
        requires
            old(self).wf(),
            cmd_fits(item@),
        ensures
            final(self).wf(),
            final(self).width == old(self).width,
            final(self).height == old(self).height,
            forall|x: int, y: int|
                0 <= x < old(self).width && 0 <= y < old(self).height && covered(
                    item@,
                    x,
                    y,
                    old(self).width as int,
                    old(self).height as int,
                ) ==> #[trigger] pix_at(final(self).pixels@, old(self).width as int, x, y)
                    == item@.0,
            forall|x: int, y: int|
                0 <= x < old(self).width && 0 <= y < old(self).height && !covered(
                    item@,
                    x,
                    y,
                    old(self).width as int,
                    old(self).height as int,
                ) ==> #[trigger] pix_at(final(self).pixels@, old(self).width as int, x, y)
                    == pix_at(old(self).pixels@, old(self).width as int, x, y),
    {
        let ghost w = self.width as int;
        let ghost h = self.height as int;
        let ghost pix0 = self.pixels@;
        let wi = self.width as i64;
        let hi = self.height as i64;
        match *item {
            DisplayCommand::SolidColor(color, rect) => {
                let x0 = clamp_px(rect.x, wi) as usize;
                let y0 = clamp_px(rect.y, hi) as usize;
                let x1 = clamp_px(rect.x + rect.width, wi) as usize;
                let y1 = clamp_px(rect.y + rect.height, hi) as usize;
                let mut y: usize = y0;
                #[verifier::loop_isolation(false)]
                while y < y1
                    invariant
                        y0 <= y <= y1 || y == y0,
                        self.width == old(self).width,
                        self.height == old(self).height,
                        self.pixels@.len() == pix0.len(),
                        forall|xx: int, yy: int|
                            0 <= xx < w && 0 <= yy < h && covered(item@, xx, yy, w, h) && yy
                                < y ==> #[trigger] pix_at(self.pixels@, w, xx, yy) == item@.0,
                        forall|xx: int, yy: int|
                            0 <= xx < w && 0 <= yy < h && !(covered(item@, xx, yy, w, h) && yy
                                < y) ==> #[trigger] pix_at(self.pixels@, w, xx, yy) == pix_at(
                                pix0,
                                w,
                                xx,
                                yy,
                            ),
                    decreases y1 - y,
                {
                    let mut x: usize = x0;
                    #[verifier::loop_isolation(false)]
                    while x < x1
                        invariant
                            x0 <= x <= x1 || x == x0,
                            y < y1,
                            self.width == old(self).width,
                            self.height == old(self).height,
                            self.pixels@.len() == pix0.len(),
                            forall|xx: int, yy: int|
                                0 <= xx < w && 0 <= yy < h && covered(item@, xx, yy, w, h) && (
                                yy < y || (yy == y && xx < x)) ==> #[trigger] pix_at(
                                    self.pixels@,
                                    w,
                                    xx,
                                    yy,
                                ) == item@.0,
                            forall|xx: int, yy: int|
                                0 <= xx < w && 0 <= yy < h && !(covered(item@, xx, yy, w, h) && (
                                yy < y || (yy == y && xx < x))) ==> #[trigger] pix_at(
                                    self.pixels@,
                                    w,
                                    xx,
                                    yy,
                                ) == pix_at(pix0, w, xx, yy),
                        decreases x1 - x,
                    {
                        proof {
                            assert((y as int) * w + (x as int) < h * w && (y as int) * w + (
                            x as int) >= 0) by (nonlinear_arith)
                                requires
                                    0 <= (y as int) < h,
                                    0 <= (x as int) < w,
                            ;
                            assert(h * w == w * h) by (nonlinear_arith);
                        }
                        let idx = y * self.width + x;
                        let ghost before = self.pixels@;
                        self.pixels[idx] = color;
                        proof {
                            assert(covered(item@, x as int, y as int, w, h));
                            assert(pix_at(self.pixels@, w, x as int, y as int) == item@.0);
                            assert forall|xx: int, yy: int|
                                0 <= xx < w && 0 <= yy < h && !(xx == x as int && yy
                                    == y as int) implies #[trigger] pix_at(self.pixels@, w, xx, yy)
                                == pix_at(before, w, xx, yy) by {
                                assert(0 <= yy * w + xx < before.len()) by (nonlinear_arith)
                                    requires
                                        0 <= xx < w,
                                        0 <= yy < h,
                                        before.len() == w * h,
                                ;
                                if yy * w + xx == (y as int) * w + (x as int) {
                                    lemma_row_major_injective(w, xx, yy, x as int, y as int);
                                }
                            }
                        }
                        x = x + 1;
                    }
                    y = y + 1;
                }
                proof {
                    assert forall|xx: int, yy: int|
                        0 <= xx < w && 0 <= yy < h && covered(
                            item@,
                            xx,
                            yy,
                            w,
                            h,
                        ) implies #[trigger] pix_at(self.pixels@, w, xx, yy) == item@.0 by {
                        assert(yy < y1 as int);
                        assert(yy < y as int);
                    }
                }
            },
        }
    }
}

/// Paint a laid-out box tree onto a fresh canvas of the given bounds: build
/// its display list, then replay every command in order.
pub fn paint(layout_root: &LayoutBox, bounds: Rect) -> (r: Canvas)
    requires
        paint_fits(box_view(*layout_root)),
        bounds.width >= 0,
        bounds.height >= 0,
        bounds.width * bounds.height <= usize::MAX,
        bounds.width <= usize::MAX,
        bounds.height <= usize::MAX,
        cmds_fit(spec_render_box(box_view(*layout_root))),
    ensures
        r.wf(),
        r.width == bounds.width as usize,
        r.height == bounds.height as usize,
        forall|x: int, y: int|
            0 <= x < r.width && 0 <= y < r.height ==> #[trigger] pix_at(
                r.pixels@,
                r.width as int,
                x,
                y,
            ) == spec_pixel(
                spec_render_box(box_view(*layout_root)),
                x,
                y,
                r.width as int,
                r.height as int,
            ),
{
    let ghost cmds = spec_render_box(box_view(*layout_root));
    let display_list = build_display_list(layout_root);
    let mut canvas = Canvas::new(bounds.width as usize, bounds.height as usize);
    let ghost w = canvas.width as int;
    let ghost h = canvas.height as int;
    proof {
        assert(cmds.subrange(0, 0) =~= Seq::<(Color, RectV)>::empty());
        assert forall|x: int, y: int| 0 <= x < w && 0 <= y < h implies #[trigger] pix_at(
            canvas.pixels@,
            w,
            x,
            y,
        ) == spec_pixel(cmds.subrange(0, 0), x, y, w, h) by {
            assert(0 <= y * w + x < w * h) by (nonlinear_arith)
                requires
                    0 <= x < w,
                    0 <= y < h,
            ;
        }
    }
    let mut i: usize = 0;
    #[verifier::loop_isolation(false)]
    while i < display_list.len()
        invariant
            i <= display_list@.len(),
            canvas.wf(),
            canvas.width == bounds.width as usize,
            canvas.height == bounds.height as usize,
            forall|x: int, y: int|
                0 <= x < w && 0 <= y < h ==> #[trigger] pix_at(canvas.pixels@, w, x, y)
                    == spec_pixel(cmds.subrange(0, i as int), x, y, w, h),
        decreases display_list@.len() - i,
    {
        proof {
            assert(dl_view(display_list@)[i as int] == cmds[i as int]);
        }
        let ghost prev = canvas.pixels@;
        canvas.paint_item(&display_list[i]);
        proof {
            let pre = cmds.subrange(0, i as int + 1);
            assert(pre.drop_last() =~= cmds.subrange(0, i as int));
            assert(pre.last() == cmds[i as int]);
            assert forall|x: int, y: int| 0 <= x < w && 0 <= y < h implies #[trigger] pix_at(
                canvas.pixels@,
                w,
                x,
                y,
            ) == spec_pixel(pre, x, y, w, h) by {
                assert(pix_at(prev, w, x, y) == spec_pixel(cmds.subrange(0, i as int), x, y, w, h));
            }
        }
        i = i + 1;
    }
    proof {
        assert(cmds.subrange(0, cmds.len() as int) =~= cmds);
    }
    canvas
}

/// Walk the layout tree into its display list.
pub fn build_display_list(layout_root: &LayoutBox) -> (r: DisplayList)
    requires
        paint_fits(box_view(*layout_root)),
    ensures
        dl_view(r@) == spec_render_box(box_view(*layout_root)),
{
    let mut list: DisplayList = Vec::new();
    proof {
        assert(dl_view(list@) =~= Seq::<(Color, RectV)>::empty());
    }
    render_layout_box(&mut list, layout_root);
    list
}

} // verus!
