//! Block layout geometry and rasterisation.

use robinson::css::{Color, Unit, Value};
use robinson::layout::{
    build_layout_tree, layout_precheck, layout_tree, BoxType, Dimensions, EdgeSizes, LayoutBox,
    LayoutError, Rect,
};
use robinson::painting::{build_display_list, get_color, paint, Canvas, DisplayCommand};
use robinson::style::{PropertyMap, StyledNode};

fn s(v: &str) -> String {
    v.to_string()
}

fn props(pairs: &[(&str, Value)]) -> PropertyMap {
    let mut m = PropertyMap::new();
    for (k, v) in pairs {
        m.insert(s(k), v.dup());
    }
    m
}

fn px(n: i64) -> Value {
    Value::Length(n, Unit::Px)
}

fn kw(v: &str) -> Value {
    Value::Keyword(s(v))
}

fn block(pairs: &[(&str, Value)], children: Vec<StyledNode>) -> StyledNode {
    let mut all: Vec<(&str, Value)> = vec![("display", kw("block"))];
    all.extend(pairs.iter().map(|(k, v)| (*k, v.dup())));
    StyledNode { specified_values: props(&all), children }
}

fn inline(pairs: &[(&str, Value)], children: Vec<StyledNode>) -> StyledNode {
    StyledNode { specified_values: props(pairs), children }
}

fn viewport(width: i64, height: i64) -> Dimensions {
    let mut d = Dimensions::default();
    d.content = Rect { x: 0, y: 0, width, height };
    d
}

#[test]
fn auto_width_fills_container() {
    // One block child with `width: auto` and zero edges in an 800-wide
    // containing block takes the full 800 and sits at the container origin.
    let root = block(&[], vec![]);
    let laid = layout_tree(&root, viewport(800, 600)).expect("layout should succeed");
    assert_eq!(laid.dimensions.content.width, 800);
    assert_eq!(laid.dimensions.content.x, 0);
    assert_eq!(laid.dimensions.content.y, 0);
    assert_eq!(laid.dimensions.content.height, 0);
}

#[test]
fn two_stacked_children_accumulate_height() {
    // Two stacked block children with explicit heights 100 and 50 and zero
    // margins: the second starts where the first ended, and the parent's
    // height (with `height` unset) is their total.
    let root = block(
        &[],
        vec![block(&[("height", px(100))], vec![]), block(&[("height", px(50))], vec![])],
    );
    let laid = layout_tree(&root, viewport(800, 600)).expect("layout should succeed");
    assert_eq!(laid.children.len(), 2);
    let first = &laid.children[0];
    let second = &laid.children[1];
    assert_eq!(first.dimensions.content.y, 0);
    assert_eq!(first.dimensions.content.height, 100);
    assert_eq!(second.dimensions.content.y, first.dimensions.content.y + 100);
    assert_eq!(laid.dimensions.content.height, 150);
}

#[test]
fn width_solve_totals_container_width() {
    // width fixed, margins auto: the leftover space splits evenly.
    let root = block(
        &[("width", px(600)), ("margin-left", kw("auto")), ("margin-right", kw("auto"))],
        vec![],
    );
    let laid = layout_tree(&root, viewport(800, 600)).expect("layout should succeed");
    let d = laid.dimensions;
    assert_eq!(d.content.width, 600);
    assert_eq!(d.margin.left, 100);
    assert_eq!(d.margin.right, 100);
    assert_eq!(d.content.x, 100);
    assert_eq!(
        d.margin.left + d.border.left + d.padding.left + d.content.width + d.padding.right
            + d.border.right + d.margin.right,
        800,
    );
}

#[test]
fn one_auto_margin_absorbs_underflow() {
    let root = block(&[("width", px(700)), ("margin-left", kw("auto"))], vec![]);
    let laid = layout_tree(&root, viewport(800, 600)).expect("layout should succeed");
    assert_eq!(laid.dimensions.margin.left, 100);
    assert_eq!(laid.dimensions.margin.right, 0);
    assert_eq!(laid.dimensions.content.x, 100);
}

#[test]
fn overconstrained_box_pushes_underflow_into_right_margin() {
    let root = block(&[("width", px(900)), ("margin-right", px(10))], vec![]);
    let laid = layout_tree(&root, viewport(800, 600)).expect("layout should succeed");
    // 900 + 10 leaves -110 of space: the right margin absorbs it and goes
    // negative.
    assert_eq!(laid.dimensions.content.width, 900);
    assert_eq!(laid.dimensions.margin.right, -100);
}

#[test]
fn auto_width_with_overflow_clamps_to_zero() {
    let root = block(&[("padding-left", px(500)), ("padding-right", px(500))], vec![]);
    let laid = layout_tree(&root, viewport(800, 600)).expect("layout should succeed");
    assert_eq!(laid.dimensions.content.width, 0);
    assert_eq!(laid.dimensions.margin.right, -200);
    assert_eq!(laid.dimensions.padding.left, 500);
    assert_eq!(laid.dimensions.padding.right, 500);
}

#[test]
fn auto_margins_forced_to_zero_when_overconstrained() {
    let root = block(
        &[("width", px(900)), ("margin-left", kw("auto")), ("margin-right", kw("auto"))],
        vec![],
    );
    let laid = layout_tree(&root, viewport(800, 600)).expect("layout should succeed");
    assert_eq!(laid.dimensions.margin.left, 0);
    assert_eq!(laid.dimensions.margin.right, -100);
}

#[test]
fn edges_offset_position_and_shrink_auto_width() {
    let root = block(&[], vec![block(
        &[
            ("margin-left", px(10)),
            ("border-left-width", px(2)),
            ("padding-left", px(5)),
            ("margin-top", px(20)),
            ("border-top-width", px(3)),
            ("padding-top", px(4)),
            ("height", px(50)),
        ],
        vec![],
    )]);
    let laid = layout_tree(&root, viewport(800, 600)).expect("layout should succeed");
    let child = &laid.children[0];
    assert_eq!(child.dimensions.content.x, 10 + 2 + 5);
    assert_eq!(child.dimensions.content.y, 20 + 3 + 4);
    assert_eq!(child.dimensions.content.width, 800 - 10 - 2 - 5);
    // The parent's height is the child's margin-box height.
    assert_eq!(laid.dimensions.content.height, 50 + 20 + 3 + 4);
}

#[test]
fn anonymous_block_wraps_inline_before_block() {
    // One inline child followed by one block child: exactly two layout
    // children, an anonymous block holding the inline box, then the block.
    let root = block(&[], vec![inline(&[], vec![]), block(&[], vec![])]);
    let tree = build_layout_tree(&root).expect("root is a block");
    assert_eq!(tree.children.len(), 2);
    assert!(matches!(tree.children[0].box_type, BoxType::AnonymousBlock));
    assert_eq!(tree.children[0].children.len(), 1);
    assert!(matches!(tree.children[0].children[0].box_type, BoxType::InlineNode(_)));
    assert!(matches!(tree.children[1].box_type, BoxType::BlockNode(_)));
}

#[test]
fn consecutive_inline_children_share_one_anonymous_block() {
    let root = block(&[], vec![inline(&[], vec![]), inline(&[], vec![]), block(&[], vec![])]);
    let tree = build_layout_tree(&root).expect("root is a block");
    assert_eq!(tree.children.len(), 2);
    assert!(matches!(tree.children[0].box_type, BoxType::AnonymousBlock));
    assert_eq!(tree.children[0].children.len(), 2);
}

#[test]
fn display_none_children_are_dropped() {
    let root = block(&[], vec![
        block(&[("height", px(10))], vec![]),
        StyledNode { specified_values: props(&[("display", kw("none"))]), children: vec![] },
        block(&[("height", px(20))], vec![]),
    ]);
    let tree = build_layout_tree(&root).expect("root is a block");
    assert_eq!(tree.children.len(), 2);
}

#[test]
fn root_display_none_is_an_error() {
    let root = StyledNode {
        specified_values: props(&[("display", kw("none"))]),
        children: vec![],
    };
    assert!(matches!(layout_tree(&root, viewport(800, 600)), Err(LayoutError::RootDisplayNone)));
    assert!(matches!(build_layout_tree(&root), Err(LayoutError::RootDisplayNone)));
}

#[test]
fn inline_boxes_keep_zero_dimensions() {
    let root = inline(&[], vec![]);
    let laid = layout_tree(&root, viewport(800, 600)).expect("inline root is allowed");
    assert_eq!(laid.dimensions, Dimensions::default());
}

#[test]
fn layout_precheck_accepts_modest_documents() {
    let root = block(
        &[("width", px(600))],
        vec![block(&[("height", px(100))], vec![]), inline(&[], vec![])],
    );
    assert!(layout_precheck(&root, viewport(800, 600)));
}

#[test]
fn layout_precheck_rejects_oversized_inputs() {
    // A declared length beyond the supported pixel bound.
    let huge = block(&[("width", px(1 << 40))], vec![]);
    assert!(!layout_precheck(&huge, viewport(800, 600)));
    // A viewport coordinate beyond the supported bound.
    let root = block(&[], vec![]);
    assert!(!layout_precheck(&root, viewport(i64::MAX, 600)));
}

#[test]
fn margin_box_of_zero_edges_is_content() {
    let mut d = Dimensions::default();
    d.content = Rect { x: 7, y: 9, width: 40, height: 30 };
    assert_eq!(d.margin_box(), d.content);
    assert_eq!(d.border_box(), d.content);
    assert_eq!(d.padding_box(), d.content);
}

#[test]
fn expand_then_shrink_restores_rectangle() {
    let r = Rect { x: 10, y: 20, width: 30, height: 40 };
    let e = EdgeSizes { left: 1, right: 2, top: 3, bottom: 4 };
    let grown = r.expanded_by(e);
    assert_eq!(grown, Rect { x: 9, y: 17, width: 33, height: 47 });
    let neg = EdgeSizes { left: -1, right: -2, top: -3, bottom: -4 };
    assert_eq!(grown.expanded_by(neg), r);
}

#[test]
fn margin_box_grows_through_all_layers() {
    let d = Dimensions {
        content: Rect { x: 10, y: 10, width: 100, height: 50 },
        padding: EdgeSizes { left: 1, right: 1, top: 1, bottom: 1 },
        border: EdgeSizes { left: 2, right: 2, top: 2, bottom: 2 },
        margin: EdgeSizes { left: 3, right: 3, top: 3, bottom: 3 },
    };
    assert_eq!(d.padding_box(), Rect { x: 9, y: 9, width: 102, height: 52 });
    assert_eq!(d.border_box(), Rect { x: 7, y: 7, width: 106, height: 56 });
    assert_eq!(d.margin_box(), Rect { x: 4, y: 4, width: 112, height: 62 });
}

fn red() -> Color {
    Color { r: 255, g: 0, b: 0, a: 255 }
}

fn white() -> Color {
    Color { r: 255, g: 255, b: 255, a: 255 }
}

#[test]
fn get_color_reads_style_and_anonymous_has_none() {
    let styled = block(&[("background", Value::ColorValue(red()))], vec![]);
    let tree = build_layout_tree(&styled).expect("root is a block");
    assert_eq!(get_color(&tree, "background"), Some(red()));
    assert_eq!(get_color(&tree, "border-color"), None);
    let anon = LayoutBox::new(BoxType::AnonymousBlock);
    assert_eq!(get_color(&anon, "background"), None);
}

#[test]
fn display_list_paints_background_then_borders() {
    let styled = block(
        &[
            ("background", Value::ColorValue(red())),
            ("border-color", Value::ColorValue(white())),
            ("border-left-width", px(1)),
            ("height", px(10)),
        ],
        vec![],
    );
    let laid = layout_tree(&styled, viewport(100, 100)).expect("layout should succeed");
    let list = build_display_list(&laid);
    // One background rectangle and four border rectangles.
    assert_eq!(list.len(), 5);
    let DisplayCommand::SolidColor(c0, r0) = &list[0];
    assert_eq!(*c0, red());
    assert_eq!(*r0, Rect { x: 0, y: 0, width: 100, height: 10 });
    let DisplayCommand::SolidColor(c1, r1) = &list[1];
    assert_eq!(*c1, white());
    assert_eq!(*r1, Rect { x: 0, y: 0, width: 1, height: 10 });
}

#[test]
fn display_list_without_colors_is_empty() {
    let styled = block(&[("height", px(10))], vec![]);
    let laid = layout_tree(&styled, viewport(100, 100)).expect("layout should succeed");
    assert_eq!(build_display_list(&laid).len(), 0);
}

#[test]
fn canvas_starts_all_white() {
    let canvas = Canvas::new(3, 2);
    assert_eq!(canvas.width, 3);
    assert_eq!(canvas.height, 2);
    assert_eq!(canvas.pixels.len(), 6);
    assert!(canvas.pixels.iter().all(|p| *p == white()));
}

#[test]
fn paint_item_fills_and_clips() {
    let mut canvas = Canvas::new(4, 4);
    // A rectangle hanging off the right and bottom edges is clipped.
    let cmd = DisplayCommand::SolidColor(red(), Rect { x: 2, y: 3, width: 10, height: 10 });
    canvas.paint_item(&cmd);
    for y in 0..4i64 {
        for x in 0..4i64 {
            let expect = if x >= 2 && y >= 3 { red() } else { white() };
            assert_eq!(canvas.pixels[(y * 4 + x) as usize], expect);
        }
    }
}

#[test]
fn paint_renders_background_pixels() {
    let styled = block(
        &[("background", Value::ColorValue(red())), ("width", px(2)), ("height", px(1))],
        vec![],
    );
    let laid = layout_tree(&styled, viewport(4, 2)).expect("layout should succeed");
    let canvas = paint(&laid, Rect { x: 0, y: 0, width: 4, height: 2 });
    assert_eq!(canvas.width, 4);
    assert_eq!(canvas.height, 2);
    // The 2x1 box fills the top-left; everything else stays white.
    assert_eq!(canvas.pixels[0], red());
    assert_eq!(canvas.pixels[1], red());
    assert_eq!(canvas.pixels[2], white());
    assert_eq!(canvas.pixels[3], white());
    assert_eq!(canvas.pixels[4], white());
}

#[test]
fn later_commands_draw_on_top() {
    let mut canvas = Canvas::new(2, 1);
    let blue = Color { r: 0, g: 0, b: 255, a: 255 };
    canvas.paint_item(&DisplayCommand::SolidColor(red(), Rect { x: 0, y: 0, width: 2, height: 1 }));
    canvas.paint_item(&DisplayCommand::SolidColor(blue, Rect { x: 1, y: 0, width: 1, height: 1 }));
    assert_eq!(canvas.pixels[0], red());
    assert_eq!(canvas.pixels[1], blue);
}
