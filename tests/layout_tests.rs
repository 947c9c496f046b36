use browser_engine::css::{Color, Declaration, Unit, Value};
use browser_engine::layout::{layout_tree, Dimensions, LayoutBox, LayoutError, Rectangle};
use browser_engine::render::{build_display_commands, render_commands, DisplayCommand, Vertex};
use browser_engine::style::StyledNode;

fn px(n: i64) -> Value {
    Value::Length(n, Unit::Px)
}

fn kw(v: &str) -> Value {
    Value::Other(v.to_string())
}

fn node(decls: Vec<(&str, Value)>, children: Vec<StyledNode>) -> StyledNode {
    StyledNode {
        styles: decls.into_iter().map(|(p, v)| Declaration::new(p.to_string(), v)).collect(),
        children,
    }
}

fn viewport(width: i64) -> Dimensions {
    let mut d = Dimensions::default();
    d.content.width = width;
    d.content.height = 500;
    d
}

fn lay(root: &StyledNode, width: i64) -> LayoutBox<'_> {
    layout_tree(root, viewport(width)).expect("layout succeeds")
}

#[test]
fn auto_width_fills_container() {
    let root = node(vec![("display", kw("block"))], vec![]);
    let b = lay(&root, 200);
    assert_eq!(b.dimensions.content.width, 200);
    assert_eq!(b.dimensions.margin.left, 0);
    assert_eq!(b.dimensions.margin.right, 0);
    assert_eq!(b.dimensions.content.x, 0);
    assert_eq!(b.dimensions.content.y, 0);
}

#[test]
fn auto_width_subtracts_padding_and_border() {
    let root = node(
        vec![("padding-left", px(10)), ("padding-right", px(5)), ("border-left-width", px(2)), ("border-right-width", px(3))],
        vec![],
    );
    let b = lay(&root, 200);
    assert_eq!(b.dimensions.content.width, 180);
    assert_eq!(b.dimensions.content.x, 12);
    let bb = b.dimensions.border_box().unwrap();
    assert_eq!(bb, Rectangle { x: 0, y: 0, width: 200, height: 0 });
}

#[test]
fn auto_width_with_deficit_goes_to_right_margin() {
    let root = node(vec![("padding-left", px(150)), ("padding-right", px(150))], vec![]);
    let b = lay(&root, 200);
    assert_eq!(b.dimensions.content.width, 0);
    assert_eq!(b.dimensions.margin.right, -100);
    assert_eq!(b.dimensions.margin.left, 0);
}

#[test]
fn symmetric_auto_margins() {
    let root = node(vec![("width", px(100))], vec![]);
    let b = lay(&root, 200);
    assert_eq!(b.dimensions.content.width, 100);
    assert_eq!(b.dimensions.margin.left, 50);
    assert_eq!(b.dimensions.margin.right, 50);
    assert_eq!(b.dimensions.content.x, 50);
}

#[test]
fn odd_auto_margin_split_keeps_the_total() {
    let root = node(vec![("width", px(101))], vec![]);
    let b = lay(&root, 200);
    assert_eq!(b.dimensions.margin.left, 49);
    assert_eq!(b.dimensions.margin.right, 50);
}

#[test]
fn over_constrained_margins() {
    let root = node(vec![("width", px(100)), ("margin-left", px(20)), ("margin-right", px(20))], vec![]);
    let b = lay(&root, 200);
    assert_eq!(b.dimensions.content.width, 100);
    assert_eq!(b.dimensions.margin.left, 20);
    assert_eq!(b.dimensions.margin.right, 80);
}

#[test]
fn only_left_margin_auto() {
    let root = node(vec![("width", px(100)), ("margin-right", px(30))], vec![]);
    let b = lay(&root, 200);
    assert_eq!(b.dimensions.margin.left, 70);
    assert_eq!(b.dimensions.margin.right, 30);
}

#[test]
fn only_right_margin_auto() {
    let root = node(vec![("width", px(100)), ("margin-left", px(30))], vec![]);
    let b = lay(&root, 200);
    assert_eq!(b.dimensions.margin.left, 30);
    assert_eq!(b.dimensions.margin.right, 70);
}

#[test]
fn percentage_width() {
    let root = node(vec![("width", Value::Length(25, Unit::Pct))], vec![]);
    let b = lay(&root, 200);
    assert_eq!(b.dimensions.content.width, 50);
    assert_eq!(b.dimensions.margin.left, 75);
}

#[test]
fn auto_height_sums_block_children() {
    let a = node(vec![("display", kw("block")), ("height", px(20)), ("margin-top", px(5)), ("margin-bottom", px(5))], vec![]);
    let b = node(vec![("display", kw("block")), ("height", px(50))], vec![]);
    let root = node(vec![("display", kw("block"))], vec![a, b]);
    let r = lay(&root, 200);
    assert_eq!(r.dimensions.content.height, 80);
    assert_eq!(r.children.len(), 2);
    assert_eq!(r.children[0].dimensions.content.y, 5);
    assert_eq!(r.children[1].dimensions.content.y, 30);
}

#[test]
fn declared_height_wins() {
    let a = node(vec![("display", kw("block")), ("height", px(30))], vec![]);
    let root = node(vec![("display", kw("block")), ("height", px(10))], vec![a]);
    let r = lay(&root, 200);
    assert_eq!(r.dimensions.content.height, 10);
}

#[test]
fn display_none_is_excluded() {
    let hidden_child = node(vec![("display", kw("block")), ("height", px(70))], vec![]);
    let hidden = node(vec![("display", kw("none")), ("height", px(40))], vec![hidden_child]);
    let a = node(vec![("display", kw("block")), ("height", px(30))], vec![]);
    let b = node(vec![("display", kw("block")), ("height", px(50))], vec![]);
    let root = node(vec![("display", kw("block"))], vec![a, hidden, b]);
    let r = lay(&root, 200);
    assert_eq!(r.children.len(), 2);
    assert_eq!(r.dimensions.content.height, 80);
    assert_eq!(r.children[1].dimensions.content.y, 30);
}

#[test]
fn hidden_root_gets_no_geometry() {
    let a = node(vec![("display", kw("block")), ("height", px(30))], vec![]);
    let root = node(vec![("display", kw("none"))], vec![a]);
    let r = lay(&root, 200);
    assert_eq!(r.dimensions, Dimensions::default());
    assert_eq!(r.children.len(), 1);
    assert_eq!(r.children[0].dimensions, Dimensions::default());
}

fn inline_block(width: i64, height: i64) -> StyledNode {
    node(vec![("display", kw("inline-block")), ("width", px(width)), ("height", px(height))], vec![])
}

#[test]
fn inline_block_row_wrap() {
    let root = node(
        vec![("display", kw("block"))],
        vec![inline_block(40, 10), inline_block(40, 10), inline_block(40, 10)],
    );
    let r = lay(&root, 100);
    let xs: Vec<i64> = r.children.iter().map(|c| c.dimensions.content.x).collect();
    let ys: Vec<i64> = r.children.iter().map(|c| c.dimensions.content.y).collect();
    assert_eq!(xs, vec![0, 40, 0]);
    assert_eq!(ys, vec![0, 0, 10]);
    assert_eq!(r.dimensions.current.x, 40);
}

#[test]
fn block_after_inline_blocks_starts_below_the_row() {
    let block = node(vec![("display", kw("block")), ("height", px(5))], vec![]);
    let root = node(vec![("display", kw("block"))], vec![inline_block(40, 10), inline_block(30, 25), block]);
    let r = lay(&root, 100);
    assert_eq!(r.children[2].dimensions.content.y, 25);
    assert_eq!(r.children[2].dimensions.content.x, 0);
    assert_eq!(r.dimensions.content.height, 30);
}

#[test]
fn unimplemented_unit_is_an_error() {
    let root = node(vec![("width", Value::Length(10, Unit::Em))], vec![]);
    assert_eq!(layout_tree(&root, viewport(200)).err(), Some(LayoutError::UnimplementedUnit));
    let inner = node(vec![("display", kw("inline-block")), ("height", Value::Length(3, Unit::Cm))], vec![]);
    let root = node(vec![("display", kw("block"))], vec![inner]);
    assert_eq!(layout_tree(&root, viewport(200)).err(), Some(LayoutError::UnimplementedUnit));
}

#[test]
fn huge_sizes_overflow() {
    let root = node(vec![("width", px(i64::MAX)), ("padding-left", px(i64::MAX))], vec![]);
    assert_eq!(layout_tree(&root, viewport(200)).err(), Some(LayoutError::Overflow));
}

#[test]
fn layout_is_deterministic() {
    let build = || {
        node(
            vec![("display", kw("block")), ("padding-top", px(3))],
            vec![inline_block(40, 10), inline_block(70, 12), node(vec![("display", kw("block")), ("width", Value::Length(50, Unit::Pct))], vec![])],
        )
    };
    let t1 = build();
    let t2 = build();
    let a = lay(&t1, 100);
    let b = lay(&t2, 100);
    assert_eq!(a.dimensions, b.dimensions);
    assert_eq!(a.children.len(), b.children.len());
    for (x, y) in a.children.iter().zip(b.children.iter()) {
        assert_eq!(x.dimensions, y.dimensions);
        assert_eq!(x.box_type, y.box_type);
    }
}

#[test]
fn render_commands_makes_two_triangles_per_rectangle() {
    let red = Color::new(255, 0, 0, 255);
    let cmds = vec![
        DisplayCommand::SolidRectangle(red, Rectangle { x: 1, y: 2, width: 10, height: 20 }),
        DisplayCommand::SolidRectangle(red, Rectangle { x: 0, y: 0, width: 5, height: 5 }),
    ];
    let (v, i) = render_commands(&cmds);
    assert_eq!(v.len(), 8);
    assert_eq!(v[0], Vertex { x: 11, y: 22, color: red });
    assert_eq!(v[1], Vertex { x: 1, y: 22, color: red });
    assert_eq!(v[2], Vertex { x: 1, y: 2, color: red });
    assert_eq!(v[3], Vertex { x: 11, y: 2, color: red });
    assert_eq!(i, vec![0, 1, 2, 2, 3, 0, 4, 5, 6, 6, 7, 4]);
}

#[test]
fn keyword_margins_are_read_as_numbers() {
    let root = node(vec![("width", px(100)), ("margin-left", kw("20")), ("margin-right", kw("auto"))], vec![]);
    let b = lay(&root, 200);
    assert_eq!(b.dimensions.margin.left, 20);
    assert_eq!(b.dimensions.margin.right, 80);
    assert_eq!(b.dimensions.content.x, 20);
}

#[test]
fn display_commands_paint_boxes_with_a_background() {
    let blue = Color::new(0, 0, 255, 255);
    let child = node(vec![("display", kw("block")), ("height", px(10)), ("background", Value::Color(blue))], vec![]);
    let plain = node(vec![("display", kw("block")), ("height", px(5))], vec![]);
    let root = node(vec![("display", kw("block")), ("padding-left", px(4))], vec![child, plain]);
    let b = lay(&root, 100);
    let cmds = build_display_commands(&b);
    assert_eq!(cmds.len(), 1);
    match &cmds[0] {
        DisplayCommand::SolidRectangle(c, r) => {
            assert_eq!(*c, blue);
            assert_eq!(*r, Rectangle { x: 4, y: 0, width: 96, height: 10 });
        }
    }
}

#[test]
fn layout_box_text() {
    let root = node(vec![("display", kw("block")), ("width", px(100)), ("padding-top", px(2))], vec![]);
    let b = lay(&root, 200);
    let expected = "type:\n  block\ncontent:\n  x: 50, y: 2, w: 100, h: 0\npadding:\n  l: 0 r: 0 top: 2 bot: 0\nborder:\n  l: 0 r: 0 top: 0 bot: 0\nmargin:\n  l: 50 r: 50 top: 0 bot: 0\n";
    assert_eq!(b.to_string(), expected);
    assert_eq!(Rectangle { x: -1, y: 2, width: 3, height: 4 }.to_string(), "x: -1, y: 2, w: 3, h: 4");
}
