use vstd::prelude::*;

use crate::css::Color;
use crate::css::Value;
use crate::layout::{border_box_of, box_view, box_views, in_i64, BoxV, LayoutBox, Rectangle};

verus! {

/// A paint primitive.
pub enum DisplayCommand {
    SolidRectangle(Color, Rectangle),
}

/// A corner of a painted quad, in layout units, with its colour.
#[derive(Clone, Copy, Debug, PartialEq, Eq, Structural)]
pub struct Vertex {
    pub x: i64,
    pub y: i64,
    pub color: Color,
}

/// The most rectangles whose corner indices fit in a `u16`.
pub const MAX_RECTANGLES: usize = 16384;

/// Corner `j` of a quad: bottom right, bottom left, top left, top right.
pub open spec fn corner(rect: Rectangle, j: int) -> (int, int) {
    if j == 0 {
        (rect.x + rect.width, rect.y + rect.height)
    } else if j == 1 {
        (rect.x as int, rect.y + rect.height)
    } else if j == 2 {
        (rect.x as int, rect.y as int)
    } else {
        (rect.x + rect.width, rect.y as int)
    }
}

pub open spec fn corners_fit(rect: Rectangle) -> bool {
    in_i64(rect.x + rect.width) && in_i64(rect.y + rect.height)
}

pub open spec fn command_fits(c: DisplayCommand) -> bool {
    match c {
        DisplayCommand::SolidRectangle(_, rect) => corners_fit(rect),
    }
}

/// Vertex `j` of the quad that paints `c`.
pub open spec fn vertex_of(c: DisplayCommand, j: int) -> Vertex {
    match c {
        DisplayCommand::SolidRectangle(color, rect) => Vertex {
            x: corner(rect, j).0 as i64,
            y: corner(rect, j).1 as i64,
            color,
        },
    }
}

/// Which corner of its quad the `j`-th index of a quad names: two
/// triangles, 0-1-2 and 2-3-0.
pub open spec fn quad_offset(j: int) -> int {
    if j == 0 {
        0
    } else if j == 1 {
        1
    } else if j == 2 {
        2
    } else if j == 3 {
        2
    } else if j == 4 {
        3
    } else {
        0
    }
}

fn render_rectangle(color: Color, rect: &Rectangle) -> (r: Vec<Vertex>)
    requires
        corners_fit(*rect),
    ensures
        r@.len() == 4,
        forall|j: int|
            0 <= j < 4 ==> #[trigger] r@[j] == vertex_of(DisplayCommand::SolidRectangle(color, *rect), j),
{
    let right = rect.x + rect.width;
    let bottom = rect.y + rect.height;
    vec![
        Vertex { x: right, y: bottom, color },
        Vertex { x: rect.x, y: bottom, color },
        Vertex { x: rect.x, y: rect.y, color },
        Vertex { x: right, y: rect.y, color },
    ]
}

/// The vertices and the triangle indices that paint the commands: four
/// corners and six indices per rectangle, in command order.
pub fn render_commands(command_list: &[DisplayCommand]) -> (r: (Vec<Vertex>, Vec<u16>))
    requires
        command_list@.len() <= MAX_RECTANGLES,
        forall|k: int| 0 <= k < command_list@.len() ==> command_fits(#[trigger] command_list@[k]),
    ensures
        r.0@.len() == 4 * command_list@.len(),
        r.1@.len() == 6 * command_list@.len(),
        forall|k: int| 0 <= k < r.0@.len() ==> #[trigger] r.0@[k] == vertex_of(command_list@[k / 4], k % 4),
        forall|k: int| 0 <= k < r.1@.len() ==> #[trigger] r.1@[k] == 4 * (k / 6) + quad_offset(k % 6),
{
    let mut vertices: Vec<Vertex> = Vec::new();
    let mut index_data: Vec<u16> = Vec::new();
    let mut rect_num: usize = 0;
    while rect_num < command_list.len()
        invariant
            0 <= rect_num <= command_list@.len() <= MAX_RECTANGLES,
            forall|k: int| 0 <= k < command_list@.len() ==> command_fits(#[trigger] command_list@[k]),
            vertices@.len() == 4 * rect_num,
            index_data@.len() == 6 * rect_num,
            forall|k: int| 0 <= k < vertices@.len() ==> #[trigger] vertices@[k] == vertex_of(command_list@[k / 4], k % 4),
            forall|k: int| 0 <= k < index_data@.len() ==> #[trigger] index_data@[k] == 4 * (k / 6) + quad_offset(k % 6),
        decreases command_list@.len() - rect_num,
    {
        match &command_list[rect_num] {
            DisplayCommand::SolidRectangle(color, rect) => {
                assert(command_fits(command_list@[rect_num as int]));
                let v = render_rectangle(*color, rect);
                let ghost old_v = vertices@;
                let ghost old_i = index_data@;
                let mut j: usize = 0;
                while j < 4
                    invariant
                        0 <= j <= 4,
                        v@.len() == 4,
                        forall|m: int| 0 <= m < 4 ==> #[trigger] v@[m] == vertex_of(command_list@[rect_num as int], m),
                        vertices@.len() == old_v.len() + j,
                        old_v.len() == 4 * rect_num,
                        forall|k: int| 0 <= k < old_v.len() ==> vertices@[k] == old_v[k],
                        forall|k: int| 0 <= k < old_v.len() ==> #[trigger] old_v[k] == vertex_of(command_list@[k / 4], k % 4),
                        forall|m: int| 0 <= m < j ==> #[trigger] vertices@[old_v.len() + m] == v@[m],
                    decreases 4 - j,
                {
                    vertices.push(v[j]);
                    j += 1;
                }
                assert forall|k: int| 0 <= k < vertices@.len() implies #[trigger] vertices@[k] == vertex_of(command_list@[k / 4], k % 4) by {
                    if k >= old_v.len() {
                        let m = k - old_v.len();
                        assert(vertices@[old_v.len() + m] == v@[m]);
                        assert(k / 4 == rect_num && k % 4 == m);
                    } else {
                        assert(vertices@[k] == old_v[k]);
                    }
                }
                let index_base: u16 = (rect_num * 4) as u16;
                index_data.push(index_base);
                index_data.push(index_base + 1);
                index_data.push(index_base + 2);
                index_data.push(index_base + 2);
                index_data.push(index_base + 3);
                index_data.push(index_base);
                assert forall|k: int| 0 <= k < index_data@.len() implies #[trigger] index_data@[k] == 4 * (k / 6) + quad_offset(k % 6) by {
                    if k >= old_i.len() {
                        assert(k / 6 == rect_num && k % 6 == k - old_i.len());
                    } else {
                        assert(index_data@[k] == old_i[k]);
                    }
                }
            },
        }
        rect_num += 1;
    }
    (vertices, index_data)
}

/// The command that paints one box: its border box filled with its
/// `background` colour, when it has one and the border box fits.
pub open spec fn box_command(b: BoxV) -> Seq<DisplayCommand> {
    match (b.node.prop("background"@), border_box_of(b.dimensions)) {
        (Some(Value::Color(c)), Some(r)) => seq![DisplayCommand::SolidRectangle(c, r)],
        _ => Seq::empty(),
    }
}

/// The paint commands of a box tree: each box before its children, the
/// children in order.
pub open spec fn display_list(b: BoxV) -> Seq<DisplayCommand>
    decreases b,
{
    box_command(b) + display_lists(b.children)
}

pub open spec fn display_lists(s: Seq<BoxV>) -> Seq<DisplayCommand>
    decreases s,
{
    if s.len() == 0 {
        Seq::empty()
    } else {
        display_lists(s.drop_last()) + display_list(s.last())
    }
}

proof fn lemma_views_index<'a>(s: Seq<LayoutBox<'a>>, i: int)
    requires
        0 <= i < s.len(),
    ensures
        box_views(s).len() == s.len(),
        box_views(s)[i] == box_view(s[i]),
    decreases s.len(),
{
    if i < s.len() - 1 {
        lemma_views_index(s.drop_last(), i);
    } else {
        lemma_views_len(s.drop_last());
    }
}

proof fn lemma_views_len<'a>(s: Seq<LayoutBox<'a>>)
    ensures
        box_views(s).len() == s.len(),
    decreases s.len(),
{
    if s.len() > 0 {
        lemma_views_len(s.drop_last());
    }
}

/// The paint commands of the layout tree `root`.
pub fn build_display_commands(root: &LayoutBox) -> (r: Vec<DisplayCommand>)
    ensures
        r@ == display_list(box_view(*root)),
{
    let mut list: Vec<DisplayCommand> = Vec::new();
    render_layout_box(&mut list, root);
    proof {
        assert(Seq::<DisplayCommand>::empty() + display_list(box_view(*root)) =~= display_list(box_view(*root)));
    }
    list
}

fn render_layout_box(list: &mut Vec<DisplayCommand>, b: &LayoutBox)
    ensures
        final(list)@ == old(list)@ + display_list(box_view(*b)),
    decreases b,
{
    let ghost start = list@;
    match b.styled_node.value("background") {
        Some(Value::Color(c)) => match b.dimensions.border_box() {
            Some(r) => {
                list.push(DisplayCommand::SolidRectangle(*c, r));
            },
            None => {},
        },
        _ => {},
    }
    let ghost mid = list@;
    assert(mid =~= start + box_command(box_view(*b)));
    let mut i: usize = 0;
    proof {
        lemma_views_len(b.children@);
        assert(box_views(b.children@).take(0) =~= Seq::<BoxV>::empty());
        assert(mid + display_lists(Seq::<BoxV>::empty()) =~= mid);
    }
    while i < b.children.len()
        invariant
            0 <= i <= b.children@.len(),
            box_views(b.children@).len() == b.children@.len(),
            list@ == mid + display_lists(box_views(b.children@).take(i as int)),
        decreases b.children@.len() - i,
    {
        render_layout_box(list, &b.children[i]);
        proof {
            let vs = box_views(b.children@);
            lemma_views_index(b.children@, i as int);
            assert(vs.take(i + 1).drop_last() =~= vs.take(i as int));
            assert(vs.take(i + 1).last() == box_view(b.children@[i as int]));
            assert(list@ =~= mid + display_lists(vs.take(i + 1)));
        }
        i += 1;
    }
    proof {
        assert(box_views(b.children@).take(b.children@.len() as int) =~= box_views(b.children@));
        assert(list@ =~= start + display_list(box_view(*b)));
    }
}

} // verus!
