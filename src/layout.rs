use vstd::prelude::*;

use crate::css::{Unit, Value};
use crate::number::{parse_int, parse_integer};
use crate::text::{int_text, push_char, push_int, push_str};
use crate::css::Stylesheet;
use crate::dom::Node;
use crate::style::{element_children, num_or_spec, styled_from, Display, StyledNode};

verus! {

/// Why a layout could not be computed.
#[derive(Clone, Copy, Debug, PartialEq, Eq, Structural)]
pub enum LayoutError {
    /// A width or height is given in a unit other than pixels or percent.
    UnimplementedUnit,
    /// A coordinate or size does not fit in an `i64`.
    Overflow,
}

#[derive(Clone, Copy, Debug, PartialEq, Eq, Structural)]
pub struct Rectangle {
    pub x: i64,
    pub y: i64,
    pub width: i64,
    pub height: i64,
}

#[derive(Clone, Copy, Debug, PartialEq, Eq, Structural)]
pub struct EdgeSizes {
    pub left: i64,
    pub right: i64,
    pub top: i64,
    pub bottom: i64,
}

/// A box's content rectangle, its padding, border and margin widths, and
/// the row cursor used while its inline-block children are placed.
#[derive(Clone, Copy, Debug, PartialEq, Eq, Structural)]
pub struct Dimensions {
    pub content: Rectangle,
    pub padding: EdgeSizes,
    pub border: EdgeSizes,
    pub margin: EdgeSizes,
    pub current: Rectangle,
}

#[derive(Clone, Copy, Debug, PartialEq, Eq, Structural)]
pub enum BoxType {
    Block,
    Inline,
    InlineBlock,
    Anonymous,
}

pub open spec fn in_i64(v: int) -> bool {
    i64::MIN <= v <= i64::MAX
}

pub open spec fn fit(v: int) -> Result<i64, LayoutError> {
    if in_i64(v) {
        Ok(v as i64)
    } else {
        Err(LayoutError::Overflow)
    }
}

/// Division rounding toward zero.
pub open spec fn div_trunc(p: int, q: int) -> int {
    if p >= 0 {
        p / q
    } else {
        -((-p) / q)
    }
}

pub open spec fn zero_rect() -> Rectangle {
    Rectangle { x: 0, y: 0, width: 0, height: 0 }
}

pub open spec fn zero_edges() -> EdgeSizes {
    EdgeSizes { left: 0, right: 0, top: 0, bottom: 0 }
}

pub open spec fn zero_dims() -> Dimensions {
    Dimensions {
        content: zero_rect(),
        padding: zero_edges(),
        border: zero_edges(),
        margin: zero_edges(),
        current: zero_rect(),
    }
}

/// `r` grown by `e` on each side, if every coordinate fits.
pub open spec fn expand(r: Rectangle, e: EdgeSizes) -> Option<Rectangle> {
    let x = r.x - e.left;
    let y = r.y - e.top;
    let w = r.width + e.left + e.right;
    let h = r.height + e.top + e.bottom;
    if in_i64(x) && in_i64(y) && in_i64(w) && in_i64(h) {
        Some(Rectangle { x: x as i64, y: y as i64, width: w as i64, height: h as i64 })
    } else {
        None
    }
}

pub open spec fn padding_box_of(d: Dimensions) -> Option<Rectangle> {
    expand(d.content, d.padding)
}

pub open spec fn border_box_of(d: Dimensions) -> Option<Rectangle> {
    match padding_box_of(d) {
        Some(p) => expand(p, d.border),
        None => None,
    }
}

pub open spec fn margin_box_of(d: Dimensions) -> Option<Rectangle> {
    match border_box_of(d) {
        Some(b) => expand(b, d.margin),
        None => None,
    }
}

impl Default for Rectangle {
    fn default() -> (r: Rectangle)
        ensures
            r == zero_rect(),
    {
        Rectangle { x: 0, y: 0, width: 0, height: 0 }
    }
}

impl Default for EdgeSizes {
    fn default() -> (r: EdgeSizes)
        ensures
            r == zero_edges(),
    {
        EdgeSizes { left: 0, right: 0, top: 0, bottom: 0 }
    }
}

impl Default for Dimensions {
    fn default() -> (r: Dimensions)
        ensures
            r == zero_dims(),
    {
        Dimensions {
            content: Rectangle::default(),
            padding: EdgeSizes::default(),
            border: EdgeSizes::default(),
            margin: EdgeSizes::default(),
            current: Rectangle::default(),
        }
    }
}

impl Rectangle {
    /// The rectangle grown by `e`; `None` when a coordinate leaves `i64`.
    pub fn expanded(&self, e: EdgeSizes) -> (r: Option<Rectangle>)
        ensures
            r == expand(*self, e),
    {
        let x = self.x as i128 - e.left as i128;
        let y = self.y as i128 - e.top as i128;
        let w = self.width as i128 + e.left as i128 + e.right as i128;
        let h = self.height as i128 + e.top as i128 + e.bottom as i128;
        if fits_i64(x) && fits_i64(y) && fits_i64(w) && fits_i64(h) {
            Some(Rectangle { x: x as i64, y: y as i64, width: w as i64, height: h as i64 })
        } else {
            None
        }
    }
}

impl Dimensions {
    /// The content rectangle grown by the padding.
    pub fn padding_box(&self) -> (r: Option<Rectangle>)
        ensures
            r == padding_box_of(*self),
    {
        self.content.expanded(self.padding)
    }

    /// The padding box grown by the border.
    pub fn border_box(&self) -> (r: Option<Rectangle>)
        ensures
            r == border_box_of(*self),
    {
        match self.padding_box() {
            Some(p) => p.expanded(self.border),
            None => None,
        }
    }

    /// The border box grown by the margin.
    pub fn margin_box(&self) -> (r: Option<Rectangle>)
        ensures
            r == margin_box_of(*self),
    {
        match self.border_box() {
            Some(b) => b.expanded(self.margin),
            None => None,
        }
    }
}

proof fn lemma_product_bound(a: int, b: int)
    requires
        in_i64(a),
        in_i64(b),
    ensures
        -0x4000_0000_0000_0000_0000_0000_0000_0000 <= a * b <= 0x4000_0000_0000_0000_0000_0000_0000_0000,
{
    assert(-0x8000_0000_0000_0000 <= a <= 0x8000_0000_0000_0000);
    assert(-0x8000_0000_0000_0000 <= b <= 0x8000_0000_0000_0000);
    assert(-0x4000_0000_0000_0000_0000_0000_0000_0000 <= a * b <= 0x4000_0000_0000_0000_0000_0000_0000_0000)
        by (nonlinear_arith)
        requires
            -0x8000_0000_0000_0000 <= a <= 0x8000_0000_0000_0000,
            -0x8000_0000_0000_0000 <= b <= 0x8000_0000_0000_0000,
    ;
}

fn fits_i64(v: i128) -> (r: bool)
    ensures
        r == in_i64(v as int),
{
    i64::MIN as i128 <= v && v <= i64::MAX as i128
}

fn to_i64(v: i128) -> (r: Result<i64, LayoutError>)
    ensures
        r == fit(v as int),
{
    if fits_i64(v) {
        Ok(v as i64)
    } else {
        Err(LayoutError::Overflow)
    }
}

/// A width or height in pixels: a pixel length as it is, a percentage of
/// the containing width `cw` (rounded toward zero), no length as `None`.
pub open spec fn absolute_num(v: Option<Value>, cw: i64) -> Result<Option<i64>, LayoutError> {
    match v {
        Some(Value::Length(l, u)) => match u {
            Unit::Px => Ok(Some(l)),
            Unit::Pct => match fit(div_trunc(l * cw, 100)) {
                Ok(p) => Ok(Some(p)),
                Err(e) => Err(e),
            },
            _ => Err(LayoutError::UnimplementedUnit),
        },
        _ => Ok(None),
    }
}

pub open spec fn opt_value(v: Option<&Value>) -> Option<Value> {
    match v {
        Some(x) => Some(*x),
        None => None,
    }
}

/// The number a margin declaration gives: a length's magnitude, or a
/// keyword read as a whole number; anything else counts as zero.
pub open spec fn margin_num(v: Option<Value>) -> i64 {
    match v {
        Some(Value::Length(n, _)) => n,
        Some(Value::Other(s)) => match parse_integer(s@) {
            Some(n) => n,
            None => 0,
        },
        _ => 0,
    }
}

/// How the block width algorithm resolves the content width and the left
/// and right margins, given the containing width `cw`, the declared width
/// (`None` when unspecified), the declared margins (`None` when absent) and
/// the horizontal border and padding widths.
pub open spec fn block_width(
    cw: i64,
    width: Option<i64>,
    ml: Option<Value>,
    mr: Option<Value>,
    bl: i64,
    br: i64,
    pl: i64,
    pr: i64,
) -> Result<(i64, i64, i64), LayoutError> {
    let w: int = match width {
        Some(w) => w as int,
        None => 0,
    };
    let mln = margin_num(ml);
    let mrn = margin_num(mr);
    match fit(cw - (w + mln + mrn + bl + br + pl + pr)) {
        Err(e) => Err(e),
        Ok(u) => match width {
            None => if u >= 0 {
                Ok((u, mln, mrn))
            } else {
                match fit(mrn + u) {
                    Ok(m) => Ok((0, mln, m)),
                    Err(e) => Err(e),
                }
            },
            Some(w) => if ml is None && mr is Some {
                Ok((w, u, mrn))
            } else if ml is Some && mr is None {
                Ok((w, mln, u))
            } else if ml is None && mr is None {
                Ok((w, div_trunc(u as int, 2) as i64, (u - div_trunc(u as int, 2)) as i64))
            } else {
                match fit(mrn + u) {
                    Ok(m) => Ok((w, mln, m)),
                    Err(e) => Err(e),
                }
            },
        },
    }
}

fn get_absolute_num(s_node: &StyledNode, b_box: Dimensions, prop: &str) -> (r: Result<
    Option<i64>,
    LayoutError,
>)
    ensures
        r == absolute_num(s_node.prop(prop@), b_box.content.width),
{
    match s_node.value(prop) {
        Some(Value::Length(l, u)) => match u {
            Unit::Px => Ok(Some(*l)),
            Unit::Pct => {
                proof {
                    lemma_product_bound(*l as int, b_box.content.width as int);
                }
                let p = (*l as i128) * (b_box.content.width as i128);
                let q = p / 100;
                match to_i64(q) {
                    Ok(v) => Ok(Some(v)),
                    Err(e) => Err(e),
                }
            },
            _ => Err(LayoutError::UnimplementedUnit),
        },
        _ => Ok(None),
    }
}

fn margin_value(v: Option<&Value>) -> (r: i64)
    ensures
        r == margin_num(opt_value(v)),
{
    match v {
        Some(Value::Length(n, _)) => *n,
        Some(Value::Other(s)) => match parse_int(s) {
            Some(n) => n,
            None => 0,
        },
        _ => 0,
    }
}

/// The block width algorithm; see `block_width`.
#[verifier::rlimit(40)]
fn resolve_block_width(
    cw: i64,
    width: Option<i64>,
    ml: Option<&Value>,
    mr: Option<&Value>,
    bl: i64,
    br: i64,
    pl: i64,
    pr: i64,
) -> (r: Result<(i64, i64, i64), LayoutError>)
    ensures
        r == block_width(
            cw,
            width,
            opt_value(ml),
            opt_value(mr),
            bl,
            br,
            pl,
            pr,
        ),
{
    let w: i64 = match width {
        Some(w) => w,
        None => 0,
    };
    let mln = margin_value(ml);
    let mrn = margin_value(mr);
    let total = w as i128 + mln as i128 + mrn as i128 + bl as i128 + br as i128 + pl as i128
        + pr as i128;
    let u = match to_i64(cw as i128 - total) {
        Ok(u) => u,
        Err(e) => {
            return Err(e);
        },
    };
    match width {
        None => {
            if u >= 0 {
                Ok((u, mln, mrn))
            } else {
                match to_i64(mrn as i128 + u as i128) {
                    Ok(m) => Ok((0, mln, m)),
                    Err(e) => Err(e),
                }
            }
        },
        Some(w) => {
            if ml.is_none() && mr.is_some() {
                Ok((w, u, mrn))
            } else if ml.is_some() && mr.is_none() {
                Ok((w, mln, u))
            } else if ml.is_none() && mr.is_none() {
                let half = u / 2;
                Ok((w, half, u - half))
            } else {
                match to_i64(mrn as i128 + u as i128) {
                    Ok(m) => Ok((w, mln, m)),
                    Err(e) => Err(e),
                }
            }
        },
    }
}

/// A laid-out box as the contracts see it.
pub struct BoxV {
    pub node: StyledNode,
    pub box_type: BoxType,
    pub dimensions: Dimensions,
    pub children: Seq<BoxV>,
}

/// The state of a parent while its children are placed: its dimensions so
/// far (content height and row cursor included), the tallest margin box of
/// the pending inline-block row, and the kind of the previous child.
#[derive(Clone, Copy, Debug, PartialEq, Eq, Structural)]
pub struct Flow {
    pub dims: Dimensions,
    pub row_max: i64,
    pub prev: BoxType,
}

/// A node of the layout tree, with a reference to the styled node it shows.
pub struct LayoutBox<'a> {
    pub dimensions: Dimensions,
    pub box_type: BoxType,
    pub styled_node: &'a StyledNode,
    pub children: Vec<LayoutBox<'a>>,
}

pub open spec fn box_view<'a>(b: LayoutBox<'a>) -> BoxV
    decreases b,
{
    BoxV {
        node: *b.styled_node,
        box_type: b.box_type,
        dimensions: b.dimensions,
        children: box_views(b.children@),
    }
}

pub open spec fn box_views<'a>(s: Seq<LayoutBox<'a>>) -> Seq<BoxV>
    decreases s,
{
    if s.len() == 0 {
        Seq::empty()
    } else {
        box_views(s.drop_last()).push(box_view(s.last()))
    }
}

pub open spec fn result_view<'a>(r: Result<LayoutBox<'a>, LayoutError>) -> Result<
    BoxV,
    LayoutError,
> {
    match r {
        Ok(b) => Ok(box_view(b)),
        Err(e) => Err(e),
    }
}

pub open spec fn box_type_of(d: Display) -> BoxType {
    match d {
        Display::Block => BoxType::Block,
        Display::Inline => BoxType::Inline,
        Display::InlineBlock => BoxType::InlineBlock,
        Display::Hidden => BoxType::Anonymous,
    }
}

/// The box tree of `sv` before any geometry: `display: none` children are
/// left out, every box has zero dimensions.
pub open spec fn built(sv: StyledNode) -> BoxV
    decreases sv,
{
    BoxV {
        node: sv,
        box_type: box_type_of(sv.display()),
        dimensions: zero_dims(),
        children: built_children(sv.children@),
    }
}

pub open spec fn built_children(kids: Seq<StyledNode>) -> Seq<BoxV>
    decreases kids,
{
    if kids.len() == 0 {
        Seq::empty()
    } else {
        let rest = built_children(kids.drop_last());
        if kids.last().display() == Display::Hidden {
            rest
        } else {
            rest.push(built(kids.last()))
        }
    }
}

pub open spec fn with_height(d: Dimensions, h: i64) -> Dimensions {
    Dimensions {
        content: Rectangle { x: d.content.x, y: d.content.y, width: d.content.width, height: h },
        padding: d.padding,
        border: d.border,
        margin: d.margin,
        current: d.current,
    }
}

pub open spec fn with_cursor(d: Dimensions, x: i64) -> Dimensions {
    Dimensions {
        content: d.content,
        padding: d.padding,
        border: d.border,
        margin: d.margin,
        current: Rectangle { x, y: d.current.y, width: d.current.width, height: d.current.height },
    }
}

/// Block mode, horizontally: the width algorithm on the declared width,
/// margins, borders and paddings.
pub open spec fn block_horizontal(sv: StyledNode, cb: Dimensions) -> Result<Dimensions, LayoutError> {
    match absolute_num(sv.prop("width"@), cb.content.width) {
        Err(e) => Err(e),
        Ok(width) => {
            let bl = num_or_spec(sv.prop("border-left-width"@), 0);
            let br = num_or_spec(sv.prop("border-right-width"@), 0);
            let pl = num_or_spec(sv.prop("padding-left"@), 0);
            let pr = num_or_spec(sv.prop("padding-right"@), 0);
            match block_width(
                cb.content.width,
                width,
                sv.prop("margin-left"@),
                sv.prop("margin-right"@),
                bl,
                br,
                pl,
                pr,
            ) {
                Err(e) => Err(e),
                Ok(t) => Ok(
                    Dimensions {
                        content: Rectangle { x: 0, y: 0, width: t.0, height: 0 },
                        padding: EdgeSizes { left: pl, right: pr, top: 0, bottom: 0 },
                        border: EdgeSizes { left: bl, right: br, top: 0, bottom: 0 },
                        margin: EdgeSizes { left: t.1, right: t.2, top: 0, bottom: 0 },
                        current: zero_rect(),
                    },
                ),
            }
        },
    }
}

/// Inline-block mode, horizontally: the declared width or zero, and the
/// declared margins, borders and paddings as they are.
pub open spec fn inline_horizontal(sv: StyledNode, cb: Dimensions) -> Result<Dimensions, LayoutError> {
    match absolute_num(sv.prop("width"@), cb.content.width) {
        Err(e) => Err(e),
        Ok(width) => Ok(
            Dimensions {
                content: Rectangle {
                    x: 0,
                    y: 0,
                    width: match width {
                        Some(w) => w,
                        None => 0,
                    },
                    height: 0,
                },
                padding: EdgeSizes {
                    left: num_or_spec(sv.prop("padding-left"@), 0),
                    right: num_or_spec(sv.prop("padding-right"@), 0),
                    top: 0,
                    bottom: 0,
                },
                border: EdgeSizes {
                    left: num_or_spec(sv.prop("border-left-width"@), 0),
                    right: num_or_spec(sv.prop("border-right-width"@), 0),
                    top: 0,
                    bottom: 0,
                },
                margin: EdgeSizes {
                    left: num_or_spec(sv.prop("margin-left"@), 0),
                    right: num_or_spec(sv.prop("margin-right"@), 0),
                    top: 0,
                    bottom: 0,
                },
                current: zero_rect(),
            },
        ),
    }
}

/// The vertical edges and the position of the content box: below what the
/// containing box holds so far, and for an inline block right of its row
/// cursor.
pub open spec fn positioned(sv: StyledNode, cb: Dimensions, d: Dimensions, inline: bool) -> Result<
    Dimensions,
    LayoutError,
> {
    let mt = num_or_spec(sv.prop("margin-top"@), 0);
    let mb = num_or_spec(sv.prop("margin-bottom"@), 0);
    let bt = num_or_spec(sv.prop("border-top-width"@), 0);
    let bb = num_or_spec(sv.prop("border-bottom-width"@), 0);
    let pt = num_or_spec(sv.prop("padding-top"@), 0);
    let pb = num_or_spec(sv.prop("padding-bottom"@), 0);
    let cx: int = if inline {
        cb.current.x as int
    } else {
        0
    };
    match fit(cb.content.x + cx + d.margin.left + d.border.left + d.padding.left) {
        Err(e) => Err(e),
        Ok(x) => match fit(cb.content.height + cb.content.y + mt + bt + pt) {
            Err(e) => Err(e),
            Ok(y) => Ok(
                Dimensions {
                    content: Rectangle { x, y, width: d.content.width, height: d.content.height },
                    padding: EdgeSizes {
                        left: d.padding.left,
                        right: d.padding.right,
                        top: pt,
                        bottom: pb,
                    },
                    border: EdgeSizes {
                        left: d.border.left,
                        right: d.border.right,
                        top: bt,
                        bottom: bb,
                    },
                    margin: EdgeSizes {
                        left: d.margin.left,
                        right: d.margin.right,
                        top: mt,
                        bottom: mb,
                    },
                    current: d.current,
                },
            ),
        },
    }
}

/// The dimensions of a box before its children are placed.
pub open spec fn started(sv: StyledNode, cb: Dimensions, inline: bool) -> Result<
    Dimensions,
    LayoutError,
> {
    let h = if inline {
        inline_horizontal(sv, cb)
    } else {
        block_horizontal(sv, cb)
    };
    match h {
        Err(e) => Err(e),
        Ok(d) => positioned(sv, cb, d, inline),
    }
}

/// The declared height, when there is one, replaces the accumulated one.
pub open spec fn heightened(sv: StyledNode, cb: Dimensions, d: Dimensions) -> Result<
    Dimensions,
    LayoutError,
> {
    match absolute_num(sv.prop("height"@), cb.content.width) {
        Err(e) => Err(e),
        Ok(Some(h)) => Ok(with_height(d, h)),
        Ok(None) => Ok(d),
    }
}

/// The pending row of inline blocks is closed: its height is added to the
/// content height and the cursor goes back to the start of the line.
pub open spec fn flushed(f: Flow) -> Result<Flow, LayoutError> {
    match fit(f.dims.content.height + f.row_max) {
        Err(e) => Err(e),
        Ok(h) => Ok(Flow { dims: with_cursor(with_height(f.dims, h), 0), row_max: 0, prev: f.prev }),
    }
}

/// The layout of the styled node `sv` in the containing block `cb`.
pub open spec fn laid_out(sv: StyledNode, cb: Dimensions) -> Result<BoxV, LayoutError>
    decreases sv, 2int,
{
    let bt = box_type_of(sv.display());
    if bt == BoxType::Anonymous {
        Ok(built(sv))
    } else {
        match started(sv, cb, bt == BoxType::InlineBlock) {
            Err(e) => Err(e),
            Ok(d) => match children_laid_out(sv.children@, d) {
                Err(e) => Err(e),
                Ok(placed) => match heightened(sv, cb, placed.1.dims) {
                    Err(e) => Err(e),
                    Ok(d2) => if margin_box_of(d2) is Some {
                        Ok(BoxV { node: sv, box_type: bt, dimensions: d2, children: placed.0 })
                    } else {
                        Err(LayoutError::Overflow)
                    },
                },
            },
        }
    }
}

/// The children `kids` placed one after the other in a parent whose
/// dimensions start as `d`.
pub open spec fn children_laid_out(kids: Seq<StyledNode>, d: Dimensions) -> Result<
    (Seq<BoxV>, Flow),
    LayoutError,
>
    decreases kids, 0int,
{
    if kids.len() == 0 {
        Ok((Seq::empty(), Flow { dims: d, row_max: 0, prev: BoxType::Block }))
    } else {
        match children_laid_out(kids.drop_last(), d) {
            Err(e) => Err(e),
            Ok(placed) => child_placed(placed.0, placed.1, kids.last()),
        }
    }
}

/// One more child placed after the boxes `acc`, in the parent state `f`.
pub open spec fn child_placed(acc: Seq<BoxV>, f: Flow, c: StyledNode) -> Result<
    (Seq<BoxV>, Flow),
    LayoutError,
>
    decreases c, 3int,
{
    let bt = box_type_of(c.display());
    if bt == BoxType::Anonymous {
        Ok((acc, f))
    } else {
        let f0 = if f.prev == BoxType::InlineBlock && bt == BoxType::Block {
            flushed(f)
        } else {
            Ok(f)
        };
        match f0 {
            Err(e) => Err(e),
            Ok(f1) => match laid_out(c, f1.dims) {
                Err(e) => Err(e),
                Ok(b) => match margin_box_of(b.dimensions) {
                    None => Err(LayoutError::Overflow),
                    Some(mb) => if bt == BoxType::Block {
                        match fit(f1.dims.content.height + mb.height) {
                            Err(e) => Err(e),
                            Ok(h) => Ok(
                                (
                                    acc.push(b),
                                    Flow {
                                        dims: with_height(f1.dims, h),
                                        row_max: f1.row_max,
                                        prev: bt,
                                    },
                                ),
                            ),
                        }
                    } else if bt == BoxType::InlineBlock {
                        match fit(f1.dims.current.x + mb.width) {
                            Err(e) => Err(e),
                            Ok(cx) => if cx > f1.dims.content.width {
                                match flushed(f1) {
                                    Err(e) => Err(e),
                                    Ok(f2) => match laid_out(c, f2.dims) {
                                        Err(e) => Err(e),
                                        Ok(b2) => match margin_box_of(b2.dimensions) {
                                            None => Err(LayoutError::Overflow),
                                            Some(mb2) => Ok(
                                                (
                                                    acc.push(b2),
                                                    Flow {
                                                        dims: with_cursor(f2.dims, mb2.width),
                                                        row_max: mb2.height,
                                                        prev: bt,
                                                    },
                                                ),
                                            ),
                                        },
                                    },
                                }
                            } else {
                                Ok(
                                    (
                                        acc.push(b),
                                        Flow {
                                            dims: with_cursor(f1.dims, cx),
                                            row_max: if mb.height > f1.row_max {
                                                mb.height
                                            } else {
                                                f1.row_max
                                            },
                                            prev: bt,
                                        },
                                    ),
                                )
                            },
                        }
                    } else {
                        Ok((acc.push(b), Flow { dims: f1.dims, row_max: f1.row_max, prev: bt }))
                    },
                },
            },
        }
    }
}

proof fn lemma_views_push<'a>(s: Seq<LayoutBox<'a>>, b: LayoutBox<'a>)
    ensures
        box_views(s.push(b)) == box_views(s).push(box_view(b)),
{
    assert(s.push(b).drop_last() =~= s);
}

/// Once a prefix of the children fails, the whole list fails the same way.
proof fn lemma_failure_persists(kids: Seq<StyledNode>, d: Dimensions, i: int)
    requires
        0 <= i <= kids.len(),
        children_laid_out(kids.take(i), d) is Err,
    ensures
        children_laid_out(kids, d) == children_laid_out(kids.take(i), d),
    decreases kids.len() - i,
{
    if i == kids.len() {
        assert(kids.take(i) =~= kids);
    } else {
        assert(kids.take(i + 1).drop_last() =~= kids.take(i));
        lemma_failure_persists(kids, d, i + 1);
    }
}

fn box_type_for(d: Display) -> (r: BoxType)
    ensures
        r == box_type_of(d),
{
    match d {
        Display::Block => BoxType::Block,
        Display::Inline => BoxType::Inline,
        Display::InlineBlock => BoxType::InlineBlock,
        Display::Hidden => BoxType::Anonymous,
    }
}

impl<'a> LayoutBox<'a> {
    pub fn new(box_type: BoxType, styled_node: &'a StyledNode) -> (r: LayoutBox<'a>)
        ensures
            r.box_type == box_type,
            r.styled_node == styled_node,
            r.dimensions == zero_dims(),
            r.children@.len() == 0,
    {
        LayoutBox { box_type, styled_node, dimensions: Dimensions::default(), children: Vec::new() }
    }

    /// Lays out `node` in the containing block `b_box`.
    fn layout(node: &'a StyledNode, b_box: Dimensions) -> (r: Result<LayoutBox<'a>, LayoutError>)
        ensures
            result_view(r) == laid_out(*node, b_box),
        decreases node, 2int,
    {
        let bt = box_type_for(node.get_display());
        if bt == BoxType::Anonymous {
            return Ok(build_layout_tree(node));
        }
        let start = if bt == BoxType::InlineBlock {
            LayoutBox::layout_inline_block(node, b_box)
        } else {
            LayoutBox::layout_block(node, b_box)
        };
        let d = match start {
            Ok(d) => d,
            Err(e) => {
                return Err(e);
            },
        };
        let (children, flow) = match LayoutBox::layout_children(node, d) {
            Ok(placed) => placed,
            Err(e) => {
                return Err(e);
            },
        };
        let d2 = match LayoutBox::calculate_height(node, b_box, flow.dims) {
            Ok(d2) => d2,
            Err(e) => {
                return Err(e);
            },
        };
        match d2.margin_box() {
            Some(_) => Ok(LayoutBox { dimensions: d2, box_type: bt, styled_node: node, children }),
            None => Err(LayoutError::Overflow),
        }
    }

    /// An inline block's dimensions before its children are placed.
    fn layout_inline_block(node: &StyledNode, b_box: Dimensions) -> (r: Result<
        Dimensions,
        LayoutError,
    >)
        ensures
            r == started(*node, b_box, true),
    {
        match LayoutBox::calculate_inline_width(node, b_box) {
            Ok(d) => LayoutBox::calculate_position(node, b_box, d, true),
            Err(e) => Err(e),
        }
    }

    /// A block's dimensions before its children are placed.
    fn layout_block(node: &StyledNode, b_box: Dimensions) -> (r: Result<Dimensions, LayoutError>)
        ensures
            r == started(*node, b_box, false),
    {
        match LayoutBox::calculate_width(node, b_box) {
            Ok(d) => LayoutBox::calculate_position(node, b_box, d, false),
            Err(e) => Err(e),
        }
    }

    fn calculate_inline_width(node: &StyledNode, b_box: Dimensions) -> (r: Result<
        Dimensions,
        LayoutError,
    >)
        ensures
            r == inline_horizontal(*node, b_box),
    {
        let width = match get_absolute_num(node, b_box, "width") {
            Ok(w) => match w {
                Some(w) => w,
                None => 0,
            },
            Err(e) => {
                return Err(e);
            },
        };
        let mut d = Dimensions::default();
        d.content.width = width;
        d.margin.left = node.num_or("margin-left", 0);
        d.margin.right = node.num_or("margin-right", 0);
        d.padding.left = node.num_or("padding-left", 0);
        d.padding.right = node.num_or("padding-right", 0);
        d.border.left = node.num_or("border-left-width", 0);
        d.border.right = node.num_or("border-right-width", 0);
        Ok(d)
    }

    fn calculate_width(node: &StyledNode, b_box: Dimensions) -> (r: Result<Dimensions, LayoutError>)
        ensures
            r == block_horizontal(*node, b_box),
    {
        let width = match get_absolute_num(node, b_box, "width") {
            Ok(w) => w,
            Err(e) => {
                return Err(e);
            },
        };
        let mut d = Dimensions::default();
        d.border.left = node.num_or("border-left-width", 0);
        d.border.right = node.num_or("border-right-width", 0);
        d.padding.left = node.num_or("padding-left", 0);
        d.padding.right = node.num_or("padding-right", 0);
        let (w, ml, mr) = match resolve_block_width(
            b_box.content.width,
            width,
            node.value("margin-left"),
            node.value("margin-right"),
            d.border.left,
            d.border.right,
            d.padding.left,
            d.padding.right,
        ) {
            Ok(t) => t,
            Err(e) => {
                return Err(e);
            },
        };
        d.content.width = w;
        d.margin.left = ml;
        d.margin.right = mr;
        Ok(d)
    }

    fn calculate_position(node: &StyledNode, b_box: Dimensions, d: Dimensions, inline: bool) -> (r:
        Result<Dimensions, LayoutError>)
        ensures
            r == positioned(*node, b_box, d, inline),
    {
        let mut d = d;
        d.margin.top = node.num_or("margin-top", 0);
        d.margin.bottom = node.num_or("margin-bottom", 0);
        d.border.top = node.num_or("border-top-width", 0);
        d.border.bottom = node.num_or("border-bottom-width", 0);
        d.padding.top = node.num_or("padding-top", 0);
        d.padding.bottom = node.num_or("padding-bottom", 0);
        let cx: i64 = if inline {
            b_box.current.x
        } else {
            0
        };
        d.content.x = match to_i64(
            b_box.content.x as i128 + cx as i128 + d.margin.left as i128 + d.border.left as i128
                + d.padding.left as i128,
        ) {
            Ok(x) => x,
            Err(e) => {
                return Err(e);
            },
        };
        d.content.y = match to_i64(
            b_box.content.height as i128 + b_box.content.y as i128 + d.margin.top as i128
                + d.border.top as i128 + d.padding.top as i128,
        ) {
            Ok(y) => y,
            Err(e) => {
                return Err(e);
            },
        };
        Ok(d)
    }

    fn calculate_height(node: &StyledNode, b_box: Dimensions, d: Dimensions) -> (r: Result<
        Dimensions,
        LayoutError,
    >)
        ensures
            r == heightened(*node, b_box, d),
    {
        match get_absolute_num(node, b_box, "height") {
            Ok(Some(h)) => {
                let mut d = d;
                d.content.height = h;
                Ok(d)
            },
            Ok(None) => Ok(d),
            Err(e) => Err(e),
        }
    }

    /// Lays out the children of `node` one after the other inside the
    /// dimensions `d` of their parent.
    fn layout_children(node: &'a StyledNode, d: Dimensions) -> (r: Result<
        (Vec<LayoutBox<'a>>, Flow),
        LayoutError,
    >)
        ensures
            match r {
                Ok(placed) => children_laid_out(node.children@, d) == Ok::<_, LayoutError>(
                    (box_views(placed.0@), placed.1),
                ),
                Err(e) => children_laid_out(node.children@, d) == Err::<(Seq<BoxV>, Flow), _>(e),
            },
        decreases node, 1int,
    {
        let mut kids: Vec<LayoutBox<'a>> = Vec::new();
        let mut flow = Flow { dims: d, row_max: 0, prev: BoxType::Block };
        let mut i: usize = 0;
        proof {
            assert(node.children@.take(0) =~= Seq::<StyledNode>::empty());
        }
        while i < node.children.len()
            invariant
                0 <= i <= node.children@.len(),
                children_laid_out(node.children@.take(i as int), d) == Ok::<_, LayoutError>(
                    (box_views(kids@), flow),
                ),
            decreases node.children@.len() - i,
        {
            proof {
                assert(node.children@.take(i + 1).drop_last() =~= node.children@.take(i as int));
                assert(node.children@.take(i + 1).last() == node.children@[i as int]);
            }
            match LayoutBox::place_child(&node.children[i], flow, &mut kids) {
                Ok(f) => {
                    flow = f;
                },
                Err(e) => {
                    proof {
                        lemma_failure_persists(node.children@, d, i + 1);
                    }
                    return Err(e);
                },
            }
            i += 1;
        }
        proof {
            assert(node.children@.take(node.children@.len() as int) =~= node.children@);
        }
        Ok((kids, flow))
    }

    /// Places one child after the boxes in `kids`.
    fn place_child(child: &'a StyledNode, f: Flow, kids: &mut Vec<LayoutBox<'a>>) -> (r: Result<
        Flow,
        LayoutError,
    >)
        ensures
            match r {
                Ok(f2) => child_placed(box_views(old(kids)@), f, *child) == Ok::<_, LayoutError>(
                    (box_views(final(kids)@), f2),
                ),
                Err(e) => child_placed(box_views(old(kids)@), f, *child) == Err::<
                    (Seq<BoxV>, Flow),
                    _,
                >(e),
            },
        decreases child, 3int,
    {
        let bt = box_type_for(child.get_display());
        if bt == BoxType::Anonymous {
            return Ok(f);
        }
        let f1 = if f.prev == BoxType::InlineBlock && bt == BoxType::Block {
            match flush(f) {
                Ok(f1) => f1,
                Err(e) => {
                    return Err(e);
                },
            }
        } else {
            f
        };
        let b = match LayoutBox::layout(child, f1.dims) {
            Ok(b) => b,
            Err(e) => {
                return Err(e);
            },
        };
        let mb = match b.dimensions.margin_box() {
            Some(mb) => mb,
            None => {
                return Err(LayoutError::Overflow);
            },
        };
        proof {
            lemma_views_push(kids@, b);
        }
        if bt == BoxType::Block {
            let h = match to_i64(f1.dims.content.height as i128 + mb.height as i128) {
                Ok(h) => h,
                Err(e) => {
                    return Err(e);
                },
            };
            kids.push(b);
            let mut dims = f1.dims;
            dims.content.height = h;
            Ok(Flow { dims, row_max: f1.row_max, prev: bt })
        } else if bt == BoxType::InlineBlock {
            let cx = match to_i64(f1.dims.current.x as i128 + mb.width as i128) {
                Ok(cx) => cx,
                Err(e) => {
                    return Err(e);
                },
            };
            if cx > f1.dims.content.width {
                let f2 = match flush(f1) {
                    Ok(f2) => f2,
                    Err(e) => {
                        return Err(e);
                    },
                };
                let b2 = match LayoutBox::layout(child, f2.dims) {
                    Ok(b2) => b2,
                    Err(e) => {
                        return Err(e);
                    },
                };
                let mb2 = match b2.dimensions.margin_box() {
                    Some(mb2) => mb2,
                    None => {
                        return Err(LayoutError::Overflow);
                    },
                };
                proof {
                    lemma_views_push(kids@, b2);
                }
                kids.push(b2);
                let mut dims = f2.dims;
                dims.current.x = mb2.width;
                Ok(Flow { dims, row_max: mb2.height, prev: bt })
            } else {
                kids.push(b);
                let mut dims = f1.dims;
                dims.current.x = cx;
                let row_max = if mb.height > f1.row_max {
                    mb.height
                } else {
                    f1.row_max
                };
                Ok(Flow { dims, row_max, prev: bt })
            }
        } else {
            kids.push(b);
            Ok(Flow { dims: f1.dims, row_max: f1.row_max, prev: bt })
        }
    }
}

fn flush(f: Flow) -> (r: Result<Flow, LayoutError>)
    ensures
        r == flushed(f),
{
    match to_i64(f.dims.content.height as i128 + f.row_max as i128) {
        Ok(h) => {
            let mut dims = f.dims;
            dims.content.height = h;
            dims.current.x = 0;
            Ok(Flow { dims, row_max: 0, prev: f.prev })
        },
        Err(e) => Err(e),
    }
}

/// The box tree of `node` without geometry: `display: none` children and
/// their subtrees are left out.
pub fn build_layout_tree<'a>(node: &'a StyledNode) -> (r: LayoutBox<'a>)
    ensures
        box_view(r) == built(*node),
    decreases node,
{
    let mut layout_node = LayoutBox::new(box_type_for(node.get_display()), node);
    let mut i: usize = 0;
    proof {
        assert(node.children@.take(0) =~= Seq::<StyledNode>::empty());
    }
    while i < node.children.len()
        invariant
            0 <= i <= node.children@.len(),
            layout_node.box_type == box_type_of(node.display()),
            layout_node.styled_node == node,
            layout_node.dimensions == zero_dims(),
            box_views(layout_node.children@) == built_children(node.children@.take(i as int)),
        decreases node.children@.len() - i,
    {
        let child = &node.children[i];
        proof {
            assert(node.children@.take(i + 1).drop_last() =~= node.children@.take(i as int));
            assert(node.children@.take(i + 1).last() == *child);
        }
        match child.get_display() {
            Display::Hidden => {},
            _ => {
                let b = build_layout_tree(child);
                proof {
                    lemma_views_push(layout_node.children@, b);
                }
                layout_node.children.push(b);
            },
        }
        i += 1;
    }
    proof {
        assert(node.children@.take(node.children@.len() as int) =~= node.children@);
    }
    layout_node
}

/// Lays out the styled tree `root` in `containing_block`, whose content
/// height is first set to zero.
pub fn layout_tree<'a>(root: &'a StyledNode, containing_block: Dimensions) -> (r: Result<
    LayoutBox<'a>,
    LayoutError,
>)
    ensures
        result_view(r) == laid_out(*root, with_height(containing_block, 0)),
{
    let mut containing_block = containing_block;
    containing_block.content.height = 0;
    LayoutBox::layout(root, containing_block)
}

/// A `display: none` child, wherever it stands among its siblings, changes
/// nothing in the layout of the others: it gets no box, and neither the
/// row cursor nor the parent's height moves for it.
pub proof fn lemma_hidden_child_ignored(kids: Seq<StyledNode>, i: int, h: StyledNode, d: Dimensions)
    requires
        0 <= i <= kids.len(),
        h.display() == Display::Hidden,
    ensures
        children_laid_out(kids.insert(i, h), d) == children_laid_out(kids, d),
    decreases kids.len(),
{
    let with = kids.insert(i, h);
    if i == kids.len() {
        assert(with.drop_last() =~= kids);
        assert(with.last() == h);
        assert(box_type_of(h.display()) == BoxType::Anonymous);
        match children_laid_out(kids, d) {
            Ok(p) => {
                assert(child_placed(p.0, p.1, h) == Ok::<_, LayoutError>((p.0, p.1)));
            },
            Err(e) => {},
        }
    } else {
        assert(with.drop_last() =~= kids.drop_last().insert(i, h));
        assert(with.last() == kids.last());
        assert(with.len() > 0);
        lemma_hidden_child_ignored(kids.drop_last(), i, h, d);
    }
}

/// No box below `b` shows a `display: none` node.
pub open spec fn visible_below(b: BoxV) -> bool
    decreases b,
{
    forall|i: int|
        0 <= i < b.children.len() ==> (#[trigger] b.children[i]).node.display() != Display::Hidden
            && visible_below(b.children[i])
}

pub open spec fn all_visible(s: Seq<BoxV>) -> bool {
    forall|i: int|
        0 <= i < s.len() ==> (#[trigger] s[i]).node.display() != Display::Hidden && visible_below(
            s[i],
        )
}

proof fn lemma_push_visible(s: Seq<BoxV>, b: BoxV)
    requires
        all_visible(s),
        b.node.display() != Display::Hidden,
        visible_below(b),
    ensures
        all_visible(s.push(b)),
{
    assert forall|i: int| 0 <= i < s.len() + 1 implies (#[trigger] s.push(b)[i]).node.display()
        != Display::Hidden && visible_below(s.push(b)[i]) by {
        if i < s.len() {
            assert(s.push(b)[i] == s[i]);
        }
    }
}

proof fn lemma_built_visible(sv: StyledNode)
    ensures
        visible_below(built(sv)),
    decreases sv, 1int,
{
    lemma_built_children_visible(sv.children@);
}

proof fn lemma_built_children_visible(kids: Seq<StyledNode>)
    ensures
        all_visible(built_children(kids)),
    decreases kids, 0int,
{
    if kids.len() > 0 {
        lemma_built_children_visible(kids.drop_last());
        if kids.last().display() != Display::Hidden {
            lemma_built_visible(kids.last());
            lemma_push_visible(built_children(kids.drop_last()), built(kids.last()));
        }
    }
}

/// Whatever the root, no box of a computed layout below it shows a
/// `display: none` node: such nodes and their subtrees get no box.
pub proof fn lemma_hidden_nodes_get_no_box(sv: StyledNode, cb: Dimensions)
    ensures
        laid_out(sv, cb) matches Ok(b) ==> visible_below(b),
    decreases sv, 2int,
{
    let bt = box_type_of(sv.display());
    if bt == BoxType::Anonymous {
        lemma_built_visible(sv);
    } else {
        match started(sv, cb, bt == BoxType::InlineBlock) {
            Ok(d) => {
                lemma_children_visible(sv.children@, d);
            },
            Err(_) => {},
        }
    }
}

proof fn lemma_children_visible(kids: Seq<StyledNode>, d: Dimensions)
    ensures
        children_laid_out(kids, d) matches Ok(x) ==> all_visible(x.0),
    decreases kids, 0int,
{
    if kids.len() > 0 {
        lemma_children_visible(kids.drop_last(), d);
        match children_laid_out(kids.drop_last(), d) {
            Ok(x) => {
                lemma_child_visible(x.0, x.1, kids.last());
            },
            Err(_) => {},
        }
    }
}

proof fn lemma_child_visible(acc: Seq<BoxV>, f: Flow, c: StyledNode)
    requires
        all_visible(acc),
    ensures
        child_placed(acc, f, c) matches Ok(x) ==> all_visible(x.0),
    decreases c, 3int,
{
    let bt = box_type_of(c.display());
    if bt != BoxType::Anonymous {
        let f0 = if f.prev == BoxType::InlineBlock && bt == BoxType::Block {
            flushed(f)
        } else {
            Ok(f)
        };
        if let Ok(f1) = f0 {
            lemma_hidden_nodes_get_no_box(c, f1.dims);
            if let Ok(b) = laid_out(c, f1.dims) {
                assert(b.node == c);
                lemma_push_visible(acc, b);
                if let Ok(f2) = flushed(f1) {
                    lemma_hidden_nodes_get_no_box(c, f2.dims);
                    if let Ok(b2) = laid_out(c, f2.dims) {
                        assert(b2.node == c);
                        lemma_push_visible(acc, b2);
                    }
                }
            }
        }
    }
}

/// Two styled trees with the same properties at every node and the same
/// shape.
pub open spec fn same_styles(a: StyledNode, b: StyledNode) -> bool
    decreases a,
{
    &&& a.style_map() == b.style_map()
    &&& a.children@.len() == b.children@.len()
    &&& forall|i: int|
        0 <= i < a.children@.len() ==> same_styles(#[trigger] a.children@[i], b.children@[i])
}

pub open spec fn all_same_styles(a: Seq<StyledNode>, b: Seq<StyledNode>) -> bool {
    a.len() == b.len() && forall|i: int| 0 <= i < a.len() ==> same_styles(#[trigger] a[i], b[i])
}

/// Two box trees with the same kinds and dimensions at every box and the
/// same shape.
pub open spec fn same_geometry(x: BoxV, y: BoxV) -> bool
    decreases x,
{
    &&& x.box_type == y.box_type
    &&& x.dimensions == y.dimensions
    &&& x.children.len() == y.children.len()
    &&& forall|i: int|
        0 <= i < x.children.len() ==> same_geometry(#[trigger] x.children[i], y.children[i])
}

pub open spec fn all_same_geometry(x: Seq<BoxV>, y: Seq<BoxV>) -> bool {
    x.len() == y.len() && forall|i: int| 0 <= i < x.len() ==> same_geometry(#[trigger] x[i], y[i])
}

pub open spec fn same_outcome(r1: Result<BoxV, LayoutError>, r2: Result<BoxV, LayoutError>) -> bool {
    match (r1, r2) {
        (Ok(x), Ok(y)) => same_geometry(x, y),
        (Err(e1), Err(e2)) => e1 == e2,
        _ => false,
    }
}

pub open spec fn same_placement(
    r1: Result<(Seq<BoxV>, Flow), LayoutError>,
    r2: Result<(Seq<BoxV>, Flow), LayoutError>,
) -> bool {
    match (r1, r2) {
        (Ok(x), Ok(y)) => all_same_geometry(x.0, y.0) && x.1 == y.1,
        (Err(e1), Err(e2)) => e1 == e2,
        _ => false,
    }
}

proof fn lemma_push_same(x: Seq<BoxV>, y: Seq<BoxV>, a: BoxV, b: BoxV)
    requires
        all_same_geometry(x, y),
        same_geometry(a, b),
    ensures
        all_same_geometry(x.push(a), y.push(b)),
{
    assert forall|i: int| 0 <= i < x.len() + 1 implies same_geometry(
        #[trigger] x.push(a)[i],
        y.push(b)[i],
    ) by {
        if i < x.len() {
            assert(x.push(a)[i] == x[i]);
            assert(y.push(b)[i] == y[i]);
        }
    }
}

proof fn lemma_drop_last_same(a: Seq<StyledNode>, b: Seq<StyledNode>)
    requires
        all_same_styles(a, b),
        a.len() > 0,
    ensures
        all_same_styles(a.drop_last(), b.drop_last()),
        same_styles(a.last(), b.last()),
{
    assert forall|i: int| 0 <= i < a.len() - 1 implies same_styles(
        #[trigger] a.drop_last()[i],
        b.drop_last()[i],
    ) by {
        assert(same_styles(a[i], b[i]));
    }
    assert(same_styles(a[a.len() - 1], b[b.len() - 1]));
}

proof fn lemma_children_styles(a: StyledNode, b: StyledNode)
    requires
        same_styles(a, b),
    ensures
        all_same_styles(a.children@, b.children@),
{
    assert forall|i: int| 0 <= i < a.children@.len() implies same_styles(
        #[trigger] a.children@[i],
        b.children@[i],
    ) by {}
}

proof fn lemma_built_same(a: StyledNode, b: StyledNode)
    requires
        same_styles(a, b),
    ensures
        same_geometry(built(a), built(b)),
    decreases a, 1int,
{
    lemma_children_styles(a, b);
    lemma_built_children_same(a.children@, b.children@);
}

proof fn lemma_built_children_same(a: Seq<StyledNode>, b: Seq<StyledNode>)
    requires
        all_same_styles(a, b),
    ensures
        all_same_geometry(built_children(a), built_children(b)),
    decreases a, 0int,
{
    if a.len() > 0 {
        lemma_drop_last_same(a, b);
        lemma_built_children_same(a.drop_last(), b.drop_last());
        if a.last().display() != Display::Hidden {
            lemma_built_same(a.last(), b.last());
            lemma_push_same(
                built_children(a.drop_last()),
                built_children(b.drop_last()),
                built(a.last()),
                built(b.last()),
            );
        }
    }
}

proof fn lemma_laid_out_same(a: StyledNode, b: StyledNode, cb: Dimensions)
    requires
        same_styles(a, b),
    ensures
        same_outcome(laid_out(a, cb), laid_out(b, cb)),
    decreases a, 2int,
{
    assert(a.display() == b.display());
    let bt = box_type_of(a.display());
    if bt == BoxType::Anonymous {
        lemma_built_same(a, b);
    } else {
        let inline = bt == BoxType::InlineBlock;
        lemma_started_same(a, b, cb, inline);
        match started(a, cb, inline) {
            Ok(d) => {
                lemma_children_styles(a, b);
                lemma_children_same(a.children@, b.children@, d);
                match (children_laid_out(a.children@, d), children_laid_out(b.children@, d)) {
                    (Ok(x), Ok(y)) => {
                        lemma_heightened_same(a, b, cb, x.1.dims);
                    },
                    _ => {},
                }
            },
            Err(_) => {},
        }
    }
}

proof fn lemma_started_same(a: StyledNode, b: StyledNode, cb: Dimensions, inline: bool)
    requires
        a.style_map() == b.style_map(),
    ensures
        started(a, cb, inline) == started(b, cb, inline),
{
    assert(inline_horizontal(a, cb) == inline_horizontal(b, cb));
    assert(block_horizontal(a, cb) == block_horizontal(b, cb));
    assert(forall|d: Dimensions| positioned(a, cb, d, inline) == #[trigger] positioned(b, cb, d, inline));
}

proof fn lemma_heightened_same(a: StyledNode, b: StyledNode, cb: Dimensions, d: Dimensions)
    requires
        a.style_map() == b.style_map(),
    ensures
        heightened(a, cb, d) == heightened(b, cb, d),
{
}

proof fn lemma_children_same(a: Seq<StyledNode>, b: Seq<StyledNode>, d: Dimensions)
    requires
        all_same_styles(a, b),
    ensures
        same_placement(children_laid_out(a, d), children_laid_out(b, d)),
    decreases a, 0int,
{
    if a.len() > 0 {
        lemma_drop_last_same(a, b);
        lemma_children_same(a.drop_last(), b.drop_last(), d);
        match (children_laid_out(a.drop_last(), d), children_laid_out(b.drop_last(), d)) {
            (Ok(x), Ok(y)) => {
                lemma_child_same(x.0, y.0, x.1, a.last(), b.last());
            },
            _ => {},
        }
    }
}

proof fn lemma_child_same(acc1: Seq<BoxV>, acc2: Seq<BoxV>, f: Flow, c1: StyledNode, c2: StyledNode)
    requires
        all_same_geometry(acc1, acc2),
        same_styles(c1, c2),
    ensures
        same_placement(child_placed(acc1, f, c1), child_placed(acc2, f, c2)),
    decreases c1, 3int,
{
    let bt = box_type_of(c1.display());
    if bt != BoxType::Anonymous {
        let f0 = if f.prev == BoxType::InlineBlock && bt == BoxType::Block {
            flushed(f)
        } else {
            Ok(f)
        };
        if let Ok(f1) = f0 {
            lemma_laid_out_same(c1, c2, f1.dims);
            match (laid_out(c1, f1.dims), laid_out(c2, f1.dims)) {
                (Ok(x), Ok(y)) => {
                    lemma_push_same(acc1, acc2, x, y);
                    if let Ok(f2) = flushed(f1) {
                        lemma_laid_out_same(c1, c2, f2.dims);
                        match (laid_out(c1, f2.dims), laid_out(c2, f2.dims)) {
                            (Ok(x2), Ok(y2)) => {
                                lemma_push_same(acc1, acc2, x2, y2);
                            },
                            _ => {},
                        }
                    }
                },
                _ => {},
            }
        }
    }
}

/// Resolving the same document against the same stylesheet twice and laying
/// out both results in the same containing block gives the same outcome:
/// the same error, or box trees with the same shape, kinds and dimensions.
pub proof fn lemma_layout_deterministic(
    n: Node,
    sheet: Stylesheet,
    s1: StyledNode,
    s2: StyledNode,
    cb: Dimensions,
)
    requires
        styled_from(s1, n, sheet),
        styled_from(s2, n, sheet),
    ensures
        same_outcome(laid_out(s1, with_height(cb, 0)), laid_out(s2, with_height(cb, 0))),
{
    lemma_styled_same(s1, s2, n, sheet);
    lemma_laid_out_same(s1, s2, with_height(cb, 0));
}

proof fn lemma_styled_same(a: StyledNode, b: StyledNode, n: Node, sheet: Stylesheet)
    requires
        styled_from(a, n, sheet),
        styled_from(b, n, sheet),
    ensures
        same_styles(a, b),
    decreases a,
{
    assert forall|i: int| 0 <= i < a.children@.len() implies same_styles(
        #[trigger] a.children@[i],
        b.children@[i],
    ) by {
        lemma_styled_same(a.children@[i], b.children@[i], element_children(n)[i], sheet);
    }
}

pub open spec fn box_type_text(t: BoxType) -> Seq<char> {
    match t {
        BoxType::Block => "block"@,
        BoxType::Inline => "inline"@,
        BoxType::InlineBlock => "inline-block"@,
        BoxType::Anonymous => "anonymous"@,
    }
}

pub open spec fn rectangle_text(r: Rectangle) -> Seq<char> {
    "x: "@ + int_text(r.x as int) + ", y: "@ + int_text(r.y as int) + ", w: "@ + int_text(
        r.width as int,
    ) + ", h: "@ + int_text(r.height as int)
}

pub open spec fn edges_text(e: EdgeSizes) -> Seq<char> {
    "l: "@ + int_text(e.left as int) + " r: "@ + int_text(e.right as int) + " top: "@ + int_text(
        e.top as int,
    ) + " bot: "@ + int_text(e.bottom as int)
}

pub open spec fn dimensions_text(d: Dimensions) -> Seq<char> {
    "content:\n  "@ + rectangle_text(d.content) + "\npadding:\n  "@ + edges_text(d.padding)
        + "\nborder:\n  "@ + edges_text(d.border) + "\nmargin:\n  "@ + edges_text(d.margin)
}

impl BoxType {
    pub fn to_string(&self) -> (r: String)
        ensures
            r@ == box_type_text(*self),
    {
        let mut result = String::new();
        match self {
            BoxType::Block => push_str(&mut result, "block"),
            BoxType::Inline => push_str(&mut result, "inline"),
            BoxType::InlineBlock => push_str(&mut result, "inline-block"),
            BoxType::Anonymous => push_str(&mut result, "anonymous"),
        }
        proof {
            assert(result@ =~= box_type_text(*self));
        }
        result
    }
}

impl Rectangle {
    pub fn to_string(&self) -> (r: String)
        ensures
            r@ == rectangle_text(*self),
    {
        let mut result = String::new();
        push_str(&mut result, "x: ");
        push_int(&mut result, self.x);
        push_str(&mut result, ", y: ");
        push_int(&mut result, self.y);
        push_str(&mut result, ", w: ");
        push_int(&mut result, self.width);
        push_str(&mut result, ", h: ");
        push_int(&mut result, self.height);
        proof {
            assert(result@ =~= rectangle_text(*self));
        }
        result
    }
}

impl EdgeSizes {
    pub fn to_string(&self) -> (r: String)
        ensures
            r@ == edges_text(*self),
    {
        let mut result = String::new();
        push_str(&mut result, "l: ");
        push_int(&mut result, self.left);
        push_str(&mut result, " r: ");
        push_int(&mut result, self.right);
        push_str(&mut result, " top: ");
        push_int(&mut result, self.top);
        push_str(&mut result, " bot: ");
        push_int(&mut result, self.bottom);
        proof {
            assert(result@ =~= edges_text(*self));
        }
        result
    }
}

impl Dimensions {
    pub fn to_string(&self) -> (r: String)
        ensures
            r@ == dimensions_text(*self),
    {
        let mut result = String::new();
        push_str(&mut result, "content:\n  ");
        push_str(&mut result, self.content.to_string().as_str());
        push_str(&mut result, "\npadding:\n  ");
        push_str(&mut result, self.padding.to_string().as_str());
        push_str(&mut result, "\nborder:\n  ");
        push_str(&mut result, self.border.to_string().as_str());
        push_str(&mut result, "\nmargin:\n  ");
        push_str(&mut result, self.margin.to_string().as_str());
        proof {
            assert(result@ =~= dimensions_text(*self));
        }
        result
    }
}

impl<'a> LayoutBox<'a> {
    /// The box's kind and dimensions, without its children.
    pub fn to_string(&self) -> (r: String)
        ensures
            r@ == "type:\n  "@ + box_type_text(self.box_type) + seq!['\n'] + dimensions_text(
                self.dimensions,
            ) + seq!['\n'],
    {
        let mut result = String::new();
        push_str(&mut result, "type:\n  ");
        push_str(&mut result, self.box_type.to_string().as_str());
        push_char(&mut result, '\n');
        push_str(&mut result, self.dimensions.to_string().as_str());
        push_char(&mut result, '\n');
        proof {
            assert(result@ =~= "type:\n  "@ + box_type_text(self.box_type) + seq!['\n']
                + dimensions_text(self.dimensions) + seq!['\n']);
        }
        result
    }
}

} // verus!
