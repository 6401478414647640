//! Coordinates of the page and of the view.
//!
//! Page space is the document's own: its origin is the bottom left corner of
//! the page and y grows upwards. View space is the display's: its origin is
//! the top left corner and y grows downwards. Between the two lies the sheet:
//! the page measured from its top left corner, not yet scaled, in which
//! annotations are kept. All quantities are in millis; the scale is in
//! thousandths, so a scale of 1000 shows the page in its own size.

use crate::annotations::POSITION_LIMIT;
use crate::units::in_range;
use vstd::arithmetic::div_mod::{lemma_fundamental_div_mod, lemma_fundamental_div_mod_converse};
use vstd::prelude::*;

verus! {

/// The gap between the top of the view and the top of the page: 20 pixels.
pub const TOP_MARGIN: i64 = 20_000;

/// The scale that shows the page in its own size.
pub const UNIT_SCALE: u32 = 1_000;

/// The smallest scale that the view takes: 0.4.
pub const MIN_SCALE: u32 = 400;

/// The largest scale that the view takes: 100.
pub const MAX_SCALE: u32 = 100_000;

/// What one step of zooming adds to or takes off the scale: 0.2.
pub const SCALE_STEP: u32 = 200;

/// Largest magnitude, in millis, of a coordinate of the view.
pub const VIEW_LIMIT: i64 = 1_000_000_000_000_000;

/// The least width of the box in which an annotation is hit: 40 units.
pub const MIN_HIT_WIDTH: i64 = 40_000;

/// What is added to each side length of the box in which an annotation is
/// hit: 10 units.
pub const HIT_MARGIN: i64 = 10_000;

/// The scale is one that the transforms compute with.
pub open spec fn valid_scale(scale: u32) -> bool {
    1 <= scale <= MAX_SCALE
}

/// The quantity is a coordinate of the page or of the sheet.
pub open spec fn valid_length(v: i64) -> bool {
    -POSITION_LIMIT <= v <= POSITION_LIMIT
}

/// The quantity is a coordinate of the view.
pub open spec fn valid_view(v: i64) -> bool {
    -VIEW_LIMIT <= v <= VIEW_LIMIT
}

/// A length of the page as it shows at a scale, rounded down.
pub open spec fn scale_up(v: int, scale: int) -> int {
    (v * scale) / 1000
}

/// The length of the page that shows as `v` at a scale, rounded down.
pub open spec fn scale_down(v: int, scale: int) -> int {
    (v * 1000) / scale
}

/// The scale within the bounds of the view.
pub open spec fn clamped(scale: int) -> int {
    if scale < MIN_SCALE {
        MIN_SCALE as int
    } else if scale > MAX_SCALE {
        MAX_SCALE as int
    } else {
        scale
    }
}

/// The quotient of `a` by a positive `b`, rounded down.
fn floor_div(a: i64, b: i64) -> (q: i64)
    requires
        b > 0,
        b - i64::MAX <= a,
    ensures
        q == a / b,
{
    if a >= 0 {
        a / b
    } else {
        let n = -a;
        let up = (n + b - 1) / b;
        proof {
            let k = (n + b - 1) as int;
            lemma_fundamental_div_mod(k, b as int);
            let r = k % (b as int);
            assert(k == (b as int) * (up as int) + r);
            assert((b as int) * (up as int) == (up as int) * (b as int)) by (nonlinear_arith);
            assert((-(up as int)) * (b as int) == -((up as int) * (b as int))) by (nonlinear_arith);
            lemma_fundamental_div_mod_converse(a as int, b as int, -(up as int), b - 1 - r);
        }
        -up
    }
}

/// Brings a scale within the bounds of the view.
pub fn clamp_scale(scale: u32) -> (r: u32)
    ensures
        r == clamped(scale as int),
        MIN_SCALE <= r <= MAX_SCALE,
{
    if scale < MIN_SCALE {
        MIN_SCALE
    } else if scale > MAX_SCALE {
        MAX_SCALE
    } else {
        scale
    }
}

/// The scale one step further in.
pub fn zoom_in(scale: u32) -> (r: u32)
    ensures
        r == clamped(scale + SCALE_STEP),
{
    if scale > MAX_SCALE {
        MAX_SCALE
    } else {
        clamp_scale(scale + SCALE_STEP)
    }
}

/// The scale one step further out.
pub fn zoom_out(scale: u32) -> (r: u32)
    ensures
        r == clamped(scale - SCALE_STEP),
{
    if scale < SCALE_STEP {
        MIN_SCALE
    } else {
        clamp_scale(scale - SCALE_STEP)
    }
}

/// How far the page stands from the left edge of the view: the view centres
/// a page that is narrower than itself, and shows a wider one from its left
/// edge on.
pub open spec fn centering(viewport_width: int, page_width: int, scale: int) -> int {
    if viewport_width > scale_up(page_width, scale) {
        (viewport_width - scale_up(page_width, scale)) / 2
    } else {
        0
    }
}

/// How far the page stands from the left edge of the view.
pub fn centering_offset(viewport_width: i64, page_width: i64, scale: u32) -> (r: i64)
    requires
        valid_view(viewport_width),
        valid_length(page_width),
        valid_scale(scale),
    ensures
        r == centering(viewport_width as int, page_width as int, scale as int),
        0 <= r,
        valid_view(r),
{
    assert(-400_000_000_000_000_000 <= page_width * scale <= 400_000_000_000_000_000)
        by (nonlinear_arith)
        requires
            -4_000_000_000_000 <= page_width <= 4_000_000_000_000,
            1 <= scale <= 100_000,
    ;
    let drawn = floor_div(page_width * (scale as i64), 1000);
    if viewport_width > drawn {
        (viewport_width - drawn) / 2
    } else {
        0
    }
}

/// Where a point of the page shows, measured from the top left corner of the
/// page as drawn.
pub open spec fn to_view(x: int, y: int, page_height: int, scale: int) -> (int, int) {
    (scale_up(x, scale), scale_up(page_height - y, scale))
}

/// The point of the page that shows at a point of the view. The view draws
/// the page `offset_x` from its left edge and `TOP_MARGIN` from its top.
pub open spec fn to_page(vx: int, vy: int, page_height: int, scale: int, offset_x: int) -> (
    int,
    int,
) {
    (scale_down(vx - offset_x, scale), page_height - scale_down(vy - TOP_MARGIN, scale))
}

/// The point of the sheet that shows at a point of the view.
pub open spec fn to_sheet(vx: int, vy: int, scale: int, offset_x: int) -> (int, int) {
    (scale_down(vx - offset_x, scale), scale_down(vy - TOP_MARGIN, scale))
}

/// Where a point of the page shows, measured from the top left corner of the
/// page as drawn.
pub fn page_to_view(x: i64, y: i64, page_height: i64, scale: u32) -> (r: (i64, i64))
    requires
        valid_length(x),
        valid_length(y),
        valid_length(page_height),
        valid_scale(scale),
    ensures
        (r.0 as int, r.1 as int) == to_view(x as int, y as int, page_height as int, scale as int),
        valid_view(r.0),
        valid_view(r.1),
{
    let down = page_height - y;
    assert(-400_000_000_000_000_000 <= x * scale <= 400_000_000_000_000_000) by (nonlinear_arith)
        requires
            -4_000_000_000_000 <= x <= 4_000_000_000_000,
            1 <= scale <= 100_000,
    ;
    assert(-800_000_000_000_000_000 <= down * scale <= 800_000_000_000_000_000)
        by (nonlinear_arith)
        requires
            -8_000_000_000_000 <= down <= 8_000_000_000_000,
            1 <= scale <= 100_000,
    ;
    (floor_div(x * (scale as i64), 1000), floor_div(down * (scale as i64), 1000))
}

/// Where a point of the sheet shows, measured from the top left corner of
/// the page as drawn.
pub fn sheet_to_view(x: i64, y: i64, scale: u32) -> (r: (i64, i64))
    requires
        valid_length(x),
        valid_length(y),
        valid_scale(scale),
    ensures
        r.0 == scale_up(x as int, scale as int),
        r.1 == scale_up(y as int, scale as int),
        valid_view(r.0),
        valid_view(r.1),
{
    assert(-400_000_000_000_000_000 <= x * scale <= 400_000_000_000_000_000) by (nonlinear_arith)
        requires
            -4_000_000_000_000 <= x <= 4_000_000_000_000,
            1 <= scale <= 100_000,
    ;
    assert(-400_000_000_000_000_000 <= y * scale <= 400_000_000_000_000_000) by (nonlinear_arith)
        requires
            -4_000_000_000_000 <= y <= 4_000_000_000_000,
            1 <= scale <= 100_000,
    ;
    (floor_div(x * (scale as i64), 1000), floor_div(y * (scale as i64), 1000))
}

/// The point of the sheet that shows at a point of the view.
pub fn view_to_sheet(vx: i64, vy: i64, scale: u32, offset_x: i64) -> (r: (i64, i64))
    requires
        valid_view(vx),
        valid_view(vy),
        valid_view(offset_x),
        valid_scale(scale),
    ensures
        (r.0 as int, r.1 as int) == to_sheet(vx as int, vy as int, scale as int, offset_x as int),
{
    let s = scale as i64;
    let x = floor_div((vx - offset_x) * 1000, s);
    let y = floor_div((vy - TOP_MARGIN) * 1000, s);
    (x, y)
}

/// The point of the page that shows at a point of the view.
pub fn view_to_page(vx: i64, vy: i64, page_height: i64, scale: u32, offset_x: i64) -> (r: (
    i64,
    i64,
))
    requires
        valid_view(vx),
        valid_view(vy),
        valid_view(offset_x),
        valid_length(page_height),
        valid_scale(scale),
    ensures
        (r.0 as int, r.1 as int) == to_page(
            vx as int,
            vy as int,
            page_height as int,
            scale as int,
            offset_x as int,
        ),
{
    let s = scale as i64;
    let x = floor_div((vx - offset_x) * 1000, s);
    let down = floor_div((vy - TOP_MARGIN) * 1000, s);
    proof {
        let n = (vy - TOP_MARGIN) * 1000;
        assert(-2_000_000_000_000_000_000 <= n / (s as int) <= 2_000_000_000_000_000_000)
            by (nonlinear_arith)
            requires
                -2_000_000_000_000_000_000 <= n <= 2_000_000_000_000_000_000,
                s >= 1,
        ;
    }
    (x, page_height - down)
}

/// How far a length may be off after it went to the view and back: both
/// roundings are downwards, so it is never more than it was, and less by at
/// most this much.
pub open spec fn tolerance(scale: int) -> int {
    999int / scale + 1
}

/// A length that goes to the view and back comes out within the tolerance.
pub proof fn lemma_scale_inverse(v: int, scale: int)
    requires
        scale >= 1,
    ensures
        v - tolerance(scale) <= scale_down(scale_up(v, scale), scale) <= v,
{
    let up = scale_up(v, scale);
    let back = scale_down(up, scale);
    lemma_fundamental_div_mod(v * scale, 1000);
    lemma_fundamental_div_mod(up * 1000, scale);
    let r1 = (v * scale) % 1000;
    let r2 = (up * 1000) % scale;
    assert(v * scale == 1000 * up + r1);
    assert(up * 1000 == scale * back + r2);
    lemma_fundamental_div_mod(999, scale);
    let t = 999int / scale;
    let r3 = 999int % scale;
    assert(999 == scale * t + r3);
    assert(back <= v) by (nonlinear_arith)
        requires
            v * scale == 1000 * up + r1,
            up * 1000 == scale * back + r2,
            0 <= r1,
            0 <= r2,
            scale >= 1,
    ;
    assert(v - back <= t + 1) by (nonlinear_arith)
        requires
            v * scale == 1000 * up + r1,
            up * 1000 == scale * back + r2,
            999 == scale * t + r3,
            0 <= r1 <= 999,
            0 <= r2 < scale,
            0 <= r3 < scale,
            scale >= 1,
    ;
}

/// The way to the view and back is the identity up to rounding: a point of
/// the page, shown at a scale and placed where the view draws the page,
/// comes back as itself within the tolerance, x from below and y from above.
pub proof fn lemma_view_page_inverse(x: int, y: int, page_height: int, scale: int, offset_x: int)
    requires
        scale >= 1,
    ensures
        ({
            let (vx, vy) = to_view(x, y, page_height, scale);
            let (px, py) = to_page(vx + offset_x, vy + TOP_MARGIN, page_height, scale, offset_x);
            &&& x - tolerance(scale) <= px <= x
            &&& y <= py <= y + tolerance(scale)
        }),
{
    lemma_scale_inverse(x, scale);
    lemma_scale_inverse(page_height - y, scale);
}

/// At the scale that shows the page in its own size, and at every whole
/// multiple of it, the way to the view and back is exact.
pub proof fn lemma_view_page_inverse_exact(
    x: int,
    y: int,
    page_height: int,
    scale: int,
    offset_x: int,
)
    requires
        scale >= 1,
        scale % 1000 == 0,
    ensures
        ({
            let (vx, vy) = to_view(x, y, page_height, scale);
            to_page(vx + offset_x, vy + TOP_MARGIN, page_height, scale, offset_x) == (x, y)
        }),
{
    lemma_exact_scale(x, scale);
    lemma_exact_scale(page_height - y, scale);
}

proof fn lemma_exact_scale(v: int, scale: int)
    requires
        scale >= 1,
        scale % 1000 == 0,
    ensures
        scale_down(scale_up(v, scale), scale) == v,
{
    lemma_fundamental_div_mod(scale, 1000);
    let k = scale / 1000;
    assert(scale == 1000 * k);
    assert(v * scale == (v * k) * 1000 + 0) by (nonlinear_arith)
        requires
            scale == 1000 * k,
    ;
    lemma_fundamental_div_mod_converse(v * scale, 1000, v * k, 0);
    let up = scale_up(v, scale);
    assert(up == v * k);
    assert(up * 1000 == v * scale + 0) by (nonlinear_arith)
        requires
            up == v * k,
            scale == 1000 * k,
    ;
    lemma_fundamental_div_mod_converse(up * 1000, scale, v, 0);
}

/// Turns a height above the bottom of the page into a distance from its top,
/// and back.
pub fn flip_y(page_height: i64, y: i64) -> (r: i64)
    requires
        valid_length(page_height),
        valid_length(y),
    ensures
        r == page_height - y,
{
    page_height - y
}

/// A rectangle of the page by two opposite corners, in page space.
#[derive(Clone, Copy, Debug, PartialEq, Eq, Structural)]
pub struct Rect {
    pub x1: i64,
    pub y1: i64,
    pub x2: i64,
    pub y2: i64,
}

impl Rect {
    /// All four coordinates are coordinates of the page.
    pub open spec fn valid(self) -> bool {
        valid_length(self.x1) && valid_length(self.y1) && valid_length(self.x2) && valid_length(
            self.y2,
        )
    }

    /// Tells whether all four coordinates are coordinates of the page.
    pub fn is_valid(&self) -> (r: bool)
        ensures
            r == self.valid(),
    {
        -POSITION_LIMIT <= self.x1 && self.x1 <= POSITION_LIMIT && -POSITION_LIMIT <= self.y1
            && self.y1 <= POSITION_LIMIT && -POSITION_LIMIT <= self.x2 && self.x2
            <= POSITION_LIMIT && -POSITION_LIMIT <= self.y2 && self.y2 <= POSITION_LIMIT
    }
}

/// A copy of a list of rectangles.
pub fn copy_rects(rects: &Vec<Rect>) -> (r: Vec<Rect>)
    ensures
        r@ == rects@,
{
    let mut out: Vec<Rect> = Vec::new();
    let mut i: usize = 0;
    while i < rects.len()
        invariant
            0 <= i <= rects@.len(),
            out@ == rects@.subrange(0, i as int),
        decreases rects.len() - i,
    {
        out.push(rects[i]);
        assert(out@ =~= rects@.subrange(0, i + 1));
        i = i + 1;
    }
    assert(out@ =~= rects@);
    out
}

/// A box of the sheet: its left and its top edge, its width and its height.
#[derive(Clone, Copy, Debug, PartialEq, Eq, Structural)]
pub struct SheetBox {
    pub x: i64,
    pub y: i64,
    pub width: i64,
    pub height: i64,
}

/// The box of the sheet that a rectangle of the page covers. The corners of
/// the rectangle may come in either order from top to bottom.
pub open spec fn sheet_box_of(rect: Rect, page_height: int) -> SheetBox {
    let top = if rect.y1 >= rect.y2 {
        rect.y1
    } else {
        rect.y2
    };
    let bottom = if rect.y1 >= rect.y2 {
        rect.y2
    } else {
        rect.y1
    };
    SheetBox {
        x: rect.x1,
        y: (page_height - top) as i64,
        width: (if rect.x2 >= rect.x1 {
            rect.x2 - rect.x1
        } else {
            rect.x1 - rect.x2
        }) as i64,
        height: (top - bottom) as i64,
    }
}

/// The box of the sheet that a rectangle of the page covers, as a highlight
/// is painted.
pub fn highlight_box(rect: Rect, page_height: i64) -> (r: SheetBox)
    requires
        rect.valid(),
        valid_length(page_height),
    ensures
        r == sheet_box_of(rect, page_height as int),
        r.width >= 0,
        r.height >= 0,
{
    let top = if rect.y1 >= rect.y2 {
        rect.y1
    } else {
        rect.y2
    };
    let bottom = if rect.y1 >= rect.y2 {
        rect.y2
    } else {
        rect.y1
    };
    SheetBox {
        x: rect.x1,
        y: page_height - top,
        width: if rect.x2 >= rect.x1 {
            rect.x2 - rect.x1
        } else {
            rect.x1 - rect.x2
        },
        height: top - bottom,
    }
}

/// The width of the box in which an annotation is hit: four fifths of the
/// font size for each character, at least `MIN_HIT_WIDTH`, and the margin.
/// The box is an estimate; text is not laid out to find it.
pub open spec fn hit_width(content_len: int, font_size: int) -> int {
    let text = (content_len * font_size * 4) / 5;
    (if text > MIN_HIT_WIDTH {
        text
    } else {
        MIN_HIT_WIDTH as int
    }) + HIT_MARGIN
}

/// The height of the box in which an annotation is hit: twice the font size,
/// and the margin.
pub open spec fn hit_height(font_size: int) -> int {
    font_size * 2 + HIT_MARGIN
}

/// The point lies in the box of an annotation at `(x, y)`: the box has the
/// annotation's position as its top left corner, and its edges belong to it.
pub open spec fn in_hit_box(
    x: int,
    y: int,
    content_len: int,
    font_size: int,
    px: int,
    py: int,
) -> bool {
    x <= px <= x + hit_width(content_len, font_size) && y <= py <= y + hit_height(font_size)
}

/// Tells whether a point of the sheet lies in the box of an annotation.
pub fn hits(x: i64, y: i64, content_len: usize, font_size: i64, px: i64, py: i64) -> (r: bool)
    requires
        in_range(font_size as int),
    ensures
        r == in_hit_box(
            x as int,
            y as int,
            content_len as int,
            font_size as int,
            px as int,
            py as int,
        ),
{
    let len = content_len as i128;
    let size = font_size as i128;
    assert(-80_000_000_000_000_000_000_000_000_000_000 <= len * size * 4
        <= 80_000_000_000_000_000_000_000_000_000_000) by (nonlinear_arith)
        requires
            0 <= len <= 0xffff_ffff_ffff_ffff,
            -1_000_000_000_000 <= size <= 1_000_000_000_000,
    ;
    assert(-20_000_000_000_000_000_000_000_000_000_000 <= len * size
        <= 20_000_000_000_000_000_000_000_000_000_000) by (nonlinear_arith)
        requires
            0 <= len <= 0xffff_ffff_ffff_ffff,
            -1_000_000_000_000 <= size <= 1_000_000_000_000,
    ;
    let product: i128 = len * size * 4;
    let wide = product > (MIN_HIT_WIDTH as i128) * 5 + 4;
    proof {
        lemma_fundamental_div_mod(product as int, 5);
    }
    let dx = (px as i128) - (x as i128);
    let dy = (py as i128) - (y as i128);
    let in_width = if wide {
        // dx <= product / 5 + margin, with the quotient rounded down
        dx >= 0 && (dx - (HIT_MARGIN as i128)) * 5 <= product
    } else {
        dx >= 0 && dx <= (MIN_HIT_WIDTH as i128) + (HIT_MARGIN as i128)
    };
    in_width && dy >= 0 && dy <= size * 2 + (HIT_MARGIN as i128)
}

/// The size that the view asks for to show a page at a scale: the page as
/// drawn, and the margin above and below it.
pub fn content_size(page_width: i64, page_height: i64, scale: u32) -> (r: (i64, i64))
    requires
        valid_length(page_width),
        valid_length(page_height),
        valid_scale(scale),
    ensures
        r.0 == scale_up(page_width as int, scale as int),
        r.1 == scale_up(page_height as int, scale as int) + 2 * TOP_MARGIN,
{
    let (w, h) = sheet_to_view(page_width, page_height, scale);
    (w, h + 2 * TOP_MARGIN)
}

} // verus!
