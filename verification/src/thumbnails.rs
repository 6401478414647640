//! Which thumbnails the side bar holds.
//!
//! The side bar has one row for each page. Only rows near what is visible
//! hold a picture; all others show a placeholder, so that memory stays
//! bounded whatever the length of the document. Rows are all of one height,
//! which makes the visible rows a matter of division.

use vstd::arithmetic::div_mod::{lemma_fundamental_div_mod, lemma_fundamental_div_mod_converse};
use vstd::prelude::*;

verus! {

/// The height of a row, in pixels.
pub const ROW_HEIGHT: i64 = 140;

/// How many rows above and below the visible ones hold a picture too.
pub const BUFFER_ROWS: i64 = 2;

/// How many rows each side of the page shown hold a picture while the height
/// of the side bar is not known yet.
pub const FALLBACK_RADIUS: i64 = 4;

/// The width of the thumbnails that the side bar asks for when it is
/// scrolled, in pixels.
pub const THUMBNAIL_WIDTH: i32 = 100;

/// The width of the thumbnails that are made in the background, in pixels.
pub const STREAM_THUMBNAIL_WIDTH: i32 = 150;

/// How long the side bar must rest before its thumbnails are brought up to
/// date, in milliseconds.
pub const SCROLL_QUIET_MILLIS: u64 = 200;

/// Largest magnitude of a scroll position, in pixels.
pub const SCROLL_LIMIT: i64 = 1_000_000_000_000_000;

/// What is visible of the side bar: its upper edge, rounded down, and its
/// lower edge, rounded up, in pixels from the top of the first row.
#[derive(Clone, Copy, Debug, PartialEq, Eq, Structural)]
pub struct Viewport {
    pub top: i64,
    pub bottom: i64,
}

/// The rows from `start` to `end`, both among them; no row where `end` is
/// the lesser.
#[derive(Clone, Copy, Debug, PartialEq, Eq, Structural)]
pub struct VisibleRange {
    pub start: i32,
    pub end: i32,
}

impl VisibleRange {
    /// The row is among the rows of the range.
    pub open spec fn holds(self, row: int) -> bool {
        self.start <= row <= self.end
    }

    /// Tells whether the row is among the rows of the range.
    pub fn contains(&self, row: i32) -> (r: bool)
        ensures
            r == self.holds(row as int),
    {
        self.start <= row && row <= self.end
    }
}

/// The greater of two numbers.
pub open spec fn at_least(v: int, low: int) -> int {
    if v < low {
        low
    } else {
        v
    }
}

/// The lesser of two numbers.
pub open spec fn at_most(v: int, high: int) -> int {
    if v > high {
        high
    } else {
        v
    }
}

/// The first of the rows from `low` on that the side bar has: the first row
/// of all for a `low` before it, and the row after the last where `low` is
/// past them all.
pub open spec fn first_row(low: int, total: int) -> int {
    at_most(at_least(low, 0), total)
}

/// The last of the rows up to `high` that the side bar has: the last row of
/// all for a `high` past it, and the row before the first where `high` is
/// before them all.
pub open spec fn last_row(high: int, total: int) -> int {
    at_least(at_most(high, total - 1), -1)
}

/// The row of the upper edge of what is visible: the edge by the row height,
/// rounded down.
pub open spec fn row_of_top(top: int) -> int {
    top / (ROW_HEIGHT as int)
}

/// The row count up to the lower edge of what is visible: the edge by the
/// row height, rounded up.
pub open spec fn row_of_bottom(bottom: int) -> int {
    (bottom + ROW_HEIGHT - 1) / (ROW_HEIGHT as int)
}

/// The rows that hold a picture: the visible rows and the buffer either
/// side or, while the side bar has not been measured, the rows around the
/// page shown; in both cases as far as the side bar has them.
pub open spec fn rows_to_hold(total: int, current: int, viewport: Option<Viewport>) -> (int, int) {
    match viewport {
        Some(view) => (
            first_row(row_of_top(view.top as int) - BUFFER_ROWS, total),
            last_row(row_of_bottom(view.bottom as int) + BUFFER_ROWS, total),
        ),
        None => (
            first_row(current - FALLBACK_RADIUS, total),
            last_row(current + FALLBACK_RADIUS, total),
        ),
    }
}

/// The scroll positions are ones that the range is computed for.
pub open spec fn valid_viewport(viewport: Option<Viewport>) -> bool {
    viewport matches Some(view) ==> -SCROLL_LIMIT <= view.top <= SCROLL_LIMIT && -SCROLL_LIMIT
        <= view.bottom <= SCROLL_LIMIT
}

/// The quotient of `a` by the row height, rounded down.
fn rows_below(a: i64) -> (q: i64)
    requires
        -2 * SCROLL_LIMIT <= a <= 2 * SCROLL_LIMIT,
    ensures
        q == (a as int) / (ROW_HEIGHT as int),
        -2 * SCROLL_LIMIT <= q <= 2 * SCROLL_LIMIT,
{
    if a >= 0 {
        a / ROW_HEIGHT
    } else {
        let up = (-a + ROW_HEIGHT - 1) / ROW_HEIGHT;
        proof {
            let k = (-a + ROW_HEIGHT - 1) as int;
            lemma_fundamental_div_mod(k, ROW_HEIGHT as int);
            let r = k % (ROW_HEIGHT as int);
            lemma_fundamental_div_mod_converse(
                a as int,
                ROW_HEIGHT as int,
                -(up as int),
                ROW_HEIGHT - 1 - r,
            );
        }
        -up
    }
}

/// The rows that hold a picture, for a document of `total` pages of which
/// page `current` is shown.
pub fn visible_range(total: i32, current: i32, viewport: Option<Viewport>) -> (r: VisibleRange)
    requires
        valid_viewport(viewport),
        0 <= total,
    ensures
        (r.start as int, r.end as int) == rows_to_hold(total as int, current as int, viewport),
        0 <= r.start,
        r.end < total,
{
    let (low, high): (i64, i64) = match viewport {
        Some(view) => {
            let first = rows_below(view.top) - BUFFER_ROWS;
            let last = rows_below(view.bottom + ROW_HEIGHT - 1) + BUFFER_ROWS;
            (first, last)
        },
        None => ((current as i64) - FALLBACK_RADIUS, (current as i64) + FALLBACK_RADIUS),
    };
    let start: i64 = if low < 0 {
        0
    } else if low > total as i64 {
        total as i64
    } else {
        low
    };
    let end: i64 = if high > (total as i64) - 1 {
        (total as i64) - 1
    } else if high < -1 {
        -1
    } else {
        high
    };
    VisibleRange { start: start as i32, end: end as i32 }
}

/// The rows of the side bar, and which of them hold a picture.
pub struct ThumbnailCache {
    slots: Vec<bool>,
    range: VisibleRange,
}

/// The rows as contracts see them.
pub struct CacheView {
    /// For each row, whether it holds a picture.
    pub held: Seq<bool>,
    /// The rows that may hold one.
    pub range: VisibleRange,
}

impl CacheView {
    /// What the cache keeps true of itself: no row outside the range holds
    /// a picture.
    pub open spec fn wf(self) -> bool {
        &&& self.held.len() <= i32::MAX
        &&& forall|row: int| 0 <= row < self.held.len() && #[trigger] self.held[row] ==> self.range.holds(row)
    }
}

impl ThumbnailCache {
    /// The rows as contracts see them.
    pub closed spec fn view(&self) -> CacheView {
        CacheView { held: self.slots@, range: self.range }
    }

    /// The rows of a document of `total` pages (none for a negative number),
    /// each with a placeholder. The range is the one around the page shown.
    pub fn prepare_empty_thumbnails(total: i32, current: i32) -> (r: Self)
        ensures
            r@.wf(),
            r@.held.len() == if total < 0 {
                0
            } else {
                total as int
            },
            forall|row: int| 0 <= row < r@.held.len() ==> !r@.held[row],
            (r@.range.start as int, r@.range.end as int) == rows_to_hold(
                r@.held.len() as int,
                current as int,
                None,
            ),
    {
        let count = if total < 0 {
            0
        } else {
            total
        };
        let mut slots: Vec<bool> = Vec::new();
        let mut i: i32 = 0;
        while i < count
            invariant
                0 <= i <= count,
                slots@.len() == i,
                forall|row: int| 0 <= row < i ==> !slots@[row],
            decreases count - i,
        {
            slots.push(false);
            i = i + 1;
        }
        ThumbnailCache { slots, range: visible_range(count, current, None) }
    }

    /// How many rows there are.
    pub fn row_count(&self) -> (r: usize)
        ensures
            r == self@.held.len(),
    {
        self.slots.len()
    }

    /// Tells whether a row holds a picture.
    pub fn holds_picture(&self, row: i32) -> (r: bool)
        ensures
            r == (0 <= row < self@.held.len() && self@.held[row as int]),
    {
        row >= 0 && (row as usize) < self.slots.len() && self.slots[row as usize]
    }

    /// Brings the rows up to date with what is visible. Every row outside
    /// the new range gives up its picture. The rows of the range are given
    /// back in rising order: for each a thumbnail is to be made, and
    /// `set_thumbnail_image` told when it is there.
    pub fn update_thumbnails(&mut self, current: i32, viewport: Option<Viewport>) -> (r: Vec<i32>)
        requires
            old(self)@.wf(),
            valid_viewport(viewport),
        ensures
            final(self)@.wf(),
            final(self)@.held.len() == old(self)@.held.len(),
            (final(self)@.range.start as int, final(self)@.range.end as int) == rows_to_hold(
                old(self)@.held.len() as int,
                current as int,
                viewport,
            ),
            forall|row: int|
                0 <= row < final(self)@.held.len() ==> final(self)@.held[row] == (old(
                    self,
                )@.held[row] && final(self)@.range.holds(row)),
            r@.len() == if final(self)@.range.end < final(self)@.range.start {
                0
            } else {
                final(self)@.range.end - final(self)@.range.start + 1
            },
            forall|k: int| 0 <= k < r@.len() ==> r@[k] == final(self)@.range.start + k,
    {
        let total = self.slots.len() as i32;
        let range = visible_range(total, current, viewport);
        let ghost before = self.slots@;
        let mut i: usize = 0;
        while i < self.slots.len()
            invariant
                0 <= i <= self.slots@.len(),
                self.slots@.len() == before.len(),
                before.len() <= i32::MAX,
                forall|row: int|
                    0 <= row < i ==> self.slots@[row] == (before[row] && range.holds(row)),
                forall|row: int| i <= row < before.len() ==> self.slots@[row] == before[row],
            decreases self.slots.len() - i,
        {
            if !range.contains(i as i32) {
                self.slots.set(i, false);
            }
            i = i + 1;
        }
        self.range = range;
        let mut wanted: Vec<i32> = Vec::new();
        if range.start <= range.end {
            let mut row: i32 = range.start;
            while row < range.end
                invariant
                    range.start <= row <= range.end,
                    wanted@.len() == row - range.start,
                    forall|k: int| 0 <= k < wanted@.len() ==> wanted@[k] == range.start + k,
                decreases range.end - row,
            {
                wanted.push(row);
                row = row + 1;
            }
            wanted.push(range.end);
        }
        wanted
    }

    /// A thumbnail is there for a row. The row takes the picture where it is
    /// a row of the range; a picture for any other row is dropped. Tells
    /// whether the picture was taken.
    pub fn set_thumbnail_image(&mut self, row: i32) -> (r: bool)
        requires
            old(self)@.wf(),
        ensures
            final(self)@.wf(),
            r == (0 <= row < old(self)@.held.len() && old(self)@.range.holds(row as int)),
            r ==> final(self)@ == (CacheView {
                held: old(self)@.held.update(row as int, true),
                ..old(self)@
            }),
            !r ==> final(self)@ == old(self)@,
    {
        if row >= 0 && (row as usize) < self.slots.len() && self.range.contains(row) {
            self.slots.set(row as usize, true);
            true
        } else {
            false
        }
    }
}

/// The picture of one page, as the background work sends it: premultiplied
/// BGRA, four bytes to the pixel, `stride` bytes to the line.
#[derive(Debug)]
pub struct ThumbnailResult {
    pub page_index: i32,
    pub width: i32,
    pub height: i32,
    pub stride: i32,
    pub pixels: Vec<u8>,
}

impl ThumbnailResult {
    /// The lines are long enough for the pixels, and the bytes are as many
    /// as the lines take.
    pub open spec fn consistent(&self) -> bool {
        &&& self.width > 0
        &&& self.height > 0
        &&& self.stride >= 4 * self.width
        &&& self.pixels@.len() == self.stride * self.height
    }

    /// Tells whether the picture is one that can be shown.
    pub fn is_consistent(&self) -> (r: bool)
        ensures
            r == self.consistent(),
    {
        if self.width <= 0 || self.height <= 0 {
            return false;
        }
        assert(-0x4000_0000_0000_0000 <= (self.stride as int) * (self.height as int)
            <= 0x4000_0000_0000_0000) by (nonlinear_arith)
            requires
                -0x8000_0000 <= self.stride <= 0x7fff_ffff,
                0 < self.height <= 0x7fff_ffff,
        ;
        let needed: i64 = (self.stride as i64) * (self.height as i64);
        (self.stride as i64) >= 4 * (self.width as i64) && (self.pixels.len() as u128)
            == (needed as u128)
    }
}

/// The height at which a page shows when it is made `target_width` wide, the
/// proportions kept, rounded down.
pub open spec fn scaled_height(page_width: int, page_height: int, target_width: int) -> int {
    (page_height * target_width) / page_width
}

/// The size of the thumbnail of a page for a width in pixels: none where
/// the page has no width or no height, or the thumbnail would have no
/// height or more than a picture can have.
pub fn thumbnail_size(page_width: i64, page_height: i64, target_width: i32) -> (r: Option<(i32, i32)>)
    ensures
        match r {
            Some((width, height)) => page_width > 0 && page_height > 0 && target_width > 0
                && width == target_width && height > 0 && height == scaled_height(
                page_width as int,
                page_height as int,
                target_width as int,
            ),
            None => page_width <= 0 || page_height <= 0 || target_width <= 0 || scaled_height(
                page_width as int,
                page_height as int,
                target_width as int,
            ) <= 0 || scaled_height(page_width as int, page_height as int, target_width as int)
                > i32::MAX,
        },
{
    if page_width <= 0 || page_height <= 0 || target_width <= 0 {
        return None;
    }
    assert(0 <= (page_height as int) * (target_width as int)
        <= 0x4000_0000_0000_0000_0000_0000) by (nonlinear_arith)
        requires
            0 < page_height <= 0x7fff_ffff_ffff_ffff,
            0 < target_width <= 0x7fff_ffff,
    ;
    let product: i128 = (page_height as i128) * (target_width as i128);
    let height: i128 = product / (page_width as i128);
    if height <= 0 || height > i32::MAX as i128 {
        return None;
    }
    Some((target_width, height as i32))
}

} // verus!
