//! Where the window goes on the screen, and whether it shows in the task bar.

use vstd::prelude::*;

verus! {

/// A rectangle on the screen, in pixels.
#[derive(Clone, Copy, PartialEq, Eq, Structural, Debug)]
pub struct ScreenRect {
    pub left: i32,
    pub top: i32,
    pub right: i32,
    pub bottom: i32,
}

/// The length of a side, at least one pixel.
pub open spec fn side(from: i32, to: i32) -> int {
    if to - from < 1 {
        1
    } else {
        to - from
    }
}

impl ScreenRect {
    /// Pixels from left to right.
    pub open spec fn width(self) -> int {
        side(self.left, self.right)
    }

    /// Pixels from top to bottom.
    pub open spec fn height(self) -> int {
        side(self.top, self.bottom)
    }
}

/// A margin, which is never negative.
pub open spec fn margin_of(margin_px: i32) -> int {
    if margin_px < 0 {
        0
    } else {
        margin_px as int
    }
}

/// Whether a number is in the range of coordinates.
pub open spec fn is_coordinate(n: int) -> bool {
    i32::MIN <= n <= i32::MAX
}

/// Whether the sides of a rectangle are in the range of coordinates.
pub open spec fn has_sides(rect: ScreenRect) -> bool {
    is_coordinate(rect.right - rect.left) && is_coordinate(rect.bottom - rect.top)
}

/// Whether a window can be placed near the lower right corner of `work`.
pub open spec fn can_snap(window: ScreenRect, work: ScreenRect, margin_px: i32) -> bool {
    let margin = margin_of(margin_px);
    &&& has_sides(window)
    &&& is_coordinate(work.right - window.width())
    &&& is_coordinate(work.right - window.width() - margin)
    &&& is_coordinate(work.bottom - window.height())
    &&& is_coordinate(work.bottom - window.height() - margin)
}

fn side_of(from: i32, to: i32) -> (length: i32)
    requires
        is_coordinate(to - from),
    ensures
        length == side(from, to),
        length >= 1,
{
    let length: i32 = to - from;
    if length < 1 {
        1
    } else {
        length
    }
}

fn fits(n: i64) -> (fits: bool)
    ensures
        fits == is_coordinate(n as int),
{
    i32::MIN as i64 <= n && n <= i32::MAX as i64
}

fn wide_side(from: i32, to: i32) -> (length: i64)
    ensures
        length == side(from, to),
{
    let length: i64 = to as i64 - from as i64;
    if length < 1 {
        1
    } else {
        length
    }
}

/// Tests whether a window can be placed near the lower right corner of `work`.
pub fn snap_possible(window: ScreenRect, work: ScreenRect, margin_px: i32) -> (possible: bool)
    ensures
        possible == can_snap(window, work, margin_px),
{
    let margin: i64 = if margin_px < 0 {
        0
    } else {
        margin_px as i64
    };
    let width: i64 = wide_side(window.left, window.right);
    let height: i64 = wide_side(window.top, window.bottom);
    fits(window.right as i64 - window.left as i64) && fits(window.bottom as i64 - window.top as i64)
        && fits(work.right as i64 - width) && fits(work.right as i64 - width - margin) && fits(
        work.bottom as i64 - height,
    ) && fits(work.bottom as i64 - height - margin)
}

/// Where a window of `length` pixels begins between `from` and `to`: `margin` pixels before the
/// end, but not before the beginning.
pub open spec fn snapped(from: int, to: int, length: int, margin: int) -> int {
    if to - length - margin < from {
        from
    } else {
        to - length - margin
    }
}

/// Places a window in the lower right corner of the work area, `margin_px` from its edges as far
/// as there is room, and returns the place of its upper left corner.
pub fn snap_near_right(window: ScreenRect, work: ScreenRect, margin_px: i32) -> (place: (i32, i32))
    requires
        can_snap(window, work, margin_px),
    ensures
        place.0 == snapped(
            work.left as int,
            work.right as int,
            window.width(),
            margin_of(margin_px),
        ),
        place.1 == snapped(
            work.top as int,
            work.bottom as int,
            window.height(),
            margin_of(margin_px),
        ),
{
    let w: i32 = side_of(window.left, window.right);
    let h: i32 = side_of(window.top, window.bottom);
    let margin: i32 = if margin_px < 0 {
        0
    } else {
        margin_px
    };
    let x: i32 = work.right - w - margin;
    let y: i32 = work.bottom - h - margin;
    (if x < work.left { work.left } else { x }, if y < work.top { work.top } else { y })
}

/// A window that fits into the work area stays inside it, and where there is room for the margin
/// too, the margin is free on the right and below.
pub proof fn lemma_snapped_window_is_visible(
    window: ScreenRect,
    work: ScreenRect,
    margin_px: i32,
    place: (i32, i32),
)
    requires
        can_snap(window, work, margin_px),
        place.0 == snapped(
            work.left as int,
            work.right as int,
            window.width(),
            margin_of(margin_px),
        ),
        place.1 == snapped(
            work.top as int,
            work.bottom as int,
            window.height(),
            margin_of(margin_px),
        ),
        window.width() <= work.right - work.left,
        window.height() <= work.bottom - work.top,
    ensures
        work.left <= place.0 && place.0 + window.width() <= work.right,
        work.top <= place.1 && place.1 + window.height() <= work.bottom,
        window.width() + margin_of(margin_px) <= work.right - work.left ==> place.0
            + window.width() + margin_of(margin_px) == work.right,
        window.height() + margin_of(margin_px) <= work.bottom - work.top ==> place.1
            + window.height() + margin_of(margin_px) == work.bottom,
{
}

/// Half of a number, rounded towards zero.
pub open spec fn half(n: int) -> int {
    if n < 0 {
        -((-n) / 2)
    } else {
        n / 2
    }
}

/// Whether a window can be placed in the middle of `work`.
pub open spec fn can_center(window: ScreenRect, work: ScreenRect) -> bool {
    &&& has_sides(window)
    &&& has_sides(work)
    &&& is_coordinate(work.left + half(work.width() - window.width()))
    &&& is_coordinate(work.top + half(work.height() - window.height()))
}

fn half_of(n: i64) -> (h: i64)
    requires
        n > i64::MIN,
    ensures
        h == half(n as int),
{
    if n < 0 {
        -((-n) / 2)
    } else {
        n / 2
    }
}

/// Tests whether a window can be placed in the middle of `work`.
pub fn center_possible(window: ScreenRect, work: ScreenRect) -> (possible: bool)
    ensures
        possible == can_center(window, work),
{
    let width: i64 = wide_side(work.left, work.right) - wide_side(window.left, window.right);
    let height: i64 = wide_side(work.top, work.bottom) - wide_side(window.top, window.bottom);
    fits(window.right as i64 - window.left as i64) && fits(window.bottom as i64 - window.top as i64)
        && fits(work.right as i64 - work.left as i64) && fits(work.bottom as i64 - work.top as i64)
        && fits(work.left as i64 + half_of(width)) && fits(work.top as i64 + half_of(height))
}

/// Places a window in the middle of the work area, and returns the place of its upper left corner.
pub fn center_on_screen(window: ScreenRect, work: ScreenRect) -> (place: (i32, i32))
    requires
        can_center(window, work),
    ensures
        place.0 == work.left + half(work.width() - window.width()),
        place.1 == work.top + half(work.height() - window.height()),
{
    let w: i32 = side_of(window.left, window.right);
    let h: i32 = side_of(window.top, window.bottom);
    let work_w: i32 = side_of(work.left, work.right);
    let work_h: i32 = side_of(work.top, work.bottom);
    let x: i64 = work.left as i64 + half_of((work_w - w) as i64);
    let y: i64 = work.top as i64 + half_of((work_h - h) as i64);
    (x as i32, y as i32)
}

/// As much is free on one side of a centred window as on the other, to a pixel.
pub proof fn lemma_center_is_balanced(window: ScreenRect, work: ScreenRect, place: (i32, i32))
    requires
        can_center(window, work),
        place.0 == work.left + half(work.width() - window.width()),
        place.1 == work.top + half(work.height() - window.height()),
    ensures
        ({
            let left = place.0 - work.left;
            let right = work.left + work.width() - (place.0 + window.width());
            let above = place.1 - work.top;
            let below = work.top + work.height() - (place.1 + window.height());
            &&& -1 <= right - left <= 1
            &&& -1 <= below - above <= 1
        }),
{
}

/// Style bit of a window that is left out of the task bar.
pub const WS_EX_TOOLWINDOW: u64 = 0x80;

/// Style bit of a window that is put into the task bar.
pub const WS_EX_APPWINDOW: u64 = 0x4_0000;

/// The extended style of a window that shows in the task bar, or does not.
pub open spec fn style_for(style: u64, visible: bool) -> u64 {
    if visible {
        (style & !WS_EX_TOOLWINDOW) | WS_EX_APPWINDOW
    } else {
        (style | WS_EX_TOOLWINDOW) & !WS_EX_APPWINDOW
    }
}

/// Changes the extended style of a window so that it shows in the task bar, or does not.
pub fn taskbar_style(style: u64, visible: bool) -> (changed: u64)
    ensures
        changed == style_for(style, visible),
{
    if visible {
        (style & !WS_EX_TOOLWINDOW) | WS_EX_APPWINDOW
    } else {
        (style | WS_EX_TOOLWINDOW) & !WS_EX_APPWINDOW
    }
}

/// The last change of style counts, of the two style bits exactly one is set, and every other bit
/// stays as it was.
pub proof fn lemma_taskbar_style(style: u64, before: bool, visible: bool)
    ensures
        style_for(style_for(style, before), visible) == style_for(style, visible),
        (style_for(style, visible) & WS_EX_APPWINDOW != 0) == visible,
        (style_for(style, visible) & WS_EX_TOOLWINDOW != 0) == !visible,
        style_for(style, visible) & !(WS_EX_APPWINDOW | WS_EX_TOOLWINDOW) == style & !(
        WS_EX_APPWINDOW | WS_EX_TOOLWINDOW),
{
    let shown = (style & !0x80u64) | 0x4_0000u64;
    let hidden = (style | 0x80u64) & !0x4_0000u64;
    assert((hidden & !0x80u64) | 0x4_0000u64 == shown && (shown | 0x80u64) & !0x4_0000u64 == hidden
        && (shown & !0x80u64) | 0x4_0000u64 == shown && (hidden | 0x80u64) & !0x4_0000u64 == hidden
        && shown & 0x4_0000u64 != 0 && shown & 0x80u64 == 0 && hidden & 0x4_0000u64 == 0 && hidden
        & 0x80u64 != 0 && shown & !(0x4_0000u64 | 0x80u64) == style & !(0x4_0000u64 | 0x80u64)
        && hidden & !(0x4_0000u64 | 0x80u64) == style & !(0x4_0000u64 | 0x80u64)) by (bit_vector)
        requires
            shown == (style & !0x80u64) | 0x4_0000u64,
            hidden == (style | 0x80u64) & !0x4_0000u64,
    ;
}

/// A side is as long as it is drawn, and one pixel where it is not drawn at all. A margin is what was
/// asked for, and nothing where less than that was.
pub proof fn lemma_sides_and_margins(from: i32, to: i32, margin_px: i32)
    ensures
        from < to ==> side(from, to) == to - from,
        from >= to ==> side(from, to) == 1,
        margin_px >= 0 ==> margin_of(margin_px) == margin_px,
        margin_px < 0 ==> margin_of(margin_px) == 0,
{
}

/// Whether a rectangle lies on a screen of ordinary size.
pub open spec fn is_ordinary(rect: ScreenRect) -> bool {
    &&& -0x1000_0000 <= rect.left <= 0x1000_0000
    &&& -0x1000_0000 <= rect.right <= 0x1000_0000
    &&& -0x1000_0000 <= rect.top <= 0x1000_0000
    &&& -0x1000_0000 <= rect.bottom <= 0x1000_0000
}

/// Windows on ordinary screens can always be placed.
pub proof fn lemma_ordinary_windows_can_be_placed(
    window: ScreenRect,
    work: ScreenRect,
    margin_px: i32,
)
    requires
        is_ordinary(window),
        is_ordinary(work),
        margin_px <= 0x1000_0000,
    ensures
        can_snap(window, work, margin_px),
        can_center(window, work),
{
}

/// A window that fits into the work area stays inside it when it is centred, and as much is free
/// before it as behind it, or one pixel less.
pub proof fn lemma_centred_window_is_visible(window: ScreenRect, work: ScreenRect)
    requires
        window.left < window.right,
        window.top < window.bottom,
        window.right - window.left <= work.right - work.left,
        window.bottom - window.top <= work.bottom - work.top,
    ensures
        ({
            let x = work.left + half(work.width() - window.width());
            let y = work.top + half(work.height() - window.height());
            let wide = window.right - window.left;
            let high = window.bottom - window.top;
            &&& work.left <= x && x + wide <= work.right
            &&& work.top <= y && y + high <= work.bottom
            &&& x - work.left <= work.right - (x + wide) <= x - work.left + 1
            &&& y - work.top <= work.bottom - (y + high) <= y - work.top + 1
        }),
{
}

} // verus!
