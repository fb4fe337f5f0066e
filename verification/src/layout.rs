//! Placement of dialogs and boxes on the terminal, and the scrolling of the
//! statistics.

use vstd::prelude::*;

verus! {

/// A rectangle of terminal cells.
#[derive(Clone, Copy, PartialEq, Eq, Structural)]
pub struct Rect {
    pub x: u16,
    pub y: u16,
    pub width: u16,
    pub height: u16,
}

/// `a - b`, or 0 when `b` is larger.
pub open spec fn sat_sub(a: int, b: int) -> int {
    if a > b {
        a - b
    } else {
        0
    }
}

/// A box of at most `w` by `h` cells centred in `area`, kept one cell
/// clear of each edge.
pub open spec fn centered(area: Rect, w: u16, h: u16) -> Rect {
    let w2 = if (w as int) < sat_sub(area.width as int, 2) {
        w as int
    } else {
        sat_sub(area.width as int, 2)
    };
    let h2 = if (h as int) < sat_sub(area.height as int, 2) {
        h as int
    } else {
        sat_sub(area.height as int, 2)
    };
    Rect {
        x: (area.x + (area.width - w2) / 2) as u16,
        y: (area.y + (area.height - h2) / 2) as u16,
        width: w2 as u16,
        height: h2 as u16,
    }
}

/// Centres a box of at most `w` by `h` cells in `area` (see [`centered`]).
pub fn centered_rect(area: Rect, w: u16, h: u16) -> (r: Rect)
    requires
        area.x + area.width <= u16::MAX,
        area.y + area.height <= u16::MAX,
    ensures
        r == centered(area, w, h),
        r.x + r.width <= area.x + area.width,
        r.y + r.height <= area.y + area.height,
{
    let max_w = if area.width > 2 { area.width - 2 } else { 0 };
    let max_h = if area.height > 2 { area.height - 2 } else { 0 };
    let w2 = if w < max_w { w } else { max_w };
    let h2 = if h < max_h { h } else { max_h };
    Rect {
        x: area.x + (area.width - w2) / 2,
        y: area.y + (area.height - h2) / 2,
        width: w2,
        height: h2,
    }
}

/// The compare screen's box: nine lines high, at most seventy cells wide
/// and four cells narrower than `area`, centred in it.
pub open spec fn compare_box_of(area: Rect) -> Rect {
    let w = if 70 < sat_sub(area.width as int, 4) {
        70
    } else {
        sat_sub(area.width as int, 4)
    };
    Rect {
        x: (area.x + sat_sub(area.width as int, w) / 2) as u16,
        y: (area.y + sat_sub(area.height as int, 9) / 2) as u16,
        width: w as u16,
        height: 9,
    }
}

/// Places the compare screen's box (see [`compare_box_of`]).
pub fn compare_box(area: Rect) -> (r: Rect)
    requires
        area.x + area.width <= u16::MAX,
        area.y + area.height <= u16::MAX,
    ensures
        r == compare_box_of(area),
{
    let room = if area.width > 4 { area.width - 4 } else { 0 };
    let w: u16 = if 70 < room { 70 } else { room };
    let dx = if area.width > w { area.width - w } else { 0 };
    let dy = if area.height > 9 { area.height - 9 } else { 0 };
    Rect { x: area.x + dx / 2, y: area.y + dy / 2, width: w, height: 9 }
}

/// The line that shows the last vote's outcome: the whole width of `area`,
/// two lines above the box, when the box leaves room for it.
pub fn result_line(area: Rect, boxed: Rect) -> (r: Option<Rect>)
    requires
        area.y + 2 <= u16::MAX,
    ensures
        boxed.y >= area.y + 2 <==> r is Some,
        r matches Some(l) ==> l == (Rect { x: area.x, y: (boxed.y - 2) as u16, width: area.width, height: 1 }),
{
    if boxed.y >= area.y + 2 {
        Some(Rect { x: area.x, y: boxed.y - 2, width: area.width, height: 1 })
    } else {
        None
    }
}

/// How the statistics are scrolled: the first line shown and, when the
/// text is longer than the area and the area is wider than twelve cells,
/// the percentage scrolled.
pub struct ScrollView {
    pub offset: u16,
    pub percent: Option<u16>,
}

/// Limits the scroll position `scroll` of `content_height` lines shown in
/// `area_height` lines, and works out the percentage to show.
pub fn stats_scroll_view(content_height: u16, area_height: u16, area_width: u16, scroll: u16) -> (v: ScrollView)
    ensures
        v.offset as int == if (scroll as int) < sat_sub(content_height as int, area_height as int) {
            scroll as int
        } else {
            sat_sub(content_height as int, area_height as int)
        },
        v.percent is Some <==> content_height > area_height && area_width > 12,
        v.percent matches Some(p) ==> p as int == (v.offset as int * 100) / sat_sub(
            content_height as int,
            area_height as int,
        ),
        v.percent matches Some(p) ==> p <= 100,
{
    let max_scroll = if content_height > area_height { content_height - area_height } else { 0 };
    let offset = if scroll < max_scroll { scroll } else { max_scroll };
    let percent = if max_scroll > 0 && area_width > 12 {
        let scaled: u32 = (offset as u32) * 100;
        let p: u32 = scaled / (max_scroll as u32);
        assert(p <= 100) by (nonlinear_arith)
            requires
                p as int == (offset as int * 100) / (max_scroll as int),
                offset <= max_scroll,
                max_scroll > 0,
        ;
        Some(p as u16)
    } else {
        None
    };
    ScrollView { offset, percent }
}

} // verus!
