//! Which rows of the transcript are on screen: the transcript is laid out
//! as one tall column of card rows, and the view shows its bottom, moved
//! up by the scroll offset.
use vstd::prelude::*;

verus! {

/// The part of the transcript on screen.
#[derive(Clone, Copy, Debug, PartialEq, Eq, Structural)]
pub struct TranscriptWindow {
    /// The scroll offset in effect: the one asked for, at most how far the
    /// transcript can scroll.
    pub offset: u16,
    /// How many rows are shown.
    pub view_h: u16,
    /// The first transcript row shown.
    pub view_top: u16,
    /// The screen row where it is drawn, so that the view ends at `bottom`.
    pub dest_top: u16,
}

pub open spec fn sat_sub(a: int, b: int) -> int {
    if a >= b {
        a - b
    } else {
        0
    }
}

pub open spec fn min_of(a: int, b: int) -> int {
    if a <= b {
        a
    } else {
        b
    }
}

/// The window onto a transcript of `total` rows in `avail` rows of screen
/// ending at row `bottom`, scrolled up by `scroll_offset` rows.
pub open spec fn window_of(total: int, avail: int, scroll_offset: int, bottom: int) -> TranscriptWindow {
    let offset = min_of(scroll_offset, sat_sub(total, avail));
    let view_h = min_of(avail, total);
    TranscriptWindow {
        offset: offset as u16,
        view_h: view_h as u16,
        view_top: sat_sub(sat_sub(total, view_h), offset) as u16,
        dest_top: sat_sub(bottom, view_h) as u16,
    }
}

/// The window onto the transcript (see `window_of`).
pub fn transcript_window(total: u16, avail: u16, scroll_offset: u16, bottom: u16) -> (r: TranscriptWindow)
    ensures
        r == window_of(total as int, avail as int, scroll_offset as int, bottom as int),
        r.view_top as int + r.view_h as int <= total,
        r.view_top as int + r.offset as int + r.view_h as int == total,
{
    let max_offset = total.saturating_sub(avail);
    let offset = if scroll_offset < max_offset {
        scroll_offset
    } else {
        max_offset
    };
    let view_h = if avail < total {
        avail
    } else {
        total
    };
    let view_top = total.saturating_sub(view_h).saturating_sub(offset);
    let dest_top = bottom.saturating_sub(view_h);
    TranscriptWindow { offset, view_h, view_top, dest_top }
}

/// Scrolling further up never moves the view down: a larger offset shows
/// an earlier (or the same) first row, and the same number of rows.
pub proof fn law_scrolling_up_moves_the_view_up(total: u16, avail: u16, o1: u16, o2: u16, bottom: u16)
    requires
        o1 <= o2,
    ensures
        window_of(total as int, avail as int, o2 as int, bottom as int).view_top
            <= window_of(total as int, avail as int, o1 as int, bottom as int).view_top,
        window_of(total as int, avail as int, o2 as int, bottom as int).view_h
            == window_of(total as int, avail as int, o1 as int, bottom as int).view_h,
{
}

} // verus!
