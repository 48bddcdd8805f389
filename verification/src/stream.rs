//! Decisions of the streaming view: which incoming lines are new frames,
//! and how the mouse scrolls the transcript.
use crate::frame_cache::{cache_step, FrameCache};
use crate::text::{trim, trim_ws};
use vstd::prelude::*;

verus! {

/// Whether an incoming line is a frame to decode: not blank, and not the
/// same as the frame before (the cache records it either way, see
/// `FrameCache::is_new`); a blank line leaves the cache as it was.
pub fn accept_line(cache: &mut FrameCache, line: &str) -> (r: bool)
    ensures
        trim_ws(line@).len() == 0 ==> !r && final(cache).prev() == old(cache).prev()
            && final(cache).skipped() == old(cache).skipped(),
        trim_ws(line@).len() > 0 ==> (r, final(cache).prev(), final(cache).skipped()) == cache_step(
            old(cache).prev(),
            old(cache).skipped(),
            line@,
        ),
{
    let t = trim(line);
    if t.as_str().is_empty() {
        return false;
    }
    cache.is_new(line)
}

/// The scroll offset after a wheel step: three rows up (further back) or
/// down, within `0..=u16::MAX`.
pub fn wheel_scroll(offset: u16, up: bool) -> (r: u16)
    ensures
        up ==> r as int == if offset as int + 3 > u16::MAX { u16::MAX as int } else { offset + 3 },
        !up ==> r as int == if offset < 3 { 0 } else { offset - 3 },
{
    if up {
        offset.saturating_add(3)
    } else {
        offset.saturating_sub(3)
    }
}

/// The scroll offset while a selection is dragged to row `row` of a
/// transcript spanning rows `top..bottom`: one row back above it, one row
/// forward on its last row or below, else unchanged.
pub fn drag_scroll(offset: u16, row: u16, top: u16, bottom: u16) -> (r: u16)
    ensures
        row < top ==> r as int == if offset == u16::MAX { u16::MAX as int } else { offset + 1 },
        row >= top && bottom > 0 && row >= bottom - 1 ==> r as int == if offset == 0 { 0 } else { offset - 1 },
        row >= top && !(bottom > 0 && row >= bottom - 1) ==> r == offset,
{
    if row < top {
        offset.saturating_add(1)
    } else if bottom > 0 && row >= bottom - 1 {
        offset.saturating_sub(1)
    } else {
        offset
    }
}

} // verus!
