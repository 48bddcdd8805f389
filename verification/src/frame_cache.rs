//! Frame identity cache: a frame that is byte-for-byte the same as the one
//! before it is skipped, and the skips are counted.
use crate::text::{str_eq, string_of};
use vstd::prelude::*;

verus! {

/// Remembers the previous raw frame and counts consecutive duplicates.
pub struct FrameCache {
    prev_raw: String,
    skipped: u64,
    has_prev: bool,
}

/// The cache after seeing `raw`, and whether `raw` was new: the first
/// frame and any frame that differs from the previous one are new (and
/// reset the count); a repeat is not new and increments the count,
/// saturating at `u64::MAX`.
pub open spec fn cache_step(prev: Option<Seq<char>>, skipped: u64, raw: Seq<char>) -> (
    bool,
    Option<Seq<char>>,
    u64,
) {
    match prev {
        None => (true, Some(raw), skipped),
        Some(p) => if p == raw {
            (false, prev, if skipped == u64::MAX {
                u64::MAX
            } else {
                (skipped + 1) as u64
            })
        } else {
            (true, Some(raw), 0)
        },
    }
}

impl FrameCache {
    /// Skips are only counted after a frame: a cache that has seen none has
    /// a zero count.
    #[verifier::type_invariant]
    spec fn counts_after_a_frame(self) -> bool {
        !self.has_prev ==> self.skipped == 0
    }

    /// The previous frame, if one has been seen.
    pub closed spec fn prev(&self) -> Option<Seq<char>> {
        if self.has_prev {
            Some(self.prev_raw@)
        } else {
            None
        }
    }

    /// The number of consecutive skipped frames.
    pub closed spec fn skipped(&self) -> u64 {
        self.skipped
    }

    /// Returns true when `raw` differs from the previous frame, or when
    /// there is no previous frame; false means it is a duplicate.
    pub fn is_new(&mut self, raw: &str) -> (r: bool)
        ensures
            (r, final(self).prev(), final(self).skipped()) == cache_step(
                old(self).prev(),
                old(self).skipped(),
                raw@,
            ),
    {
        proof {
            use_type_invariant(&*self);
        }
        if !self.has_prev {
            self.prev_raw = string_of(raw);
            self.has_prev = true;
            return true;
        }
        if str_eq(raw, self.prev_raw.as_str()) {
            self.skipped = self.skipped.saturating_add(1);
            return false;
        }
        self.prev_raw = string_of(raw);
        self.skipped = 0;
        true
    }

    /// Number of consecutive frames skipped since the last rendered frame;
    /// zero while no frame has been seen.
    pub fn skipped_count(&self) -> (r: u64)
        ensures
            r == self.skipped(),
            self.prev() is None ==> r == 0,
    {
        proof {
            use_type_invariant(self);
        }
        self.skipped
    }
}

impl Default for FrameCache {
    fn default() -> (r: Self)
        ensures
            r.prev() == None::<Seq<char>>,
            r.skipped() == 0,
    {
        FrameCache { prev_raw: String::new(), skipped: 0, has_prev: false }
    }
}

/// The state of a fresh cache after it has seen `frames`, one call each:
/// the previous frame and the skip count.
pub open spec fn cache_run(frames: Seq<Seq<char>>) -> (Option<Seq<char>>, u64)
    decreases frames.len(),
{
    if frames.len() == 0 {
        (None, 0)
    } else {
        let (p, s) = cache_run(frames.drop_last());
        let (_, p2, s2) = cache_step(p, s, frames.last());
        (p2, s2)
    }
}

/// Whether the `i`-th of `frames` was new when a fresh cache saw them.
pub open spec fn was_new(frames: Seq<Seq<char>>, i: int) -> bool {
    cache_step(cache_run(frames.take(i)).0, cache_run(frames.take(i)).1, frames[i]).0
}

/// The length of the final run of frames that repeat the one before them.
pub open spec fn trailing_repeats(frames: Seq<Seq<char>>) -> nat
    decreases frames.len(),
{
    if frames.len() >= 2 && frames.last() == frames[frames.len() - 2] {
        trailing_repeats(frames.drop_last()) + 1
    } else {
        0
    }
}

/// Over any run of frames seen by a fresh cache: a frame is new exactly
/// when it is the first or differs from the one before it; the cache then
/// holds the last frame, and its skip count is the number of trailing
/// repeats (the calls since the last new frame that returned false),
/// saturating at `u64::MAX`; zero with no frame, or when the last frame was
/// new.
pub proof fn law_skips_count_the_last_repeats(frames: Seq<Seq<char>>)
    ensures
        cache_run(frames).0 == (if frames.len() == 0 {
            None::<Seq<char>>
        } else {
            Some(frames.last())
        }),
        cache_run(frames).1 as nat == if trailing_repeats(frames) > u64::MAX as nat {
            u64::MAX as nat
        } else {
            trailing_repeats(frames)
        },
        forall|i: int|
            0 <= i < frames.len() ==> (#[trigger] was_new(frames, i) <==> (i == 0 || frames[i] != frames[i - 1])),
    decreases frames.len(),
{
    if frames.len() > 0 {
        let d = frames.drop_last();
        law_skips_count_the_last_repeats(d);
        if d.len() > 0 {
            assert(d.last() == frames[frames.len() - 2]);
        }
        assert forall|i: int| 0 <= i < frames.len() implies (#[trigger] was_new(frames, i) <==> (i == 0
            || frames[i] != frames[i - 1])) by {
            if i < d.len() {
                assert(frames.take(i) =~= d.take(i));
                assert(was_new(d, i) == was_new(frames, i));
            } else {
                assert(frames.take(i) =~= d);
                if i > 0 {
                    assert(d.last() == frames[i - 1]);
                }
            }
        }
    }
}

/// The first frame a cache sees is always new.
pub proof fn law_first_frame_is_new(skipped: u64, raw: Seq<char>)
    ensures
        cache_step(None, skipped, raw).0,
{
}

/// A frame repeated right after itself is not new, and the repeat is
/// counted.
pub proof fn law_repeat_is_skipped(prev: Option<Seq<char>>, skipped: u64, raw: Seq<char>)
    ensures
        ({
            let (_, p1, s1) = cache_step(prev, skipped, raw);
            let (again, p2, s2) = cache_step(p1, s1, raw);
            &&& !again
            &&& p2 == Some(raw)
            &&& s2 == if s1 == u64::MAX {
                u64::MAX
            } else {
                (s1 + 1) as u64
            }
        }),
{
}

/// A frame that differs from the previous one is new and resets the count.
pub proof fn law_change_resets_count(p: Seq<char>, skipped: u64, raw: Seq<char>)
    requires
        p != raw,
    ensures
        cache_step(Some(p), skipped, raw) == (true, Some(raw), 0u64),
{
}

} // verus!
