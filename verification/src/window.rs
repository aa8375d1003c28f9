//! The selectable display windows and the retention horizon. Selecting a
//! window is a read-side choice: it changes what a query asks for, never
//! what is retained.

use vstd::prelude::*;

verus! {

/// How many display windows can be selected.
pub const WINDOW_COUNT: usize = 9;

/// The selectable windows in milliseconds, longest first by convention
/// for cycling in the interface.
pub open spec fn spec_window_millis(i: int) -> u64 {
    if i == 0 {
        3_600_000
    } else if i == 1 {
        1_800_000
    } else if i == 2 {
        900_000
    } else if i == 3 {
        600_000
    } else if i == 4 {
        300_000
    } else if i == 5 {
        180_000
    } else if i == 6 {
        60_000
    } else if i == 7 {
        30_000
    } else {
        10_000
    }
}

/// The length of the window at position `i`, longest first.
pub fn window_millis(i: usize) -> (r: u64)
    requires
        i < WINDOW_COUNT,
    ensures
        r == spec_window_millis(i as int),
{
    if i == 0 {
        3_600_000
    } else if i == 1 {
        1_800_000
    } else if i == 2 {
        900_000
    } else if i == 3 {
        600_000
    } else if i == 4 {
        300_000
    } else if i == 5 {
        180_000
    } else if i == 6 {
        60_000
    } else if i == 7 {
        30_000
    } else {
        10_000
    }
}

/// The retention horizon handed to every ingest: the longest selectable
/// window, so no selectable range ever shows truncated history.
pub open spec fn spec_retention_horizon() -> u64 {
    3_600_000
}

/// The retention horizon in milliseconds.
pub fn retention_horizon_millis() -> (r: u64)
    ensures
        r == spec_retention_horizon(),
{
    3_600_000
}

/// Retention is never shorter than any selectable window: whatever window
/// the user picks, the horizon covers it.
pub proof fn lemma_horizon_covers_windows()
    ensures
        forall|i: int|
            0 <= i < WINDOW_COUNT ==> #[trigger] spec_window_millis(i) <= spec_retention_horizon(),
{
}

/// Which display window is selected; cycling is clamped at both ends, no
/// wraparound.
pub struct WindowSelection {
    /// Position into the window list, longest first.
    pub index: usize,
}

impl WindowSelection {
    /// A valid selection points into the window list.
    pub open spec fn wf(&self) -> bool {
        self.index < WINDOW_COUNT
    }

    /// The initial selection: the longest window.
    pub fn new() -> (s: WindowSelection)
        ensures
            s.wf(),
            s.index == 0,
    {
        WindowSelection { index: 0 }
    }

    /// Moves one step toward the longest window; already there, stays.
    pub fn select_longer(&mut self)
        requires
            old(self).wf(),
        ensures
            final(self).wf(),
            final(self).index == (if old(self).index > 0 {
                old(self).index - 1
            } else {
                0
            }),
    {
        if self.index > 0 {
            self.index = self.index - 1;
        }
    }

    /// Moves one step toward the shortest window; already there, stays.
    pub fn select_shorter(&mut self)
        requires
            old(self).wf(),
        ensures
            final(self).wf(),
            final(self).index == (if old(self).index + 1 < WINDOW_COUNT {
                old(self).index + 1
            } else {
                old(self).index as int
            }),
    {
        if self.index + 1 < WINDOW_COUNT {
            self.index = self.index + 1;
        }
    }

    /// The selected window's length in milliseconds.
    pub fn selected_millis(&self) -> (r: u64)
        requires
            self.wf(),
        ensures
            r == spec_window_millis(self.index as int),
    {
        window_millis(self.index)
    }
}

} // verus!
