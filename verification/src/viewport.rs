//! Scroll bookkeeping for a pane: a scroll offset over a fixed number of
//! content lines, and the visible slice for a given height.

use vstd::prelude::*;

verus! {

/// Scroll state of one pane. `scroll_offset` always stays in
/// `[0, max(0, line_count - 1)]`.
#[derive(Clone, Copy, PartialEq, Eq, Structural, Debug)]
pub struct Viewport {
    pub scroll_offset: usize,
    pub line_count: usize,
    pub visible_height: usize,
}

impl Viewport {
    /// The largest offset the pane may scroll to: `max(0, line_count - 1)`.
    pub open spec fn max_offset(self) -> int {
        if self.line_count == 0 {
            0
        } else {
            self.line_count - 1
        }
    }

    /// The scroll offset stays within the content.
    pub open spec fn wf(self) -> bool {
        self.scroll_offset <= self.max_offset()
    }

    pub fn new(line_count: usize, visible_height: usize) -> (r: Viewport)
        ensures
            r == (Viewport { scroll_offset: 0, line_count, visible_height }),
            r.wf(),
    {
        Viewport { scroll_offset: 0, line_count, visible_height }
    }

    /// Scroll toward the top: `scroll_offset = max(0, scroll_offset - n)`.
    pub fn scroll_up(&mut self, n: usize)
        requires
            old(self).wf(),
        ensures
            final(self).scroll_offset == if old(self).scroll_offset >= n {
                old(self).scroll_offset - n
            } else {
                0
            },
            final(self).line_count == old(self).line_count,
            final(self).visible_height == old(self).visible_height,
            final(self).wf(),
    {
        if self.scroll_offset >= n {
            self.scroll_offset = self.scroll_offset - n;
        } else {
            self.scroll_offset = 0;
        }
    }

    /// Scroll toward the bottom:
    /// `scroll_offset = min(max(0, line_count - 1), scroll_offset + n)`.
    pub fn scroll_down(&mut self, n: usize)
        requires
            old(self).wf(),
        ensures
            final(self).scroll_offset == if old(self).scroll_offset + n <= old(self).max_offset() {
                old(self).scroll_offset + n
            } else {
                old(self).max_offset()
            },
            final(self).line_count == old(self).line_count,
            final(self).visible_height == old(self).visible_height,
            final(self).wf(),
    {
        let cap: usize = if self.line_count == 0 { 0 } else { self.line_count - 1 };
        if n <= cap - self.scroll_offset {
            self.scroll_offset = self.scroll_offset + n;
        } else {
            self.scroll_offset = cap;
        }
    }

    /// Replace the line count after a content change, clamping the scroll
    /// offset back into the new valid range instead of leaving it stale.
    pub fn set_line_count(&mut self, line_count: usize)
        ensures
            final(self).line_count == line_count,
            final(self).visible_height == old(self).visible_height,
            final(self).scroll_offset == if old(self).scroll_offset <= final(self).max_offset() {
                old(self).scroll_offset as int
            } else {
                final(self).max_offset()
            },
            final(self).wf(),
    {
        self.line_count = line_count;
        let cap: usize = if line_count == 0 { 0 } else { line_count - 1 };
        if self.scroll_offset > cap {
            self.scroll_offset = cap;
        }
    }

    /// The visible slice `[scroll_offset, scroll_offset + visible_height)`,
    /// clipped to `[0, line_count)`, as a half-open index range.
    pub fn visible_range(&self) -> (r: (usize, usize))
        ensures
            r.0 == if self.scroll_offset <= self.line_count {
                self.scroll_offset as int
            } else {
                self.line_count as int
            },
            r.1 == if self.scroll_offset + self.visible_height <= self.line_count {
                self.scroll_offset + self.visible_height
            } else {
                self.line_count as int
            },
            r.0 <= r.1 <= self.line_count,
    {
        let start: usize = if self.scroll_offset <= self.line_count {
            self.scroll_offset
        } else {
            self.line_count
        };
        let end: usize = if self.line_count - start >= self.visible_height {
            start + self.visible_height
        } else {
            self.line_count
        };
        (start, end)
    }
}

} // verus!
