//! When a frame is shown: the logic ticks at the window's rate, and a frame is
//! shown once for every few ticks.

use vstd::prelude::*;

verus! {

/// Counts ticks between two frames that are shown.
pub struct Pacer {
    refresh: usize,
    fps: usize,
    next_frame: usize,
}

impl Pacer {
    /// The ticks per second.
    pub closed spec fn refresh(&self) -> usize {
        self.refresh
    }

    /// The frames shown per second.
    pub closed spec fn fps(&self) -> usize {
        self.fps
    }

    /// The ticks since a frame was last shown.
    pub closed spec fn waited(&self) -> usize {
        self.next_frame
    }

    /// The ticks that pass without a frame between two frames.
    pub open spec fn gap(&self) -> int {
        self.refresh() as int / self.fps() as int
    }

    /// The counter never runs past the gap.
    pub open spec fn wf(&self) -> bool {
        self.fps() > 0 && self.waited() <= self.gap()
    }

    /// A pacer for `refresh` ticks and `fps` frames per second, about to count
    /// its first tick.
    pub fn new(refresh: usize, fps: usize) -> (r: Self)
        requires
            fps > 0,
        ensures
            r.wf(),
            r.refresh() == refresh,
            r.fps() == fps,
            r.waited() == 0,
    {
        Self { refresh, fps, next_frame: 0 }
    }

    /// Counts one tick and says whether its frame is to be shown: it is when
    /// the gap has passed, and the count then starts again.
    pub fn next_frame(&mut self) -> (show: bool)
        requires
            old(self).wf(),
        ensures
            final(self).wf(),
            final(self).refresh() == old(self).refresh(),
            final(self).fps() == old(self).fps(),
            show == (old(self).waited() >= old(self).gap()),
            show ==> final(self).waited() == 0,
            !show ==> final(self).waited() == old(self).waited() + 1,
    {
        if self.next_frame >= self.refresh / self.fps {
            self.next_frame = 0;
            true
        } else {
            self.next_frame += 1;
            false
        }
    }
}

} // verus!
