//! The text-input cursor's blink state: a visibility flag, a pause flag,
//! and an epoch counter that cancels stale timers. The unverified shell
//! owns the timers; each transition hands back the epoch to schedule, if
//! any.

use vstd::prelude::*;

verus! {

/// The blink state.
#[derive(Debug)]
pub struct BlinkCursor {
    pub visible: bool,
    pub paused: bool,
    pub epoch: usize,
}

impl BlinkCursor {
    /// A fresh cursor: hidden, unpaused, at epoch 0.
    pub fn new() -> (r: Self)
        ensures
            !r.visible,
            !r.paused,
            r.epoch == 0,
    {
        BlinkCursor { visible: false, paused: false, epoch: 0 }
    }

    /// One blink tick for `epoch`. A stale epoch or a paused cursor does
    /// nothing; otherwise visibility toggles, the epoch advances, and the
    /// new epoch is handed back for the shell to schedule the next tick.
    pub fn blink(&mut self, epoch: usize) -> (r: Option<usize>)
        requires
            old(self).paused || epoch != old(self).epoch || old(self).epoch < usize::MAX,
        ensures
            ({
                if old(self).paused || epoch != old(self).epoch {
                    *final(self) == *old(self) && r is None
                } else {
                    &&& final(self).visible == !old(self).visible
                    &&& final(self).paused == old(self).paused
                    &&& final(self).epoch == old(self).epoch + 1
                    &&& r == Some((old(self).epoch + 1) as usize)
                }
            }),
    {
        if self.paused || epoch != self.epoch {
            return None;
        }
        self.visible = !self.visible;
        let e = self.next_epoch();
        Some(e)
    }

    /// Start blinking from the current epoch.
    pub fn start(&mut self) -> (r: Option<usize>)
        requires
            old(self).paused || old(self).epoch < usize::MAX,
        ensures
            ({
                if old(self).paused {
                    *final(self) == *old(self) && r is None
                } else {
                    &&& final(self).visible == !old(self).visible
                    &&& final(self).paused == old(self).paused
                    &&& final(self).epoch == old(self).epoch + 1
                    &&& r == Some((old(self).epoch + 1) as usize)
                }
            }),
    {
        let e = self.epoch;
        self.blink(e)
    }

    /// Stop blinking: the cursor hides and every scheduled tick goes
    /// stale.
    pub fn stop(&mut self)
        ensures
            !final(self).visible,
            final(self).epoch == 0,
            final(self).paused == old(self).paused,
    {
        self.visible = false;
        self.epoch = 0;
    }

    /// Advance the epoch, cancelling any scheduled tick.
    pub fn next_epoch(&mut self) -> (r: usize)
        requires
            old(self).epoch < usize::MAX,
        ensures
            final(self).epoch == old(self).epoch + 1,
            r == final(self).epoch,
            final(self).visible == old(self).visible,
            final(self).paused == old(self).paused,
    {
        self.epoch = self.epoch + 1;
        self.epoch
    }

    /// Whether the cursor shows: always while paused, else the blink
    /// state.
    pub fn visible(&self) -> (r: bool)
        ensures
            r == (self.paused || self.visible),
    {
        self.paused || self.visible
    }

    /// Pause blinking (the cursor shows steadily); the returned epoch is
    /// for the shell's delayed resume.
    pub fn pause(&mut self) -> (r: usize)
        requires
            old(self).epoch < usize::MAX,
        ensures
            final(self).paused,
            final(self).visible == old(self).visible,
            final(self).epoch == old(self).epoch + 1,
            r == final(self).epoch,
    {
        self.paused = true;
        self.next_epoch()
    }

    /// The delayed end of a pause: unpause, then tick for `epoch` as
    /// [`BlinkCursor::blink`] says.
    pub fn resume(&mut self, epoch: usize) -> (r: Option<usize>)
        requires
            epoch != old(self).epoch || old(self).epoch < usize::MAX,
        ensures
            ({
                if epoch != old(self).epoch {
                    &&& final(self).visible == old(self).visible
                    &&& !final(self).paused
                    &&& final(self).epoch == old(self).epoch
                    &&& r is None
                } else {
                    &&& final(self).visible == !old(self).visible
                    &&& !final(self).paused
                    &&& final(self).epoch == old(self).epoch + 1
                    &&& r == Some((old(self).epoch + 1) as usize)
                }
            }),
    {
        self.paused = false;
        self.blink(epoch)
    }
}

} // verus!
