use vstd::prelude::*;

verus! {

/// A press followed by a release within this many milliseconds counts
/// as a click; a longer hold is treated as a drag and toggles nothing.
pub const CLICK_WINDOW_MS: u64 = 150;

/// Tracks the press-then-release window that turns a mouse release
/// into a cell toggle. Timestamps are milliseconds on a monotonic
/// clock.
pub struct ClickTracker {
    pub pressed_at: Option<u64>,
}

impl ClickTracker {
    /// A tracker with no press outstanding.
    pub fn new() -> (t: ClickTracker)
        ensures
            t.pressed_at is None,
    {
        ClickTracker { pressed_at: None }
    }

    /// The button went down: remember when.
    pub fn press(&mut self, now: u64)
        ensures
            final(self).pressed_at == Some(now),
    {
        self.pressed_at = Some(now);
    }

    /// The button came up. Reports whether this release is a click:
    /// there was a press, and it happened less than the click window
    /// ago. Either way the press is forgotten.
    pub fn release(&mut self, now: u64) -> (click: bool)
        requires
            old(self).pressed_at matches Some(t) ==> t <= now,
        ensures
            final(self).pressed_at is None,
            click == (old(self).pressed_at matches Some(t) && now - t < CLICK_WINDOW_MS),
    {
        let click = match self.pressed_at {
            Some(t) => now - t < CLICK_WINDOW_MS,
            None => false,
        };
        self.pressed_at = None;
        click
    }
}

} // verus!
