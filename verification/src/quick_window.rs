//! The quick window's dismissal rules: it closes on a fresh press of Escape
//! or a click outside it, and the watch over it ends once it is hidden.
use vstd::prelude::*;

verus! {

/// What the dismissal watch remembers between polls.
pub struct DismissWatch {
    /// Whether Escape was down at the previous poll.
    pub was_escape_down: bool,
    /// Whether the window has been seen visible since the watch began.
    pub has_seen_visible: bool,
}

/// What the watch does after a poll of the window's state.
#[derive(Debug, Clone, Copy, PartialEq, Eq, Structural)]
pub enum WatchStep {
    /// Stop watching.
    Stop,
    /// The window is visible: check whether it should be dismissed.
    CheckDismiss,
    /// Keep polling.
    Wait,
}

impl DismissWatch {
    /// A watch that has seen nothing yet.
    pub fn new() -> (w: Self)
        ensures
            !w.was_escape_down && !w.has_seen_visible,
    {
        DismissWatch { was_escape_down: false, has_seen_visible: false }
    }

    /// One poll of the window: without a window the watch stops; a visible
    /// window is checked for dismissal; a hidden window ends the watch once it
    /// has been seen visible or the watch is more than a second old.
    pub fn observe(&mut self, window_exists: bool, is_visible: bool, over_a_second: bool) -> (s: WatchStep)
        ensures
            s == if !window_exists {
                WatchStep::Stop
            } else if is_visible {
                WatchStep::CheckDismiss
            } else if old(self).has_seen_visible || over_a_second {
                WatchStep::Stop
            } else {
                WatchStep::Wait
            },
            final(self).has_seen_visible == (old(self).has_seen_visible || (window_exists && is_visible)),
            final(self).was_escape_down == old(self).was_escape_down,
    {
        if !window_exists {
            return WatchStep::Stop;
        }
        if is_visible {
            self.has_seen_visible = true;
            WatchStep::CheckDismiss
        } else if self.has_seen_visible || over_a_second {
            WatchStep::Stop
        } else {
            WatchStep::Wait
        }
    }

    /// Whether Escape was just pressed: it is down now and was not at the
    /// previous check.  Remembers the key's state for the next check.
    pub fn escape_pressed(&mut self, escape_down: bool) -> (pressed: bool)
        ensures
            (pressed, final(self).was_escape_down) == spec_escape_check(old(self).was_escape_down, escape_down),
            final(self).has_seen_visible == old(self).has_seen_visible,
    {
        let pressed = escape_down && !self.was_escape_down;
        self.was_escape_down = escape_down;
        pressed
    }
}

/// Edge detection of Escape: whether this check sees a new press, and the
/// key state remembered for the next check.
pub open spec fn spec_escape_check(was_down: bool, down: bool) -> (bool, bool) {
    (down && !was_down, down)
}

/// Holding Escape down dismisses at most once: whatever came before, a second
/// check while the key stays down reports no new press; releasing it and
/// pressing again reports one.
pub proof fn law_escape_is_edge_triggered(was_down: bool)
    ensures
        !spec_escape_check(spec_escape_check(was_down, true).1, true).0,
        spec_escape_check(spec_escape_check(was_down, false).1, true).0,
{
}

/// Whether the point `(x, y)` lies outside the rectangle whose left, top,
/// right and bottom edges are given (right and bottom exclusive).
pub open spec fn spec_point_outside(x: i32, y: i32, left: i32, top: i32, right: i32, bottom: i32) -> bool {
    x < left || x >= right || y < top || y >= bottom
}

/// Whether a click at `(x, y)` falls outside the window rectangle.
pub fn point_outside_rect(x: i32, y: i32, left: i32, top: i32, right: i32, bottom: i32) -> (b: bool)
    ensures
        b == spec_point_outside(x, y, left, top, right, bottom),
{
    x < left || x >= right || y < top || y >= bottom
}

/// The window style with `bits` set, when that changes it.
pub fn style_with_bits(ex_style: isize, bits: isize) -> (r: Option<isize>)
    ensures
        r == if ex_style | bits != ex_style { Some(ex_style | bits) } else { None::<isize> },
{
    let s = ex_style | bits;
    if s != ex_style { Some(s) } else { None }
}

/// The window style with `bits` cleared, when that changes it.
pub fn style_without_bits(ex_style: isize, bits: isize) -> (r: Option<isize>)
    ensures
        r == if ex_style & !bits != ex_style { Some(ex_style & !bits) } else { None::<isize> },
{
    let s = ex_style & !bits;
    if s != ex_style { Some(s) } else { None }
}

} // verus!
