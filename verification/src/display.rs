//! The decisions of the window and the renderer: which surface format and
//! present mode to take, what size the surface gets, and what follows a
//! frame that was or was not presented. The GPU and the window themselves
//! belong to the caller.

use vstd::prelude::*;

verus! {

/// The index of the first entry that matches, or 0 when none does: the
/// choice among what a surface supports, the first (the surface's own
/// preference) being the fallback.
pub fn preferred_index(matches: &Vec<bool>) -> (r: usize)
    requires
        matches@.len() > 0,
    ensures
        r < matches@.len(),
        matches@[r as int] || r == 0,
        forall|j: int| 0 <= j < r ==> !matches@[j],
        (exists|j: int| 0 <= j < matches@.len() && matches@[j]) ==> matches@[r as int],
{
    let mut i: usize = 0;
    while i < matches.len()
        invariant
            i <= matches@.len(),
            forall|j: int| 0 <= j < i ==> !matches@[j],
        decreases matches@.len() - i,
    {
        if matches[i] {
            return i;
        }
        i = i + 1;
    }
    0
}

/// The size to configure a surface with: the window's, each side at least 1.
pub fn surface_extent(width: u32, height: u32) -> (r: (u32, u32))
    ensures
        r.0 == if width == 0 {
            1
        } else {
            width
        },
        r.1 == if height == 0 {
            1
        } else {
            height
        },
{
    (if width == 0 {
        1
    } else {
        width
    }, if height == 0 {
        1
    } else {
        height
    })
}

/// Whether a surface of this size can be configured and drawn to: neither
/// side is 0.
pub fn can_draw(width: u32, height: u32) -> (r: bool)
    ensures
        r == (width != 0 && height != 0),
{
    width != 0 && height != 0
}

/// How drawing a frame ended: presented, or the surface's error.
#[derive(Clone, Copy, Debug, PartialEq, Eq, Structural)]
pub enum RenderOutcome {
    Presented,
    Lost,
    Outdated,
    OutOfMemory,
    Timeout,
}

/// What to do after a frame.
#[derive(Clone, Copy, Debug, PartialEq, Eq, Structural)]
pub struct RenderFollowup {
    /// Make the window visible (it is shown once, after its first frame).
    pub show_window: bool,
    /// Configure the surface again for the window's size.
    pub resize: bool,
    /// Leave the event loop.
    pub exit: bool,
}

/// What follows a frame: a presented frame shows a window not shown yet; a
/// lost or outdated surface is configured again; running out of memory
/// ends the loop; a time-out is let pass.
pub fn after_render(outcome: RenderOutcome, window_shown: bool) -> (r: RenderFollowup)
    ensures
        r.show_window == (outcome == RenderOutcome::Presented && !window_shown),
        r.resize == (outcome == RenderOutcome::Lost || outcome == RenderOutcome::Outdated),
        r.exit == (outcome == RenderOutcome::OutOfMemory),
{
    match outcome {
        RenderOutcome::Presented => RenderFollowup { show_window: !window_shown, resize: false, exit: false },
        RenderOutcome::Lost | RenderOutcome::Outdated => RenderFollowup {
            show_window: false,
            resize: true,
            exit: false,
        },
        RenderOutcome::OutOfMemory => RenderFollowup { show_window: false, resize: false, exit: true },
        RenderOutcome::Timeout => RenderFollowup { show_window: false, resize: false, exit: false },
    }
}

} // verus!
