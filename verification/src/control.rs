//! Interface state and the decision rules of the control loop: what a
//! key does, when a frame counter flips decorations. The surrounding
//! application performs the input and drawing; the decisions live here.

use vstd::prelude::*;
use crate::window::{WindowSelection, WINDOW_COUNT};

verus! {

/// One input event, already stripped of its terminal encoding.
pub enum InputEvent {
    /// A quit key: leave the loop.
    Quit,
    /// Cycle the display window one step toward the longest.
    LongerWindow,
    /// Cycle the display window one step toward the shortest.
    ShorterWindow,
    /// Any other key: ignored.
    Other,
}

/// Mutable display state threaded through the render calls: the selected
/// window and a frame counter for blinking decorations.
pub struct UiState {
    /// The selected display window.
    pub window: WindowSelection,
    /// Frames drawn so far; wraps around at the machine bound.
    pub frame_count: u64,
}

impl UiState {
    /// A valid state carries a valid window selection.
    pub open spec fn wf(&self) -> bool {
        self.window.wf()
    }

    /// The initial state: longest window selected, no frames drawn.
    pub fn new() -> (s: UiState)
        ensures
            s.wf(),
            s.window.index == 0,
            s.frame_count == 0,
    {
        UiState { window: WindowSelection::new(), frame_count: 0 }
    }

    /// Counts one drawn frame, wrapping at the machine bound.
    pub fn tick(&mut self)
        ensures
            final(self).frame_count == (if old(self).frame_count == u64::MAX {
                0
            } else {
                old(self).frame_count + 1
            }),
            final(self).window == old(self).window,
    {
        self.frame_count = self.frame_count.wrapping_add(1);
    }

    /// Applies one input event: reports whether to quit; the arrow events
    /// cycle the selected window, clamped at both ends.
    pub fn handle(&mut self, event: InputEvent) -> (quit: bool)
        requires
            old(self).wf(),
        ensures
            final(self).wf(),
            final(self).frame_count == old(self).frame_count,
            quit == (event is Quit),
            event is Quit ==> final(self).window == old(self).window,
            event is Other ==> final(self).window == old(self).window,
            event is LongerWindow ==> final(self).window.index == (if old(self).window.index > 0 {
                old(self).window.index - 1
            } else {
                0
            }),
            event is ShorterWindow ==> final(self).window.index == (if old(self).window.index + 1
                < WINDOW_COUNT {
                old(self).window.index + 1
            } else {
                old(self).window.index as int
            }),
    {
        match event {
            InputEvent::Quit => true,
            InputEvent::LongerWindow => {
                self.window.select_longer();
                false
            },
            InputEvent::ShorterWindow => {
                self.window.select_shorter();
                false
            },
            InputEvent::Other => false,
        }
    }
}

impl Default for UiState {
    /// The default state is the initial one.
    fn default() -> (s: UiState)
        ensures
            s.wf(),
            s.window.index == 0,
            s.frame_count == 0,
    {
        UiState::new()
    }
}

/// Whether the header's glitch decoration is lit in this frame.
pub fn glitch_on(frame_count: u64) -> (r: bool)
    ensures
        r == (frame_count % 10 < 2),
{
    frame_count % 10 < 2
}

/// Whether the scanning banner's cursor is lit in this frame.
pub fn blink_on(frame_count: u64) -> (r: bool)
    ensures
        r == (frame_count % 20 < 10),
{
    frame_count % 20 < 10
}

} // verus!
