//! The frame loop's own decisions: when it stops.

use vstd::prelude::*;

verus! {

/// Whether the frame loop goes on.
#[derive(Clone, Copy, Debug, PartialEq, Eq, Structural)]
pub enum LoopState {
    Running,
    Stopped,
}

/// One pending input event, as far as the loop cares.
#[derive(Clone, Copy, Debug, PartialEq, Eq, Structural)]
pub enum InputEvent {
    /// The window was asked to close.
    Quit,
    /// A key went down; `escape` tells whether it was the escape key.
    KeyDown { escape: bool },
    /// Anything else.
    Other,
}

/// An event that ends the loop: a quit request or the escape key.
pub open spec fn stops(e: InputEvent) -> bool {
    match e {
        InputEvent::Quit => true,
        InputEvent::KeyDown { escape } => escape,
        InputEvent::Other => false,
    }
}

/// The loop's state after one event: stopped for good once stopped, and
/// stopped by a quit request or the escape key.
pub fn next_state(state: LoopState, event: InputEvent) -> (next: LoopState)
    ensures
        next == (if state == LoopState::Stopped || stops(event) {
            LoopState::Stopped
        } else {
            LoopState::Running
        }),
{
    match state {
        LoopState::Stopped => LoopState::Stopped,
        LoopState::Running => match event {
            InputEvent::Quit => LoopState::Stopped,
            InputEvent::KeyDown { escape } => if escape {
                LoopState::Stopped
            } else {
                LoopState::Running
            },
            InputEvent::Other => LoopState::Running,
        },
    }
}

/// The loop's state after draining the pending events in order: running
/// only if it was running and none of them stops it.
pub fn drain_events(state: LoopState, events: &Vec<InputEvent>) -> (next: LoopState)
    ensures
        next == LoopState::Running <==> (state == LoopState::Running && forall|i: int|
            0 <= i < events@.len() ==> !stops(#[trigger] events@[i])),
{
    let mut s = state;
    let mut i: usize = 0;
    while i < events.len() && s == LoopState::Running
        invariant
            i <= events@.len(),
            s == LoopState::Running <==> (state == LoopState::Running && forall|j: int|
                0 <= j < i ==> !stops(#[trigger] events@[j])),
        decreases events@.len() - i,
    {
        s = next_state(s, events[i]);
        i = i + 1;
    }
    s
}

} // verus!
