//! Window lifecycle notifications, as the listener hands them to the dock.

use vstd::prelude::*;

verus! {

/// Shell hook code: a top-level window was created.
pub const SHELL_WINDOW_CREATED: usize = 1;

/// Shell hook code: a top-level window was destroyed.
pub const SHELL_WINDOW_DESTROYED: usize = 2;

/// Shell hook code: a top-level window was activated.
pub const SHELL_WINDOW_ACTIVATED: usize = 4;

/// A window lifecycle notification, carrying the window's opaque handle only.
#[derive(Debug, Clone, Copy, PartialEq, Eq, Structural)]
pub enum WindowEvent {
    WindowCreated(isize),
    WindowDestroyed(isize),
    WindowShown(isize),
    WindowHidden(isize),
    WindowActivated(isize),
}

/// The event that a shell hook message stands for: `None` for messages other than
/// the registered shell hook message and for notification codes that are not tracked.
pub open spec fn shell_event(message: u32, shell_message: u32, code: usize, window: isize) -> Option<
    WindowEvent,
> {
    if message != shell_message {
        None
    } else if code == SHELL_WINDOW_CREATED {
        Some(WindowEvent::WindowCreated(window))
    } else if code == SHELL_WINDOW_DESTROYED {
        Some(WindowEvent::WindowDestroyed(window))
    } else if code == SHELL_WINDOW_ACTIVATED {
        Some(WindowEvent::WindowActivated(window))
    } else {
        None
    }
}

/// Tags a message received by the shell hook window as a window event.
pub fn shell_hook_event(message: u32, shell_message: u32, code: usize, window: isize) -> (r: Option<
    WindowEvent,
>)
    ensures
        r == shell_event(message, shell_message, code, window),
{
    if message != shell_message {
        None
    } else if code == SHELL_WINDOW_CREATED {
        Some(WindowEvent::WindowCreated(window))
    } else if code == SHELL_WINDOW_DESTROYED {
        Some(WindowEvent::WindowDestroyed(window))
    } else if code == SHELL_WINDOW_ACTIVATED {
        Some(WindowEvent::WindowActivated(window))
    } else {
        None
    }
}

} // verus!
