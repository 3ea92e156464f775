//! Presence tracking and icon resolution for a taskbar-style dock.

pub mod apps;
pub mod dock;
pub mod events;
pub mod icons;
pub mod laws;
pub mod manifest;
pub mod text;
pub mod windows;
