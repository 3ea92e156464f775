//! Packaged (sandboxed) applications: recognising them and probing whether one runs.

use vstd::prelude::*;

use crate::text::{chars_equal, chars_of, contains_chars, contains_seq};
use crate::windows::WindowInfo;

verus! {

/// Whether the path lies in one of the locations where packaged applications are installed.
pub open spec fn packaged_path(path: Seq<char>) -> bool {
    ||| contains_seq(path, "Program Files\\WindowsApps"@)
    ||| contains_seq(path, "Program Files/WindowsApps"@)
    ||| contains_seq(path, "ImmersiveControlPanel"@)
    ||| contains_seq(path, "SystemApps"@)
}

/// Whether the executable at `path` is a packaged application.
pub fn is_uwp_app(path: &str) -> (r: bool)
    ensures
        r == packaged_path(path@),
{
    let p = chars_of(path);
    contains_chars(&p, &chars_of("Program Files\\WindowsApps"))
        || contains_chars(&p, &chars_of("Program Files/WindowsApps"))
        || contains_chars(&p, &chars_of("ImmersiveControlPanel"))
        || contains_chars(&p, &chars_of("SystemApps"))
}

/// Window class of the host window that frames packaged applications.
pub open spec fn frame_host_class() -> Seq<char> {
    "ApplicationFrameWindow"@
}

/// Whether child `j` of window `w` belongs to another process whose module is `target`.
pub open spec fn hosts_target(w: WindowInfo, j: int, target: Seq<char>) -> bool {
    let c = w.children@[j];
    &&& c.process_id != 0
    &&& c.process_id != w.process_id
    &&& c.process_path matches Some(p) && p@.len() > 0 && p@ == target
}

/// Whether window `w` is a visible frame host with a child of the target application.
pub open spec fn frames_target(w: WindowInfo, target: Seq<char>) -> bool {
    &&& w.class_name@ == frame_host_class()
    &&& w.visible
    &&& exists|j: int| 0 <= j < w.children.len() && hosts_target(w, j, target)
}

/// Whether some window of the list is a visible frame host holding the target application.
pub open spec fn spec_has_visible_uwp_window(ws: Seq<WindowInfo>, target: Seq<char>) -> bool {
    exists|i: int| 0 <= i < ws.len() && frames_target(ws[i], target)
}

/// Whether a child of `w` belongs to another process whose module is `target`.
fn frame_holds_target(w: &WindowInfo, target: &Vec<char>) -> (r: bool)
    ensures
        r == exists|j: int| 0 <= j < w.children.len() && hosts_target(*w, j, target@),
{
    let mut j: usize = 0;
    while j < w.children.len()
        invariant
            j <= w.children.len(),
            forall|k: int| 0 <= k < j ==> !hosts_target(*w, k, target@),
        decreases w.children.len() - j,
    {
        let c = &w.children[j];
        if c.process_id != 0 && c.process_id != w.process_id {
            match &c.process_path {
                Some(p) => {
                    let pc = chars_of(p.as_str());
                    if pc.len() > 0 && chars_equal(&pc, target) {
                        assert(hosts_target(*w, j as int, target@));
                        return true;
                    }
                },
                None => {},
            }
        }
        j = j + 1;
    }
    false
}

/// Whether a visible frame host window holds a child window of the application at `target_path`.
pub fn has_visible_uwp_window(windows: &Vec<WindowInfo>, target_path: &str) -> (r: bool)
    ensures
        r == spec_has_visible_uwp_window(windows@, target_path@),
{
    let target = chars_of(target_path);
    let frame_class = chars_of("ApplicationFrameWindow");
    let mut i: usize = 0;
    while i < windows.len()
        invariant
            i <= windows.len(),
            target@ == target_path@,
            frame_class@ == frame_host_class(),
            forall|k: int| 0 <= k < i ==> !frames_target(windows@[k], target_path@),
        decreases windows.len() - i,
    {
        let w = &windows[i];
        let name = chars_of(w.class_name.as_str());
        if chars_equal(&name, &frame_class) && w.visible && frame_holds_target(w, &target) {
            return true;
        }
        i = i + 1;
    }
    false
}

/// Whether the packaged application at `exe_path` currently shows a window.
pub fn is_uwp_app_running(windows: &Vec<WindowInfo>, exe_path: &str) -> (r: bool)
    ensures
        r == spec_has_visible_uwp_window(windows@, exe_path@),
{
    has_visible_uwp_window(windows, exe_path)
}

} // verus!
