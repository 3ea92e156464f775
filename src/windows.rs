//! Window classification and the ground-truth enumeration of dockable windows.

use vstd::prelude::*;

use crate::dock::lemma_push_paths;
use crate::icons::{
    get_dock_icon_for_window, contains_path, paths_of, resolve_window, views, DockIcon, DockIconView,
};
use crate::text::{chars_equal, chars_of, ends_with, ends_with_chars};

verus! {

/// Extended window style bit that marks a tool window.
pub const TOOL_WINDOW_STYLE: u32 = 0x80;

/// A child window of a frame host, with the process that owns it.
pub struct ChildWindowInfo {
    pub process_id: u32,
    /// Full path of the owning process's primary module, when it could be read.
    pub process_path: Option<String>,
}

/// What the operating system reported about one top-level window at query time.
pub struct WindowInfo {
    pub hwnd: isize,
    pub visible: bool,
    pub title_len: i32,
    pub has_owner: bool,
    pub ex_style: u32,
    /// The compositor reported the window as cloaked.
    pub cloaked: bool,
    pub class_name: String,
    /// Owning process; zero when it could not be obtained.
    pub process_id: u32,
    /// Full path of the owning process's primary module, when it could be read.
    pub process_path: Option<String>,
    /// The window's own large icon handle; zero when it has none.
    pub big_icon: isize,
    /// The icon handle registered with the window's class; zero when none.
    pub class_icon: isize,
    /// Child windows, listed for frame host windows.
    pub children: Vec<ChildWindowInfo>,
}

/// The checks that a user-facing top-level window passes, cloaking aside.
pub open spec fn listed_by_enumeration(w: WindowInfo) -> bool {
    &&& w.visible
    &&& w.title_len != 0
    &&& !w.has_owner
    &&& w.ex_style & TOOL_WINDOW_STYLE == 0
}

/// A window fit to be shown as a dock entry.
pub open spec fn dock_worthy(w: WindowInfo) -> bool {
    listed_by_enumeration(w) && !w.cloaked
}

/// Whether the window passes the filter applied while walking all top-level windows.
pub fn enum_windows_proc(w: &WindowInfo) -> (r: bool)
    ensures
        r == listed_by_enumeration(*w),
{
    w.visible && w.title_len != 0 && !w.has_owner && w.ex_style & TOOL_WINDOW_STYLE == 0
}

/// Whether the window is visible, titled, unowned, not a tool window and not cloaked.
pub fn is_dock_worthy_window(w: &WindowInfo) -> (r: bool)
    ensures
        r == dock_worthy(*w),
{
    enum_windows_proc(w) && !w.cloaked
}

/// Window class of a file manager window.
pub open spec fn explorer_class() -> Seq<char> {
    "CabinetWClass"@
}

/// Whether some visible window is a file manager window.
pub open spec fn spec_has_explorer_windows(ws: Seq<WindowInfo>) -> bool {
    exists|i: int| 0 <= i < ws.len() && ws[i].visible && ws[i].class_name@ == explorer_class()
}

/// Whether some visible window of the given list is a file manager window.
pub fn has_explorer_windows(windows: &Vec<WindowInfo>) -> (r: bool)
    ensures
        r == spec_has_explorer_windows(windows@),
{
    let class = chars_of("CabinetWClass");
    let mut i: usize = 0;
    while i < windows.len()
        invariant
            i <= windows.len(),
            class@ == explorer_class(),
            forall|k: int|
                0 <= k < i ==> !(windows@[k].visible && windows@[k].class_name@ == explorer_class()),
        decreases windows.len() - i,
    {
        let w = &windows[i];
        if w.visible {
            let name = chars_of(w.class_name.as_str());
            if chars_equal(&name, &class) {
                return true;
            }
        }
        i = i + 1;
    }
    false
}

/// The dock entries that a walk over all top-level windows yields: windows that
/// pass the enumeration filter and resolve to an entry, the first window of each
/// executable path winning.
pub open spec fn snapshot_of(ws: Seq<WindowInfo>, own_path: Seq<char>) -> Seq<DockIconView>
    decreases ws.len(),
{
    if ws.len() == 0 {
        Seq::empty()
    } else {
        let prev = snapshot_of(ws.drop_last(), own_path);
        let w = ws.last();
        if !listed_by_enumeration(w) {
            prev
        } else {
            match resolve_window(w, own_path) {
                Some(d) => if paths_of(prev).contains(d.path) {
                    prev
                } else {
                    prev.push(d)
                },
                None => prev,
            }
        }
    }
}

/// A snapshot lists each executable path at most once.
pub proof fn lemma_snapshot_unique(ws: Seq<WindowInfo>, own_path: Seq<char>)
    ensures
        paths_of(snapshot_of(ws, own_path)).no_duplicates(),
    decreases ws.len(),
{
    if ws.len() > 0 {
        let prev = snapshot_of(ws.drop_last(), own_path);
        lemma_snapshot_unique(ws.drop_last(), own_path);
        if listed_by_enumeration(ws.last()) {
            match resolve_window(ws.last(), own_path) {
                Some(d) => {
                    if !paths_of(prev).contains(d.path) {
                        lemma_push_paths(paths_of(prev), d.path);
                        assert(paths_of(prev.push(d)) =~= paths_of(prev).push(d.path));
                    }
                },
                None => {},
            }
        }
    }
}

/// The deduplicated dock entries for the given list of top-level windows.
pub fn update_running_apps(windows: &Vec<WindowInfo>, own_path: &str) -> (r: Vec<DockIcon>)
    ensures
        views(r@) == snapshot_of(windows@, own_path@),
        paths_of(views(r@)).no_duplicates(),
{
    let mut icons: Vec<DockIcon> = Vec::new();
    let mut i: usize = 0;
    assert(views(icons@) =~= snapshot_of(windows@.take(0), own_path@));
    while i < windows.len()
        invariant
            i <= windows.len(),
            views(icons@) == snapshot_of(windows@.take(i as int), own_path@),
            paths_of(views(icons@)).no_duplicates(),
        decreases windows.len() - i,
    {
        assert(windows@.take(i + 1).drop_last() =~= windows@.take(i as int));
        let w = &windows[i];
        if enum_windows_proc(w) {
            match get_dock_icon_for_window(w, own_path) {
                Some(icon) => {
                    if !contains_path(&icons, &icon.path) {
                        let ghost before = icons@;
                        icons.push(icon);
                        assert(views(icons@) =~= views(before).push(icon@));
                        assert(paths_of(views(icons@)) =~= paths_of(views(before)).push(icon@.path));
                    }
                },
                None => {},
            }
        }
        i = i + 1;
    }
    assert(windows@.take(windows@.len() as int) =~= windows@);
    icons
}

/// A name for the lowercase form of a string.
pub uninterp spec fn lower_of(s: Seq<char>) -> Seq<char>;

/// Relies on `str::to_lowercase`, whose result depends on the characters alone.
#[verifier::external_body]
fn lowercase(s: &str) -> (r: String)
    ensures
        r@ == lower_of(s@),
{
    s.to_lowercase()
}

/// Whether window `w` is a dock-worthy window of the process whose module is `path`.
pub open spec fn shows_window_of(w: WindowInfo, path: Seq<char>) -> bool {
    &&& dock_worthy(w)
    &&& w.process_id != 0
    &&& w.process_path matches Some(p) && p@.len() > 0 && p@ == path
}

/// Whether the application at `path` shows a window, given its lowercase form `folded`:
/// for the file manager shell any file manager window counts.
pub open spec fn visible_window_for(ws: Seq<WindowInfo>, path: Seq<char>, folded: Seq<char>) -> bool {
    if ends_with(folded, "explorer.exe"@) {
        spec_has_explorer_windows(ws)
    } else {
        exists|i: int| 0 <= i < ws.len() && shows_window_of(ws[i], path)
    }
}

/// Whether the application at `path` shows a window, where `folded_path` is the
/// lowercase form of `path`.
pub fn has_visible_window_folded(windows: &Vec<WindowInfo>, path: &str, folded_path: &str) -> (r: bool)
    ensures
        r == visible_window_for(windows@, path@, folded_path@),
{
    let folded = chars_of(folded_path);
    let shell = chars_of("explorer.exe");
    if ends_with_chars(&folded, &shell) {
        return has_explorer_windows(windows);
    }
    assert(!ends_with(folded_path@, "explorer.exe"@));
    let target = chars_of(path);
    let mut i: usize = 0;
    while i < windows.len()
        invariant
            i <= windows.len(),
            target@ == path@,
            !ends_with(folded_path@, "explorer.exe"@),
            forall|k: int| 0 <= k < i ==> !shows_window_of(windows@[k], path@),
        decreases windows.len() - i,
    {
        let w = &windows[i];
        if is_dock_worthy_window(w) && w.process_id != 0 {
            match &w.process_path {
                Some(p) => {
                    let pc = chars_of(p.as_str());
                    if pc.len() > 0 && chars_equal(&pc, &target) {
                        assert(shows_window_of(windows@[i as int], path@));
                        return true;
                    }
                },
                None => {},
            }
        }
        i = i + 1;
    }
    false
}

/// Whether the application at `path` shows a window among the given ones.
pub fn has_visible_window(windows: &Vec<WindowInfo>, path: &str) -> (r: bool)
    ensures
        r == visible_window_for(windows@, path@, lower_of(path@)),
{
    let folded = lowercase(path);
    has_visible_window_folded(windows, path, folded.as_str())
}

} // verus!
