//! The reconciliation engine: the canonical list of dock entries and its icon cache,
//! kept correct against window events and ground-truth snapshots.

use vstd::prelude::*;

use crate::events::WindowEvent;
use crate::icons::{
    contains_path, get_dock_icon_for_window, paths_of, resolve_window, views, DockIcon,
    DockIconView, IconBitmap, IconBitmapView,
};
use crate::text::string_views;
use crate::windows::{snapshot_of, update_running_apps, WindowInfo};

verus! {

/// Milliseconds between safety-net snapshots while window notifications arrive.
pub const POLL_INTERVAL_MS: u64 = 5000;

/// Milliseconds between snapshots when no window notifications can be received.
pub const POLL_INTERVAL_WITHOUT_EVENTS_MS: u64 = 1000;

/// Whether a reconciliation pass is due: one was asked for, or the polling interval
/// that applies has passed since the last one.
pub open spec fn reconciliation_due_for(needs_refresh: bool, listening: bool, elapsed_ms: u64) -> bool {
    needs_refresh || elapsed_ms >= if listening {
        POLL_INTERVAL_MS
    } else {
        POLL_INTERVAL_WITHOUT_EVENTS_MS
    }
}

/// The outcome of one icon extraction for a path: a bitmap, or a failure that is not retried.
pub struct CachedIcon {
    pub path: String,
    pub bitmap: Option<IconBitmap>,
}

/// An icon cache entry as a mathematical value.
pub struct CachedIconView {
    pub path: Seq<char>,
    pub bitmap: Option<IconBitmapView>,
}

/// The value of an optional bitmap.
pub open spec fn bitmap_view(b: Option<IconBitmap>) -> Option<IconBitmapView> {
    match b {
        Some(x) => Some(x@),
        None => None,
    }
}

impl View for CachedIcon {
    type V = CachedIconView;

    open spec fn view(&self) -> CachedIconView {
        CachedIconView { path: self.path@, bitmap: bitmap_view(self.bitmap) }
    }
}

/// A window event together with what was learnt of its window when it was consumed;
/// `None` where the window could not be queried.
pub struct ObservedEvent {
    pub event: WindowEvent,
    pub window: Option<WindowInfo>,
}

/// The dock's state: the canonical list of entries, the icon cache and the flag
/// that asks for a full reconciliation pass.
pub struct FerroDock {
    pub dock_items: Vec<DockIcon>,
    pub icon_cache: Vec<CachedIcon>,
    pub needs_refresh: bool,
}

/// The dock's state as a mathematical value.
pub struct DockState {
    pub items: Seq<DockIconView>,
    pub icons: Seq<CachedIconView>,
    pub needs_refresh: bool,
}

impl View for FerroDock {
    type V = DockState;

    open spec fn view(&self) -> DockState {
        DockState {
            items: views(self.dock_items@),
            icons: self.icon_cache@.map_values(|c: CachedIcon| c@),
            needs_refresh: self.needs_refresh,
        }
    }
}

/// The paths that have an icon cache entry, in order.
pub open spec fn cached_paths(icons: Seq<CachedIconView>) -> Seq<Seq<char>> {
    icons.map_values(|c: CachedIconView| c.path)
}

impl DockState {
    /// At most one entry per path, at most one cache entry per path, and a cache
    /// entry only for a path in the list.
    pub open spec fn wf(self) -> bool {
        &&& paths_of(self.items).no_duplicates()
        &&& cached_paths(self.icons).no_duplicates()
        &&& forall|i: int|
            0 <= i < self.icons.len() ==> paths_of(self.items).contains(#[trigger] self.icons[i].path)
    }
}

/// The state after a resolved window is offered to the list: it is added unless
/// its path is already there.
pub open spec fn admitted(st: DockState, d: Option<DockIconView>) -> DockState {
    match d {
        Some(d) => if paths_of(st.items).contains(d.path) {
            st
        } else {
            DockState { items: st.items.push(d), ..st }
        },
        None => st,
    }
}

/// The state after one event is consumed.
pub open spec fn after_event(
    st: DockState,
    event: WindowEvent,
    window: Option<WindowInfo>,
    own_path: Seq<char>,
) -> DockState {
    match event {
        WindowEvent::WindowCreated(_) | WindowEvent::WindowShown(_) => match window {
            Some(w) => admitted(st, resolve_window(w, own_path)),
            None => st,
        },
        WindowEvent::WindowDestroyed(_) => DockState { needs_refresh: true, ..st },
        WindowEvent::WindowHidden(_) | WindowEvent::WindowActivated(_) => st,
    }
}

/// The state after a batch of events is consumed in arrival order.
pub open spec fn after_events(st: DockState, evs: Seq<ObservedEvent>, own_path: Seq<char>) -> DockState
    decreases evs.len(),
{
    if evs.len() == 0 {
        st
    } else {
        let e = evs.last();
        after_event(after_events(st, evs.drop_last(), own_path), e.event, e.window, own_path)
    }
}

/// The first entry of `snap` with path `p`.
pub open spec fn entry_for(snap: Seq<DockIconView>, p: Seq<char>) -> Option<DockIconView>
    decreases snap.len(),
{
    if snap.len() == 0 {
        None
    } else if snap[0].path == p {
        Some(snap[0])
    } else {
        entry_for(snap.drop_first(), p)
    }
}

/// The entries of `items` whose path `snap` holds, in order, each rebound to the
/// window that `snap` lists for its path.
pub open spec fn kept_items(items: Seq<DockIconView>, snap: Seq<DockIconView>) -> Seq<DockIconView>
    decreases items.len(),
{
    if items.len() == 0 {
        Seq::empty()
    } else {
        let prev = kept_items(items.drop_last(), snap);
        let d = items.last();
        match entry_for(snap, d.path) {
            Some(s) => prev.push(DockIconView { hwnd: s.hwnd, ..d }),
            None => prev,
        }
    }
}

/// The entries of `snap` whose path `present` does not hold, in order.
pub open spec fn fresh_items(snap: Seq<DockIconView>, present: Seq<Seq<char>>) -> Seq<DockIconView>
    decreases snap.len(),
{
    if snap.len() == 0 {
        Seq::empty()
    } else {
        let prev = fresh_items(snap.drop_last(), present);
        if present.contains(snap.last().path) {
            prev
        } else {
            prev.push(snap.last())
        }
    }
}

/// The cache entries whose path `live` holds, in order.
pub open spec fn kept_icons(icons: Seq<CachedIconView>, live: Seq<Seq<char>>) -> Seq<CachedIconView>
    decreases icons.len(),
{
    if icons.len() == 0 {
        Seq::empty()
    } else {
        let prev = kept_icons(icons.drop_last(), live);
        if live.contains(icons.last().path) {
            prev.push(icons.last())
        } else {
            prev
        }
    }
}

/// The state after a full reconciliation pass against the snapshot `snap`: entries
/// whose path left the snapshot are removed with their cache entries, the others
/// are rebound to a live window, the snapshot's new paths are appended, and the
/// refresh request is cleared.
pub open spec fn reconciled(st: DockState, snap: Seq<DockIconView>) -> DockState {
    DockState {
        items: kept_items(st.items, snap) + fresh_items(snap, paths_of(st.items)),
        icons: kept_icons(st.icons, paths_of(snap)),
        needs_refresh: false,
    }
}

/// The paths of `items` that `cached` does not hold, in order: those whose icon
/// is still to be extracted.
pub open spec fn uncached_paths(items: Seq<DockIconView>, cached: Seq<Seq<char>>) -> Seq<Seq<char>>
    decreases items.len(),
{
    if items.len() == 0 {
        Seq::empty()
    } else {
        let prev = uncached_paths(items.drop_last(), cached);
        if cached.contains(items.last().path) {
            prev
        } else {
            prev.push(items.last().path)
        }
    }
}

/// The state after the outcome of an extraction for `path` is recorded: kept only
/// for a listed path that has no cache entry yet.
pub open spec fn recorded(st: DockState, path: Seq<char>, bitmap: Option<IconBitmapView>) -> DockState {
    if paths_of(st.items).contains(path) && !cached_paths(st.icons).contains(path) {
        DockState { icons: st.icons.push(CachedIconView { path, bitmap }), ..st }
    } else {
        st
    }
}

/// What `push` does to membership and to the absence of duplicates.
pub proof fn lemma_push_paths(s: Seq<Seq<char>>, x: Seq<char>)
    ensures
        forall|y: Seq<char>| #[trigger] s.push(x).contains(y) <==> s.contains(y) || y == x,
        s.no_duplicates() && !s.contains(x) ==> s.push(x).no_duplicates(),
{
    assert forall|y: Seq<char>| #[trigger] s.push(x).contains(y) <==> s.contains(y) || y == x by {
        if s.contains(y) {
            let k = choose|k: int| 0 <= k < s.len() && s[k] == y;
            assert(s.push(x)[k] == y);
        }
        if y == x {
            assert(s.push(x)[s.len() as int] == y);
        }
        if s.push(x).contains(y) {
            let k = choose|k: int| 0 <= k < s.push(x).len() && s.push(x)[k] == y;
            if k < s.len() {
                assert(s[k] == y);
            }
        }
    }
    if s.no_duplicates() && !s.contains(x) {
        assert forall|i: int, j: int|
            0 <= i < s.push(x).len() && 0 <= j < s.push(x).len() && i != j implies s.push(x)[i]
            != s.push(x)[j] by {
            if i == s.len() {
                assert(s[j] == s.push(x)[j]);
            } else if j == s.len() {
                assert(s[i] == s.push(x)[i]);
            }
        }
    }
}

/// `entry_for` finds an entry exactly for the paths that `snap` holds.
pub proof fn lemma_entry_for(snap: Seq<DockIconView>, p: Seq<char>)
    ensures
        entry_for(snap, p) is Some <==> paths_of(snap).contains(p),
        entry_for(snap, p) matches Some(s) ==> s.path == p,
    decreases snap.len(),
{
    if snap.len() > 0 {
        lemma_entry_for(snap.drop_first(), p);
        assert(paths_of(snap.drop_first()) =~= paths_of(snap).drop_first());
        if snap[0].path == p {
            assert(paths_of(snap)[0] == p);
        } else {
            if paths_of(snap).contains(p) {
                let k = choose|k: int| 0 <= k < paths_of(snap).len() && paths_of(snap)[k] == p;
                assert(k > 0);
                assert(paths_of(snap.drop_first())[k - 1] == p);
            }
            if paths_of(snap.drop_first()).contains(p) {
                let k = choose|k: int|
                    0 <= k < paths_of(snap.drop_first()).len() && paths_of(snap.drop_first())[k] == p;
                assert(paths_of(snap)[k + 1] == p);
            }
        }
    }
}

/// The paths of the kept entries: those of `items` that `snap` also holds, once each.
pub proof fn lemma_kept_items(items: Seq<DockIconView>, snap: Seq<DockIconView>)
    ensures
        forall|p: Seq<char>|
            #[trigger] paths_of(kept_items(items, snap)).contains(p) <==> paths_of(items).contains(p)
                && paths_of(snap).contains(p),
        paths_of(items).no_duplicates() ==> paths_of(kept_items(items, snap)).no_duplicates(),
    decreases items.len(),
{
    if items.len() > 0 {
        let prev = kept_items(items.drop_last(), snap);
        let d = items.last();
        lemma_kept_items(items.drop_last(), snap);
        lemma_entry_for(snap, d.path);
        assert(paths_of(items.drop_last()) =~= paths_of(items).drop_last());
        assert(paths_of(items) =~= paths_of(items.drop_last()).push(d.path));
        lemma_push_paths(paths_of(items.drop_last()), d.path);
        lemma_push_paths(paths_of(prev), d.path);
        if paths_of(items).no_duplicates() {
            assert(paths_of(items.drop_last()).no_duplicates()) by {
                assert forall|i: int, j: int|
                    0 <= i < paths_of(items.drop_last()).len() && 0 <= j < paths_of(
                        items.drop_last(),
                    ).len() && i != j implies paths_of(items.drop_last())[i] != paths_of(
                    items.drop_last(),
                )[j] by {
                    assert(paths_of(items)[i] == paths_of(items.drop_last())[i]);
                    assert(paths_of(items)[j] == paths_of(items.drop_last())[j]);
                }
            }
            if paths_of(items.drop_last()).contains(d.path) {
                let k = choose|k: int|
                    0 <= k < paths_of(items.drop_last()).len() && paths_of(items.drop_last())[k]
                        == d.path;
                assert(paths_of(items)[k] == paths_of(items)[items.len() - 1]);
            }
        }
        match entry_for(snap, d.path) {
            Some(s) => {
                let nd = DockIconView { hwnd: s.hwnd, ..d };
                assert(kept_items(items, snap) == prev.push(nd));
                assert(paths_of(prev.push(nd)) =~= paths_of(prev).push(d.path));
            },
            None => {
                assert(kept_items(items, snap) == prev);
            },
        }
        assert forall|p: Seq<char>|
            paths_of(kept_items(items, snap)).contains(p) <==> paths_of(items).contains(p)
                && paths_of(snap).contains(p) by {
            assert(paths_of(prev).contains(p) <==> paths_of(items.drop_last()).contains(p)
                && paths_of(snap).contains(p));
        }
    }
}

/// The paths of the fresh entries: those of `snap` that `present` lacks, once each.
pub proof fn lemma_fresh_items(snap: Seq<DockIconView>, present: Seq<Seq<char>>)
    ensures
        forall|p: Seq<char>|
            #[trigger] paths_of(fresh_items(snap, present)).contains(p) <==> paths_of(snap).contains(p)
                && !present.contains(p),
        paths_of(snap).no_duplicates() ==> paths_of(fresh_items(snap, present)).no_duplicates(),
    decreases snap.len(),
{
    if snap.len() > 0 {
        let prev = fresh_items(snap.drop_last(), present);
        let d = snap.last();
        lemma_fresh_items(snap.drop_last(), present);
        assert(paths_of(snap.drop_last()) =~= paths_of(snap).drop_last());
        assert(paths_of(snap) =~= paths_of(snap.drop_last()).push(d.path));
        assert(paths_of(prev.push(d)) =~= paths_of(prev).push(d.path));
        lemma_push_paths(paths_of(snap.drop_last()), d.path);
        lemma_push_paths(paths_of(prev), d.path);
        if present.contains(d.path) {
            assert(fresh_items(snap, present) == prev);
        } else {
            assert(fresh_items(snap, present) == prev.push(d));
        }
        assert forall|p: Seq<char>|
            #[trigger] paths_of(fresh_items(snap, present)).contains(p) <==> paths_of(snap).contains(p)
                && !present.contains(p) by {
            assert(paths_of(prev).contains(p) <==> paths_of(snap.drop_last()).contains(p)
                && !present.contains(p));
            if paths_of(snap.drop_last()).contains(p) {
                let k = choose|k: int|
                    0 <= k < paths_of(snap.drop_last()).len() && paths_of(snap.drop_last())[k] == p;
                assert(paths_of(snap)[k] == p);
            }
            assert(paths_of(snap)[snap.len() - 1] == d.path);
        }
        if paths_of(snap).no_duplicates() {
            assert(paths_of(snap.drop_last()).no_duplicates()) by {
                assert forall|i: int, j: int|
                    0 <= i < paths_of(snap.drop_last()).len() && 0 <= j < paths_of(
                        snap.drop_last(),
                    ).len() && i != j implies paths_of(snap.drop_last())[i] != paths_of(
                    snap.drop_last(),
                )[j] by {
                    assert(paths_of(snap)[i] == paths_of(snap.drop_last())[i]);
                    assert(paths_of(snap)[j] == paths_of(snap.drop_last())[j]);
                }
            }
            if paths_of(snap.drop_last()).contains(d.path) {
                let k = choose|k: int|
                    0 <= k < paths_of(snap.drop_last()).len() && paths_of(snap.drop_last())[k]
                        == d.path;
                assert(paths_of(snap)[k] == paths_of(snap)[snap.len() - 1]);
            }
        }
    }
}

/// The paths of the kept cache entries: those of `icons` that `live` holds, once each.
pub proof fn lemma_kept_icons(icons: Seq<CachedIconView>, live: Seq<Seq<char>>)
    ensures
        forall|p: Seq<char>|
            #[trigger] cached_paths(kept_icons(icons, live)).contains(p) <==> cached_paths(icons).contains(p)
                && live.contains(p),
        cached_paths(icons).no_duplicates() ==> cached_paths(kept_icons(icons, live)).no_duplicates(),
    decreases icons.len(),
{
    if icons.len() > 0 {
        let prev = kept_icons(icons.drop_last(), live);
        let c = icons.last();
        lemma_kept_icons(icons.drop_last(), live);
        assert(cached_paths(icons.drop_last()) =~= cached_paths(icons).drop_last());
        assert(cached_paths(icons) =~= cached_paths(icons.drop_last()).push(c.path));
        assert(cached_paths(prev.push(c)) =~= cached_paths(prev).push(c.path));
        lemma_push_paths(cached_paths(icons.drop_last()), c.path);
        lemma_push_paths(cached_paths(prev), c.path);
        if live.contains(c.path) {
            assert(kept_icons(icons, live) == prev.push(c));
        } else {
            assert(kept_icons(icons, live) == prev);
        }
        assert forall|p: Seq<char>|
            #[trigger] cached_paths(kept_icons(icons, live)).contains(p) <==> cached_paths(
                icons,
            ).contains(p) && live.contains(p) by {
            assert(cached_paths(prev).contains(p) <==> cached_paths(icons.drop_last()).contains(p)
                && live.contains(p));
            if cached_paths(icons.drop_last()).contains(p) {
                let k = choose|k: int|
                    0 <= k < cached_paths(icons.drop_last()).len() && cached_paths(
                        icons.drop_last(),
                    )[k] == p;
                assert(cached_paths(icons)[k] == p);
            }
            assert(cached_paths(icons)[icons.len() - 1] == c.path);
        }
        if cached_paths(icons).no_duplicates() {
            assert(cached_paths(icons.drop_last()).no_duplicates()) by {
                assert forall|i: int, j: int|
                    0 <= i < cached_paths(icons.drop_last()).len() && 0 <= j < cached_paths(
                        icons.drop_last(),
                    ).len() && i != j implies cached_paths(icons.drop_last())[i] != cached_paths(
                    icons.drop_last(),
                )[j] by {
                    assert(cached_paths(icons)[i] == cached_paths(icons.drop_last())[i]);
                    assert(cached_paths(icons)[j] == cached_paths(icons.drop_last())[j]);
                }
            }
            if cached_paths(icons.drop_last()).contains(c.path) {
                let k = choose|k: int|
                    0 <= k < cached_paths(icons.drop_last()).len() && cached_paths(
                        icons.drop_last(),
                    )[k] == c.path;
                assert(cached_paths(icons)[k] == cached_paths(icons)[icons.len() - 1]);
            }
        }
    }
}

/// Two duplicate-free sequences with no common element concatenate to a duplicate-free one.
pub proof fn lemma_concat_no_duplicates(a: Seq<Seq<char>>, b: Seq<Seq<char>>)
    requires
        a.no_duplicates(),
        b.no_duplicates(),
        forall|x: Seq<char>| a.contains(x) ==> !b.contains(x),
    ensures
        (a + b).no_duplicates(),
{
    assert forall|i: int, j: int| 0 <= i < (a + b).len() && 0 <= j < (a + b).len() && i != j implies (a
        + b)[i] != (a + b)[j] by {
        if i < a.len() && j >= a.len() {
            assert(a.contains((a + b)[i]));
            assert(b[j - a.len()] == (a + b)[j]);
        } else if j < a.len() && i >= a.len() {
            assert(a.contains((a + b)[j]));
            assert(b[i - a.len()] == (a + b)[i]);
        }
    }
}

/// A reconciliation pass keeps the state well formed.
pub proof fn lemma_reconciled_wf(st: DockState, snap: Seq<DockIconView>)
    requires
        st.wf(),
        paths_of(snap).no_duplicates(),
    ensures
        reconciled(st, snap).wf(),
        forall|p: Seq<char>|
            paths_of(reconciled(st, snap).items).contains(p) <==> paths_of(snap).contains(p),
{
    let kept = kept_items(st.items, snap);
    let fresh = fresh_items(snap, paths_of(st.items));
    let r = reconciled(st, snap);
    lemma_kept_items(st.items, snap);
    lemma_fresh_items(snap, paths_of(st.items));
    lemma_kept_icons(st.icons, paths_of(snap));
    assert(paths_of(kept + fresh) =~= paths_of(kept) + paths_of(fresh));
    lemma_concat_no_duplicates(paths_of(kept), paths_of(fresh));
    assert forall|p: Seq<char>| paths_of(r.items).contains(p) <==> paths_of(snap).contains(p) by {
        if paths_of(kept).contains(p) {
            let k = choose|k: int| 0 <= k < paths_of(kept).len() && paths_of(kept)[k] == p;
            assert(paths_of(r.items)[k] == p);
        }
        if paths_of(fresh).contains(p) {
            let k = choose|k: int| 0 <= k < paths_of(fresh).len() && paths_of(fresh)[k] == p;
            assert(paths_of(r.items)[paths_of(kept).len() + k] == p);
        }
        if paths_of(r.items).contains(p) {
            let k = choose|k: int| 0 <= k < paths_of(r.items).len() && paths_of(r.items)[k] == p;
            if k < paths_of(kept).len() {
                assert(paths_of(kept)[k] == p);
            } else {
                assert(paths_of(fresh)[k - paths_of(kept).len()] == p);
            }
        }
    }
    assert forall|i: int| 0 <= i < r.icons.len() implies paths_of(r.items).contains(
        #[trigger] r.icons[i].path,
    ) by {
        assert(cached_paths(r.icons)[i] == r.icons[i].path);
        assert(cached_paths(r.icons).contains(r.icons[i].path));
    }
}

/// Offering an entry keeps the state well formed and leaves its path listed.
pub proof fn lemma_admitted(st: DockState, d: DockIconView)
    requires
        st.wf(),
    ensures
        admitted(st, Some(d)).wf(),
        paths_of(admitted(st, Some(d)).items).contains(d.path),
        forall|p: Seq<char>|
            #[trigger] paths_of(admitted(st, Some(d)).items).contains(p) <==> paths_of(
                st.items,
            ).contains(p) || p == d.path,
        admitted(st, Some(d)).icons == st.icons,
{
    let r = admitted(st, Some(d));
    lemma_push_paths(paths_of(st.items), d.path);
    if !paths_of(st.items).contains(d.path) {
        assert(paths_of(r.items) =~= paths_of(st.items).push(d.path));
        assert forall|i: int| 0 <= i < r.icons.len() implies paths_of(r.items).contains(
            #[trigger] r.icons[i].path,
        ) by {
            assert(paths_of(st.items).contains(st.icons[i].path));
        }
    }
}

/// Consuming an event keeps the state well formed.
pub proof fn lemma_after_event_wf(
    st: DockState,
    event: WindowEvent,
    window: Option<WindowInfo>,
    own_path: Seq<char>,
)
    requires
        st.wf(),
    ensures
        after_event(st, event, window, own_path).wf(),
{
    match event {
        WindowEvent::WindowCreated(_) | WindowEvent::WindowShown(_) => match window {
            Some(w) => match resolve_window(w, own_path) {
                Some(d) => lemma_admitted(st, d),
                None => {},
            },
            None => {},
        },
        _ => {},
    }
}

/// Consuming a batch of events keeps the state well formed.
pub proof fn lemma_after_events_wf(st: DockState, evs: Seq<ObservedEvent>, own_path: Seq<char>)
    requires
        st.wf(),
    ensures
        after_events(st, evs, own_path).wf(),
    decreases evs.len(),
{
    if evs.len() > 0 {
        lemma_after_events_wf(st, evs.drop_last(), own_path);
        lemma_after_event_wf(
            after_events(st, evs.drop_last(), own_path),
            evs.last().event,
            evs.last().window,
            own_path,
        );
    }
}

/// The paths still to be given an icon: the listed ones without a cache entry, once each.
pub proof fn lemma_uncached_paths(items: Seq<DockIconView>, cached: Seq<Seq<char>>)
    ensures
        forall|p: Seq<char>|
            #[trigger] uncached_paths(items, cached).contains(p) <==> paths_of(items).contains(p)
                && !cached.contains(p),
        paths_of(items).no_duplicates() ==> uncached_paths(items, cached).no_duplicates(),
    decreases items.len(),
{
    if items.len() > 0 {
        let prev = uncached_paths(items.drop_last(), cached);
        let d = items.last();
        lemma_uncached_paths(items.drop_last(), cached);
        assert(paths_of(items.drop_last()) =~= paths_of(items).drop_last());
        assert(paths_of(items) =~= paths_of(items.drop_last()).push(d.path));
        lemma_push_paths(paths_of(items.drop_last()), d.path);
        lemma_push_paths(prev, d.path);
        if cached.contains(d.path) {
            assert(uncached_paths(items, cached) == prev);
        } else {
            assert(uncached_paths(items, cached) == prev.push(d.path));
        }
        assert forall|p: Seq<char>|
            #[trigger] uncached_paths(items, cached).contains(p) <==> paths_of(items).contains(p)
                && !cached.contains(p) by {
            assert(prev.contains(p) <==> paths_of(items.drop_last()).contains(p) && !cached.contains(
                p,
            ));
            if paths_of(items.drop_last()).contains(p) {
                let k = choose|k: int|
                    0 <= k < paths_of(items.drop_last()).len() && paths_of(items.drop_last())[k]
                        == p;
                assert(paths_of(items)[k] == p);
            }
            assert(paths_of(items)[items.len() - 1] == d.path);
        }
        if paths_of(items).no_duplicates() {
            assert(paths_of(items.drop_last()).no_duplicates()) by {
                assert forall|i: int, j: int|
                    0 <= i < paths_of(items.drop_last()).len() && 0 <= j < paths_of(
                        items.drop_last(),
                    ).len() && i != j implies paths_of(items.drop_last())[i] != paths_of(
                    items.drop_last(),
                )[j] by {
                    assert(paths_of(items)[i] == paths_of(items.drop_last())[i]);
                    assert(paths_of(items)[j] == paths_of(items.drop_last())[j]);
                }
            }
            if paths_of(items.drop_last()).contains(d.path) {
                let k = choose|k: int|
                    0 <= k < paths_of(items.drop_last()).len() && paths_of(items.drop_last())[k]
                        == d.path;
                assert(paths_of(items)[k] == paths_of(items)[items.len() - 1]);
            }
        }
    }
}

/// The position of the first entry of `snap` with the given path.
fn entry_index(snap: &Vec<DockIcon>, path: &String) -> (r: Option<usize>)
    ensures
        r matches Some(k) ==> k < snap.len() && entry_for(views(snap@), path@) == Some(
            snap@[k as int]@,
        ),
        r is None ==> entry_for(views(snap@), path@) is None,
{
    let ghost v = views(snap@);
    let mut i: usize = 0;
    assert(v.subrange(0, v.len() as int) =~= v);
    while i < snap.len()
        invariant
            i <= snap.len(),
            v == views(snap@),
            entry_for(v, path@) == entry_for(v.subrange(i as int, v.len() as int), path@),
        decreases snap.len() - i,
    {
        assert(v.subrange(i as int, v.len() as int).drop_first() =~= v.subrange(
            i + 1,
            v.len() as int,
        ));
        assert(v.subrange(i as int, v.len() as int)[0] == v[i as int]);
        if snap[i].path == *path {
            return Some(i);
        }
        i = i + 1;
    }
    None
}

impl FerroDock {
    /// A dock populated from one snapshot of the given top-level windows.
    pub fn new(windows: &Vec<WindowInfo>, own_path: &str) -> (r: FerroDock)
        ensures
            r@.items == snapshot_of(windows@, own_path@),
            r@.icons.len() == 0,
            !r@.needs_refresh,
            r@.wf(),
    {
        let items = update_running_apps(windows, own_path);
        let r = FerroDock { dock_items: items, icon_cache: Vec::new(), needs_refresh: false };
        assert(cached_paths(r@.icons) =~= Seq::<Seq<char>>::empty());
        r
    }

    /// Offers a dock entry to the list; it is added unless its path is already there.
    fn offer(&mut self, icon: Option<DockIcon>)
        requires
            old(self)@.wf(),
        ensures
            final(self)@ == admitted(
                old(self)@,
                match icon {
                    Some(d) => Some(d@),
                    None => None,
                },
            ),
            final(self)@.wf(),
    {
        match icon {
            Some(d) => {
                proof {
                    lemma_admitted(self@, d@);
                }
                if !contains_path(&self.dock_items, &d.path) {
                    let ghost before = self@;
                    let ghost p = d@;
                    self.dock_items.push(d);
                    assert(self@.items =~= before.items.push(p));
                }
            },
            None => {},
        }
    }

    /// Consumes one event: a created or shown window is resolved and added unless
    /// its path is listed; a destroyed window asks for a reconciliation pass.
    pub fn process_window_event(&mut self, observed: &ObservedEvent, own_path: &str)
        requires
            old(self)@.wf(),
        ensures
            final(self)@ == after_event(old(self)@, observed.event, observed.window, own_path@),
            final(self)@.wf(),
    {
        match observed.event {
            WindowEvent::WindowCreated(_) | WindowEvent::WindowShown(_) => {
                match &observed.window {
                    Some(w) => {
                        let icon = get_dock_icon_for_window(w, own_path);
                        self.offer(icon);
                    },
                    None => {},
                }
            },
            WindowEvent::WindowDestroyed(_) => {
                self.needs_refresh = true;
                assert(self@.items == old(self)@.items);
            },
            WindowEvent::WindowHidden(_) | WindowEvent::WindowActivated(_) => {},
        }
    }

    /// Consumes a batch of events in arrival order; returns whether there was any.
    pub fn process_window_events(&mut self, events: &Vec<ObservedEvent>, own_path: &str) -> (r: bool)
        requires
            old(self)@.wf(),
        ensures
            final(self)@ == after_events(old(self)@, events@, own_path@),
            final(self)@.wf(),
            r == (events.len() > 0),
    {
        let mut i: usize = 0;
        while i < events.len()
            invariant
                i <= events.len(),
                self@.wf(),
                self@ == after_events(old(self)@, events@.take(i as int), own_path@),
            decreases events.len() - i,
        {
            assert(events@.take(i + 1).drop_last() =~= events@.take(i as int));
            self.process_window_event(&events[i], own_path);
            i = i + 1;
        }
        assert(events@.take(events@.len() as int) =~= events@);
        events.len() > 0
    }
    /// A full reconciliation pass against a fresh snapshot of the given windows.
    pub fn reconcile(&mut self, windows: &Vec<WindowInfo>, own_path: &str)
        requires
            old(self)@.wf(),
        ensures
            final(self)@ == reconciled(old(self)@, snapshot_of(windows@, own_path@)),
            final(self)@.wf(),
    {
        let ghost st = self@;
        let snapshot = update_running_apps(windows, own_path);
        let ghost snap = views(snapshot@);
        proof {
            lemma_reconciled_wf(st, snap);
        }
        let mut fresh: Vec<DockIcon> = Vec::new();
        let mut j: usize = 0;
        assert(views(fresh@) =~= fresh_items(snap.take(0), paths_of(st.items)));
        while j < snapshot.len()
            invariant
                j <= snapshot.len(),
                self@ == st,
                snap == views(snapshot@),
                views(fresh@) == fresh_items(snap.take(j as int), paths_of(st.items)),
            decreases snapshot.len() - j,
        {
            assert(snap.take(j + 1).drop_last() =~= snap.take(j as int));
            let s = &snapshot[j];
            if !contains_path(&self.dock_items, &s.path) {
                let ghost before = fresh@;
                fresh.push(DockIcon { path: s.path.clone(), hicon: s.hicon, hwnd: s.hwnd });
                assert(views(fresh@) =~= views(before).push(snap[j as int]));
            }
            j = j + 1;
        }
        assert(snap.take(snap.len() as int) =~= snap);
        let mut kept: Vec<DockIcon> = Vec::new();
        let mut i: usize = 0;
        assert(views(kept@) =~= kept_items(st.items.take(0), snap));
        while i < self.dock_items.len()
            invariant
                i <= self.dock_items.len(),
                self@ == st,
                snap == views(snapshot@),
                views(kept@) == kept_items(st.items.take(i as int), snap),
            decreases self.dock_items.len() - i,
        {
            assert(st.items.take(i + 1).drop_last() =~= st.items.take(i as int));
            let d = &self.dock_items[i];
            match entry_index(&snapshot, &d.path) {
                Some(k) => {
                    let ghost before = kept@;
                    let nd = DockIcon { path: d.path.clone(), hicon: d.hicon, hwnd: snapshot[k].hwnd };
                    kept.push(nd);
                    assert(views(kept@) =~= views(before).push(nd@));
                },
                None => {},
            }
            i = i + 1;
        }
        assert(st.items.take(st.items.len() as int) =~= st.items);
        let ghost kept_view = views(kept@);
        let ghost fresh_view = views(fresh@);
        kept.append(&mut fresh);
        assert(views(kept@) =~= kept_view + fresh_view);
        let mut old_icons: Vec<CachedIcon> = Vec::new();
        core::mem::swap(&mut self.icon_cache, &mut old_icons);
        let ghost orig = old_icons@.map_values(|c: CachedIcon| c@);
        assert(orig == st.icons);
        let mut icons: Vec<CachedIcon> = Vec::new();
        let ghost mut n: int = 0;
        assert(icons@.map_values(|c: CachedIcon| c@) =~= kept_icons(orig.take(0), paths_of(snap)));
        assert(old_icons@.map_values(|c: CachedIcon| c@) =~= orig.subrange(0, orig.len() as int));
        while old_icons.len() > 0
            invariant
                0 <= n <= orig.len(),
                n + old_icons.len() == orig.len(),
                snap == views(snapshot@),
                old_icons@.map_values(|c: CachedIcon| c@) == orig.subrange(n, orig.len() as int),
                icons@.map_values(|c: CachedIcon| c@) == kept_icons(orig.take(n), paths_of(snap)),
            decreases old_icons.len(),
        {
            let ghost rest = old_icons@;
            let c = old_icons.remove(0);
            assert(rest.map_values(|c: CachedIcon| c@)[0] == rest[0]@);
            assert(c@ == orig[n]);
            assert forall|k: int| 0 <= k < old_icons@.len() implies old_icons@[k]@ == orig[n + 1
                + k] by {
                assert(old_icons@[k] == rest[k + 1]);
                assert(rest.map_values(|c: CachedIcon| c@)[k + 1] == rest[k + 1]@);
            }
            assert(old_icons@.map_values(|c: CachedIcon| c@) =~= orig.subrange(
                n + 1,
                orig.len() as int,
            ));
            assert(orig.take(n + 1).drop_last() =~= orig.take(n));
            if contains_path(&snapshot, &c.path) {
                let ghost before = icons@;
                icons.push(c);
                assert(icons@.map_values(|c: CachedIcon| c@) =~= before.map_values(
                    |c: CachedIcon| c@,
                ).push(orig[n]));
            }
            proof {
                n = n + 1;
            }
        }
        assert(orig.take(orig.len() as int) =~= orig);
        self.dock_items = kept;
        self.icon_cache = icons;
        self.needs_refresh = false;
        assert(self@.items == reconciled(st, snap).items);
        assert(self@.icons == reconciled(st, snap).icons);
    }

    /// Whether a reconciliation pass is due, `elapsed_ms` after the last one, with
    /// or without a working notification listener.
    pub fn reconciliation_due(&self, listening: bool, elapsed_ms: u64) -> (r: bool)
        ensures
            r == reconciliation_due_for(self.needs_refresh, listening, elapsed_ms),
    {
        let interval = if listening {
            POLL_INTERVAL_MS
        } else {
            POLL_INTERVAL_WITHOUT_EVENTS_MS
        };
        self.needs_refresh || elapsed_ms >= interval
    }

    /// The listed paths whose icon extraction has not been attempted, in list order.
    pub fn paths_needing_icons(&self) -> (r: Vec<String>)
        ensures
            string_views(r@) == uncached_paths(self@.items, cached_paths(self@.icons)),
    {
        let ghost items = self@.items;
        let ghost cached = cached_paths(self@.icons);
        let mut r: Vec<String> = Vec::new();
        let mut i: usize = 0;
        assert(string_views(r@) =~= uncached_paths(items.take(0), cached));
        while i < self.dock_items.len()
            invariant
                i <= self.dock_items.len(),
                items == self@.items,
                cached == cached_paths(self@.icons),
                string_views(r@) == uncached_paths(items.take(i as int), cached),
            decreases self.dock_items.len() - i,
        {
            assert(items.take(i + 1).drop_last() =~= items.take(i as int));
            let p = &self.dock_items[i].path;
            if !self.has_cached_icon(p) {
                let ghost before = r@;
                r.push(p.clone());
                assert(string_views(r@) =~= string_views(before).push(p@));
            }
            i = i + 1;
        }
        assert(items.take(items.len() as int) =~= items);
        r
    }

    /// Whether the icon cache has an entry for the path.
    pub fn has_cached_icon(&self, path: &String) -> (r: bool)
        ensures
            r == cached_paths(self@.icons).contains(path@),
    {
        let mut i: usize = 0;
        while i < self.icon_cache.len()
            invariant
                i <= self.icon_cache.len(),
                forall|k: int| 0 <= k < i ==> self.icon_cache@[k].path@ != path@,
            decreases self.icon_cache.len() - i,
        {
            if self.icon_cache[i].path == *path {
                assert(cached_paths(self@.icons)[i as int] == path@);
                return true;
            }
            i = i + 1;
        }
        assert(!cached_paths(self@.icons).contains(path@)) by {
            if cached_paths(self@.icons).contains(path@) {
                let k = choose|k: int|
                    0 <= k < self@.icons.len() && cached_paths(self@.icons)[k] == path@;
                assert(self.icon_cache@[k].path@ == path@);
            }
        }
        false
    }

    /// Records the outcome of an icon extraction for a path: kept only for a listed
    /// path that has no cache entry yet, so that extraction is attempted once per path.
    pub fn record_icon(&mut self, path: &str, bitmap: Option<IconBitmap>)
        requires
            old(self)@.wf(),
        ensures
            final(self)@ == recorded(old(self)@, path@, bitmap_view(bitmap)),
            final(self)@.wf(),
    {
        let p = path.to_owned();
        if contains_path(&self.dock_items, &p) && !self.has_cached_icon(&p) {
            let ghost before = self@;
            let entry = CachedIcon { path: p, bitmap };
            let ghost ev = entry@;
            self.icon_cache.push(entry);
            assert(self@.icons =~= before.icons.push(ev));
            proof {
                lemma_push_paths(cached_paths(before.icons), path@);
            }
            assert(cached_paths(self@.icons) =~= cached_paths(before.icons).push(path@));
            assert forall|i: int| 0 <= i < self@.icons.len() implies paths_of(self@.items).contains(
                #[trigger] self@.icons[i].path,
            ) by {
                if i < before.icons.len() {
                    assert(self@.icons[i] == before.icons[i]);
                }
            }
        }
    }
}

} // verus!
