//! Properties that relate the dock's operations to one another.

use vstd::prelude::*;

use crate::dock::{
    admitted, after_events, cached_paths, lemma_admitted, lemma_after_events_wf,
    lemma_reconciled_wf, lemma_uncached_paths, reconciled, recorded, uncached_paths, DockState,
    ObservedEvent,
};
use crate::events::WindowEvent;
use crate::icons::{paths_of, resolve_window, DockIconView, IconBitmapView};
use crate::manifest::{
    file_name_of, file_stem_of, first_present, icon_candidate_paths, joined, parent_of,
    variant_suffixes,
};
use crate::windows::{lemma_snapshot_unique, snapshot_of, WindowInfo};

verus! {

/// Whether exactly one entry of `items` has path `p`.
pub open spec fn listed_once(items: Seq<DockIconView>, p: Seq<char>) -> bool {
    exists|i: int|
        0 <= i < items.len() && items[i].path == p && forall|j: int|
            0 <= j < items.len() && #[trigger] items[j].path == p ==> j == i
}

/// Whether every event of the batch is a creation whose window resolves to path `p`.
pub open spec fn all_created_at(evs: Seq<ObservedEvent>, own_path: Seq<char>, p: Seq<char>) -> bool {
    forall|i: int|
        0 <= i < evs.len() ==> {
            &&& #[trigger] evs[i].event is WindowCreated
            &&& evs[i].window matches Some(w) && resolve_window(w, own_path) matches Some(d)
                && d.path == p
        }
}

/// However many creation events resolve to the same path, the list then holds
/// exactly one entry for that path.
pub proof fn lemma_created_events_list_path_once(
    st: DockState,
    evs: Seq<ObservedEvent>,
    own_path: Seq<char>,
    p: Seq<char>,
)
    requires
        st.wf(),
        evs.len() > 0,
        all_created_at(evs, own_path, p),
    ensures
        listed_once(after_events(st, evs, own_path).items, p),
{
    let prev = after_events(st, evs.drop_last(), own_path);
    let e = evs.last();
    lemma_after_events_wf(st, evs.drop_last(), own_path);
    assert(e.event is WindowCreated);
    let w = e.window->0;
    let d = resolve_window(w, own_path)->0;
    lemma_admitted(prev, d);
    let items = after_events(st, evs, own_path).items;
    assert(items == admitted(prev, Some(d)).items);
    assert(paths_of(items).contains(p));
    let i = choose|i: int| 0 <= i < paths_of(items).len() && paths_of(items)[i] == p;
    assert forall|j: int| 0 <= j < items.len() && #[trigger] items[j].path == p implies j == i by {
        assert(paths_of(items)[j] == p);
    }
    assert(items[i].path == p);
}

/// After any batch of events and a reconciliation pass, the list holds exactly the
/// paths of the snapshot taken for that pass.
pub proof fn lemma_reconcile_matches_snapshot(
    st: DockState,
    evs: Seq<ObservedEvent>,
    windows: Seq<WindowInfo>,
    own_path: Seq<char>,
)
    requires
        st.wf(),
    ensures
        paths_of(
            reconciled(after_events(st, evs, own_path), snapshot_of(windows, own_path)).items,
        ).to_set() == paths_of(snapshot_of(windows, own_path)).to_set(),
{
    let snap = snapshot_of(windows, own_path);
    let mid = after_events(st, evs, own_path);
    lemma_after_events_wf(st, evs, own_path);
    lemma_snapshot_unique(windows, own_path);
    lemma_reconciled_wf(mid, snap);
    assert(paths_of(reconciled(mid, snap).items).to_set() =~= paths_of(snap).to_set());
}

/// An empty batch of events changes neither the list nor the icon cache.
pub proof fn lemma_empty_batch_changes_nothing(st: DockState, own_path: Seq<char>)
    ensures
        after_events(st, Seq::empty(), own_path) == st,
{
}

/// A path that is not listed has no icon cache entry.
pub proof fn lemma_unlisted_path_uncached(st: DockState, p: Seq<char>)
    requires
        st.wf(),
        !paths_of(st.items).contains(p),
    ensures
        !cached_paths(st.icons).contains(p),
{
    if cached_paths(st.icons).contains(p) {
        let k = choose|k: int| 0 <= k < cached_paths(st.icons).len() && cached_paths(st.icons)[k] == p;
        assert(st.icons[k].path == p);
    }
}

/// A path added to the list is due for exactly one extraction: it is listed once
/// among the paths still needing an icon, and no longer once its outcome is recorded.
pub proof fn lemma_readded_path_extracted_once(
    st: DockState,
    d: DockIconView,
    bitmap: Option<IconBitmapView>,
)
    requires
        st.wf(),
        !paths_of(st.items).contains(d.path),
    ensures
        ({
            let added = admitted(st, Some(d));
            let pending = uncached_paths(added.items, cached_paths(added.icons));
            &&& pending.contains(d.path)
            &&& pending.no_duplicates()
            &&& !({
                let done = recorded(added, d.path, bitmap);
                uncached_paths(done.items, cached_paths(done.icons))
            }).contains(d.path)
        }),
{
    let added = admitted(st, Some(d));
    lemma_admitted(st, d);
    lemma_unlisted_path_uncached(st, d.path);
    lemma_uncached_paths(added.items, cached_paths(added.icons));
    let done = recorded(added, d.path, bitmap);
    assert(cached_paths(done.icons) =~= cached_paths(added.icons).push(d.path));
    assert(cached_paths(done.icons)[cached_paths(added.icons).len() as int] == d.path);
    lemma_uncached_paths(done.items, cached_paths(done.icons));
}

/// The scale-200 variant of the logo `rel` of the package in `dir`.
pub open spec fn scale_200_variant(dir: Seq<char>, rel: Seq<char>) -> Seq<char> {
    let base = joined(dir, rel);
    joined(parent_of(base), file_stem_of(file_name_of(base))->0 + ".scale-200.png"@)
}

/// Where the logo file that a manifest references is missing and its scale-200
/// variant exists, the variant is the file chosen.
pub proof fn lemma_missing_logo_uses_scale_200(
    dir: Seq<char>,
    rel: Seq<char>,
    present: Seq<Seq<char>>,
)
    requires
        file_stem_of(file_name_of(joined(dir, rel))) is Some,
        !present.contains(joined(dir, rel)),
        present.contains(scale_200_variant(dir, rel)),
    ensures
        first_present(icon_candidate_paths(dir, rel), present) == Some(scale_200_variant(dir, rel)),
{
    let c = icon_candidate_paths(dir, rel);
    assert(variant_suffixes()[0] == ".scale-200.png"@);
    assert(c[0] == joined(dir, rel));
    assert(c.drop_first()[0] == scale_200_variant(dir, rel));
    reveal_with_fuel(first_present, 2);
}

} // verus!
