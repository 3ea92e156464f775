use ferro_dock::dock::{FerroDock, ObservedEvent};
use ferro_dock::events::WindowEvent;
use ferro_dock::icons::IconBitmap;
use ferro_dock::windows::WindowInfo;

const OWN: &str = "C:\\Tools\\FerroDock.exe";

fn window(hwnd: isize, path: &str) -> WindowInfo {
    WindowInfo {
        hwnd,
        visible: true,
        title_len: 5,
        has_owner: false,
        ex_style: 0,
        cloaked: false,
        class_name: String::from("AppWindow"),
        process_id: 100 + hwnd as u32,
        process_path: Some(String::from(path)),
        big_icon: 1000 + hwnd,
        class_icon: 0,
        children: Vec::new(),
    }
}

fn created(hwnd: isize, path: &str) -> ObservedEvent {
    ObservedEvent { event: WindowEvent::WindowCreated(hwnd), window: Some(window(hwnd, path)) }
}

fn destroyed(hwnd: isize) -> ObservedEvent {
    ObservedEvent { event: WindowEvent::WindowDestroyed(hwnd), window: None }
}

fn paths(dock: &FerroDock) -> Vec<String> {
    dock.dock_items.iter().map(|d| d.path.clone()).collect()
}

fn tiny_bitmap() -> Option<IconBitmap> {
    Some(IconBitmap { width: 1, height: 1, pixels: vec![1, 2, 3, 4] })
}

#[test]
fn created_event_for_listed_path_keeps_single_entry() {
    let windows = vec![window(1, "C:\\A.exe")];
    let mut dock = FerroDock::new(&windows, OWN);
    assert_eq!(paths(&dock), vec!["C:\\A.exe".to_string()]);
    let changed = dock.process_window_events(&vec![created(1, "C:\\A.exe")], OWN);
    assert!(changed);
    assert_eq!(dock.dock_items.len(), 1);
    assert_eq!(dock.dock_items[0].path, "C:\\A.exe");
}

#[test]
fn destroyed_window_is_removed_with_its_icon() {
    let windows = vec![window(1, "C:\\A.exe")];
    let mut dock = FerroDock::new(&windows, OWN);
    dock.record_icon("C:\\A.exe", tiny_bitmap());
    assert_eq!(dock.icon_cache.len(), 1);
    dock.process_window_events(&vec![destroyed(1)], OWN);
    assert!(dock.needs_refresh);
    assert_eq!(dock.dock_items.len(), 1);
    dock.reconcile(&Vec::new(), OWN);
    assert!(dock.dock_items.is_empty());
    assert!(dock.icon_cache.is_empty());
    assert!(!dock.needs_refresh);
}

#[test]
fn repeated_creations_of_one_path_list_it_once() {
    let mut dock = FerroDock::new(&Vec::new(), OWN);
    let events = vec![
        created(1, "C:\\B.exe"),
        created(2, "C:\\B.exe"),
        created(3, "C:\\B.exe"),
    ];
    dock.process_window_events(&events, OWN);
    assert_eq!(paths(&dock), vec!["C:\\B.exe".to_string()]);
    assert_eq!(dock.dock_items[0].hwnd, 1);
}

#[test]
fn shown_event_adds_and_hidden_or_activated_change_nothing() {
    let mut dock = FerroDock::new(&Vec::new(), OWN);
    let shown = ObservedEvent {
        event: WindowEvent::WindowShown(4),
        window: Some(window(4, "C:\\C.exe")),
    };
    dock.process_window_event(&shown, OWN);
    assert_eq!(paths(&dock), vec!["C:\\C.exe".to_string()]);
    let hidden = ObservedEvent {
        event: WindowEvent::WindowHidden(5),
        window: Some(window(5, "C:\\D.exe")),
    };
    let activated = ObservedEvent {
        event: WindowEvent::WindowActivated(6),
        window: Some(window(6, "C:\\E.exe")),
    };
    dock.process_window_events(&vec![hidden, activated], OWN);
    assert_eq!(paths(&dock), vec!["C:\\C.exe".to_string()]);
    assert!(!dock.needs_refresh);
}

#[test]
fn created_event_without_window_information_is_discarded() {
    let mut dock = FerroDock::new(&Vec::new(), OWN);
    let ev = ObservedEvent { event: WindowEvent::WindowCreated(9), window: None };
    dock.process_window_event(&ev, OWN);
    assert!(dock.dock_items.is_empty());
}

#[test]
fn reconciliation_leaves_exactly_the_snapshot_paths() {
    let mut dock = FerroDock::new(&vec![window(1, "C:\\A.exe"), window(2, "C:\\B.exe")], OWN);
    dock.process_window_events(&vec![created(3, "C:\\C.exe"), destroyed(2)], OWN);
    let now = vec![window(7, "C:\\B.exe"), window(8, "C:\\D.exe"), window(3, "C:\\C.exe")];
    dock.reconcile(&now, OWN);
    assert_eq!(
        paths(&dock),
        vec!["C:\\B.exe".to_string(), "C:\\C.exe".to_string(), "C:\\D.exe".to_string()]
    );
    assert_eq!(dock.dock_items[0].hwnd, 7);
}

#[test]
fn empty_batch_changes_nothing() {
    let mut dock = FerroDock::new(&vec![window(1, "C:\\A.exe")], OWN);
    dock.record_icon("C:\\A.exe", None);
    let changed = dock.process_window_events(&Vec::new(), OWN);
    assert!(!changed);
    assert_eq!(paths(&dock), vec!["C:\\A.exe".to_string()]);
    assert_eq!(dock.icon_cache.len(), 1);
    assert!(!dock.needs_refresh);
}

#[test]
fn readded_path_needs_one_new_extraction() {
    let mut dock = FerroDock::new(&vec![window(1, "C:\\A.exe")], OWN);
    assert_eq!(dock.paths_needing_icons(), vec!["C:\\A.exe".to_string()]);
    dock.record_icon("C:\\A.exe", tiny_bitmap());
    assert!(dock.paths_needing_icons().is_empty());
    dock.reconcile(&Vec::new(), OWN);
    assert!(!dock.has_cached_icon(&"C:\\A.exe".to_string()));
    dock.process_window_events(&vec![created(5, "C:\\A.exe")], OWN);
    assert_eq!(dock.paths_needing_icons(), vec!["C:\\A.exe".to_string()]);
    dock.record_icon("C:\\A.exe", None);
    assert!(dock.paths_needing_icons().is_empty());
    assert!(dock.has_cached_icon(&"C:\\A.exe".to_string()));
}

#[test]
fn failed_extraction_is_not_retried() {
    let mut dock = FerroDock::new(&vec![window(1, "C:\\A.exe")], OWN);
    dock.record_icon("C:\\A.exe", None);
    dock.record_icon("C:\\A.exe", tiny_bitmap());
    assert_eq!(dock.icon_cache.len(), 1);
    assert!(dock.icon_cache[0].bitmap.is_none());
}

#[test]
fn icon_for_unlisted_path_is_not_recorded() {
    let mut dock = FerroDock::new(&vec![window(1, "C:\\A.exe")], OWN);
    dock.record_icon("C:\\Z.exe", tiny_bitmap());
    assert!(dock.icon_cache.is_empty());
}

#[test]
fn cloaked_packaged_window_keeps_its_entry() {
    let path = "C:\\Program Files\\WindowsApps\\Calc\\Calc.exe";
    let mut dock = FerroDock::new(&vec![window(1, path)], OWN);
    let mut cloaked = window(1, path);
    cloaked.cloaked = true;
    dock.process_window_events(&vec![destroyed(2)], OWN);
    dock.reconcile(&vec![cloaked], OWN);
    assert_eq!(paths(&dock), vec![path.to_string()]);
}

#[test]
fn cloaked_plain_window_loses_its_entry() {
    let mut dock = FerroDock::new(&vec![window(1, "C:\\A.exe")], OWN);
    let mut cloaked = window(1, "C:\\A.exe");
    cloaked.cloaked = true;
    dock.reconcile(&vec![cloaked], OWN);
    assert!(dock.dock_items.is_empty());
}

#[test]
fn reconciliation_due_on_request_or_after_interval() {
    let mut dock = FerroDock::new(&Vec::new(), OWN);
    assert!(!dock.reconciliation_due(true, 4999));
    assert!(dock.reconciliation_due(true, 5000));
    assert!(!dock.reconciliation_due(false, 999));
    assert!(dock.reconciliation_due(false, 1000));
    dock.process_window_events(&vec![destroyed(3)], OWN);
    assert!(dock.reconciliation_due(true, 0));
}
