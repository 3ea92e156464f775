use ferro_dock::apps::{has_visible_uwp_window, is_uwp_app, is_uwp_app_running};
use ferro_dock::events::{shell_hook_event, WindowEvent};
use ferro_dock::icons::get_dock_icon_for_window;
use ferro_dock::windows::{
    enum_windows_proc, has_explorer_windows, has_visible_window, has_visible_window_folded,
    is_dock_worthy_window, update_running_apps, ChildWindowInfo, WindowInfo, TOOL_WINDOW_STYLE,
};

const OWN: &str = "C:\\Tools\\FerroDock.exe";

fn window(hwnd: isize, path: &str) -> WindowInfo {
    WindowInfo {
        hwnd,
        visible: true,
        title_len: 5,
        has_owner: false,
        ex_style: 0,
        cloaked: false,
        class_name: String::from("AppWindow"),
        process_id: 100 + hwnd as u32,
        process_path: Some(String::from(path)),
        big_icon: 1000 + hwnd,
        class_icon: 0,
        children: Vec::new(),
    }
}

#[test]
fn two_windows_of_one_executable_give_one_entry() {
    let windows = vec![window(1, "C:\\B.exe"), window(2, "C:\\B.exe")];
    let icons = update_running_apps(&windows, OWN);
    assert_eq!(icons.len(), 1);
    assert_eq!(icons[0].path, "C:\\B.exe");
    assert_eq!(icons[0].hwnd, 1);
    assert_eq!(icons[0].hicon, 1001);
}

#[test]
fn snapshot_skips_filtered_windows_and_keeps_order() {
    let mut hidden = window(2, "C:\\Hidden.exe");
    hidden.visible = false;
    let mut tool = window(3, "C:\\Tool.exe");
    tool.ex_style = TOOL_WINDOW_STYLE | 0x100;
    let mut cloaked = window(4, "C:\\Cloaked.exe");
    cloaked.cloaked = true;
    let windows = vec![
        window(1, "C:\\A.exe"),
        hidden,
        tool,
        cloaked,
        window(5, OWN),
        window(6, "C:\\Windows\\SystemApps\\SearchHost.exe"),
        window(7, "C:\\Z.exe"),
    ];
    let icons = update_running_apps(&windows, OWN);
    let paths: Vec<String> = icons.iter().map(|i| i.path.clone()).collect();
    assert_eq!(paths, vec!["C:\\A.exe".to_string(), "C:\\Z.exe".to_string()]);
}

#[test]
fn classifier_checks_each_condition() {
    let w = window(1, "C:\\A.exe");
    assert!(is_dock_worthy_window(&w));
    assert!(enum_windows_proc(&w));
    let mut untitled = window(1, "C:\\A.exe");
    untitled.title_len = 0;
    assert!(!is_dock_worthy_window(&untitled));
    let mut owned = window(1, "C:\\A.exe");
    owned.has_owner = true;
    assert!(!is_dock_worthy_window(&owned));
    let mut cloaked = window(1, "C:\\A.exe");
    cloaked.cloaked = true;
    assert!(!is_dock_worthy_window(&cloaked));
    assert!(enum_windows_proc(&cloaked));
    let mut tool = window(1, "C:\\A.exe");
    tool.ex_style = TOOL_WINDOW_STYLE;
    assert!(!is_dock_worthy_window(&tool));
    assert!(!enum_windows_proc(&tool));
}

#[test]
fn packaged_app_bypasses_cloak_check() {
    let mut w = window(1, "C:\\Program Files\\WindowsApps\\App\\App.exe");
    w.cloaked = true;
    let icon = get_dock_icon_for_window(&w, OWN).expect("packaged window resolves");
    assert_eq!(icon.path, "C:\\Program Files\\WindowsApps\\App\\App.exe");
    let mut plain = window(1, "C:\\A.exe");
    plain.cloaked = true;
    assert!(get_dock_icon_for_window(&plain, OWN).is_none());
}

#[test]
fn resolution_falls_back_to_class_icon() {
    let mut w = window(1, "C:\\A.exe");
    w.big_icon = 0;
    w.class_icon = 77;
    let icon = get_dock_icon_for_window(&w, OWN).expect("class icon used");
    assert_eq!(icon.hicon, 77);
    w.class_icon = 0;
    assert!(get_dock_icon_for_window(&w, OWN).is_none());
}

#[test]
fn resolution_fails_without_process_or_for_background_hosts() {
    let mut no_pid = window(1, "C:\\A.exe");
    no_pid.process_id = 0;
    assert!(get_dock_icon_for_window(&no_pid, OWN).is_none());
    let mut no_path = window(1, "C:\\A.exe");
    no_path.process_path = None;
    assert!(get_dock_icon_for_window(&no_path, OWN).is_none());
    for host in [
        "C:\\Windows\\TextInputHost.exe",
        "C:\\Windows\\StartMenuExperienceHost.exe",
        "C:\\Windows\\ShellExperienceHost.exe",
        "C:\\Windows\\LockApp.exe",
        "C:\\Windows\\SearchHost.exe",
    ] {
        assert!(get_dock_icon_for_window(&window(1, host), OWN).is_none());
    }
    assert!(get_dock_icon_for_window(&window(1, OWN), OWN).is_none());
}

#[test]
fn packaged_paths_are_recognised() {
    assert!(is_uwp_app("C:\\Program Files\\WindowsApps\\App\\App.exe"));
    assert!(is_uwp_app("C:/Program Files/WindowsApps/App/App.exe"));
    assert!(is_uwp_app("C:\\Windows\\ImmersiveControlPanel\\SystemSettings.exe"));
    assert!(is_uwp_app("C:\\Windows\\SystemApps\\Shell\\App.exe"));
    assert!(!is_uwp_app("C:\\Program Files\\App\\App.exe"));
    assert!(!is_uwp_app(""));
}

fn frame(hwnd: isize, pid: u32, children: Vec<ChildWindowInfo>) -> WindowInfo {
    let mut w = window(hwnd, "C:\\Windows\\System32\\ApplicationFrameHost.exe");
    w.class_name = String::from("ApplicationFrameWindow");
    w.process_id = pid;
    w.children = children;
    w
}

#[test]
fn packaged_app_found_through_frame_host_child() {
    let target = "C:\\Program Files\\WindowsApps\\Calc\\Calc.exe";
    let own_child = ChildWindowInfo { process_id: 50, process_path: Some(String::from(target)) };
    let other_child = ChildWindowInfo { process_id: 60, process_path: Some(String::from(target)) };
    let same_pid = vec![frame(1, 50, vec![own_child])];
    assert!(!has_visible_uwp_window(&same_pid, target));
    let windows = vec![frame(1, 50, vec![other_child])];
    assert!(has_visible_uwp_window(&windows, target));
    assert!(is_uwp_app_running(&windows, target));
    assert!(!is_uwp_app_running(&windows, "C:\\Program Files\\WindowsApps\\X\\X.exe"));
    let mut hidden = frame(1, 50, vec![ChildWindowInfo { process_id: 60, process_path: Some(String::from(target)) }]);
    hidden.visible = false;
    assert!(!has_visible_uwp_window(&vec![hidden], target));
}

#[test]
fn file_manager_presence_goes_by_window_class() {
    let mut explorer = window(1, "C:\\Windows\\explorer.exe");
    explorer.class_name = String::from("CabinetWClass");
    let mut taskbar = window(2, "C:\\Windows\\explorer.exe");
    taskbar.class_name = String::from("Shell_TrayWnd");
    assert!(has_explorer_windows(&vec![explorer]));
    assert!(!has_explorer_windows(&vec![taskbar]));
    let mut cabinet = window(3, "C:\\Other.exe");
    cabinet.class_name = String::from("CabinetWClass");
    let windows = vec![cabinet];
    assert!(has_visible_window(&windows, "C:\\Windows\\EXPLORER.EXE"));
    assert!(!has_visible_window(&windows, "C:\\Windows\\notepad.exe"));
}

#[test]
fn visible_window_probe_matches_path() {
    let windows = vec![window(1, "C:\\A.exe")];
    assert!(has_visible_window(&windows, "C:\\A.exe"));
    assert!(!has_visible_window(&windows, "C:\\B.exe"));
    assert!(has_visible_window_folded(&windows, "C:\\A.exe", "c:\\a.exe"));
    let mut cloaked = window(1, "C:\\A.exe");
    cloaked.cloaked = true;
    assert!(!has_visible_window(&vec![cloaked], "C:\\A.exe"));
}

#[test]
fn shell_hook_codes_map_to_events() {
    assert_eq!(shell_hook_event(49000, 49000, 1, 7), Some(WindowEvent::WindowCreated(7)));
    assert_eq!(shell_hook_event(49000, 49000, 2, 7), Some(WindowEvent::WindowDestroyed(7)));
    assert_eq!(shell_hook_event(49000, 49000, 4, 7), Some(WindowEvent::WindowActivated(7)));
    assert_eq!(shell_hook_event(49000, 49000, 6, 7), None);
    assert_eq!(shell_hook_event(15, 49000, 1, 7), None);
}
