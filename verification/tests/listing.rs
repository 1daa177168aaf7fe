use agent_desktop_windows::adapter::{NativeHandle, PermissionStatus, TreeFault, WindowsAdapter};
use agent_desktop_windows::error::AdapterError;
use agent_desktop_windows::listing::{
    contains_text, hwnd_title, image_text, to_signed, window_entry, ListedWindow, ProcessWindow,
    WinCollector, WindowFilter, WindowInfo,
};
use agent_desktop_windows::node::TreeOptions;

fn window(handle: usize, title: &str, pid: u32, exe: Option<&str>) -> ProcessWindow {
    ProcessWindow { handle, title: title.to_string(), pid, exe: exe.map(|s| s.to_string()) }
}

fn desktop() -> Vec<ProcessWindow> {
    vec![
        window(11, "Notes", 100, Some(r"C:\Windows\Notepad.exe")),
        window(12, "Home", 200, Some(r"C:\Browser\browser.exe")),
        window(13, "More notes", 100, Some(r"C:\Windows\Notepad.exe")),
        window(14, "Guarded", 300, None),
    ]
}

fn no_filter() -> WindowFilter {
    WindowFilter { app: None }
}

fn named(app: &str) -> WindowFilter {
    WindowFilter { app: Some(app.to_string()) }
}

#[test]
fn each_process_is_one_application() {
    let apps = WindowsAdapter::new().list_apps(&desktop()).unwrap();
    let seen: Vec<(&str, i32, Option<&str>)> =
        apps.iter().map(|a| (a.name.as_str(), a.pid, a.bundle_id.as_deref())).collect();
    assert_eq!(
        seen,
        vec![
            ("Notepad", 100, Some(r"C:\Windows\Notepad.exe")),
            ("browser", 200, Some(r"C:\Browser\browser.exe")),
            ("Guarded", 300, Some("")),
        ]
    );
}

#[test]
fn an_empty_desktop_has_no_applications() {
    let apps = WindowsAdapter::default().list_apps(&vec![]).unwrap();
    assert!(apps.is_empty());
}

#[test]
fn large_process_numbers_wrap() {
    assert_eq!(to_signed(5), 5);
    assert_eq!(to_signed(0x7FFF_FFFF), i32::MAX);
    assert_eq!(to_signed(0x8000_0000), i32::MIN);
    assert_eq!(to_signed(u32::MAX), -1);
    let apps = WindowsAdapter::new().list_apps(&vec![window(1, "t", u32::MAX, None)]).unwrap();
    assert_eq!(apps[0].pid, -1);
}

#[test]
fn all_windows_without_a_filter() {
    let listed = WindowsAdapter::new().list_windows(&desktop(), &no_filter()).unwrap();
    assert_eq!(listed.len(), 4);
    assert_eq!(
        listed[0],
        WindowInfo {
            id: "w-11".to_string(),
            title: "Notes".to_string(),
            app: "Notepad".to_string(),
            pid: 100,
            bounds: None,
            is_focused: false,
        }
    );
    assert_eq!(listed[3].app, "Guarded");
    assert_eq!(listed[3].id, "w-14");
}

#[test]
fn filters_ignore_case() {
    let adapter = WindowsAdapter::new();
    for text in ["notepad", "NOTE", "Pad", "tEp"] {
        let listed = adapter.list_windows(&desktop(), &named(text)).unwrap();
        let ids: Vec<&str> = listed.iter().map(|w| w.id.as_str()).collect();
        assert_eq!(ids, vec!["w-11", "w-13"]);
    }
    assert!(adapter.list_windows(&desktop(), &named("missing")).unwrap().is_empty());
}

#[test]
fn filters_look_at_the_image_and_not_at_the_title() {
    let listed = WindowsAdapter::new().list_windows(&desktop(), &named("guarded")).unwrap();
    assert!(listed.is_empty());
}

#[test]
fn an_empty_filter_text_keeps_all() {
    let listed = WindowsAdapter::new().list_windows(&desktop(), &named("")).unwrap();
    assert_eq!(listed.len(), 4);
}

#[test]
fn filters_lower_text_beyond_ascii() {
    let windows = vec![window(1, "t", 1, Some("C:\\ÄRGER.exe"))];
    let listed = WindowsAdapter::new().list_windows(&windows, &named("ärg")).unwrap();
    assert_eq!(listed.len(), 1);
}

#[test]
fn the_root_of_a_verbatim_path_is_part_of_no_name() {
    let adapter = WindowsAdapter::new();
    let windows = vec![window(1, "t", 1, Some(r"\\?\C:/foo/bar"))];
    assert_eq!(adapter.list_apps(&windows).unwrap()[0].name, "foo/bar");
    assert_eq!(adapter.list_windows(&windows, &no_filter()).unwrap()[0].app, "foo/bar");
    assert!(adapter.list_windows(&windows, &named("/foo")).unwrap().is_empty());
    assert_eq!(adapter.list_windows(&windows, &named("FOO/")).unwrap().len(), 1);
}

#[test]
fn entries_with_texts_already_in_lower_case() {
    let notes = window(11, "Notes", 100, Some(r"C:\Windows\Notepad.exe"));
    assert!(window_entry(&notes, "notepad", Some("pad")).is_some());
    assert!(window_entry(&notes, "notepad", Some("pads")).is_none());
    assert!(window_entry(&notes, "", Some("")).is_some());
    assert_eq!(window_entry(&notes, "", None).unwrap().app, "Notepad");
}

#[test]
fn text_search() {
    for (hay, needle) in [
        ("", ""), ("", "a"), ("abc", ""), ("abc", "abc"), ("abc", "abcd"), ("abc", "bc"), ("abc", "ac"),
        ("aaab", "aab"), ("ababac", "abac"), ("äöü", "ö"),
    ] {
        assert_eq!(contains_text(hay, needle), hay.contains(needle), "{} {}", hay, needle);
    }
}

#[test]
fn the_foreground_window_is_focused() {
    let adapter = WindowsAdapter::new();
    let info = adapter
        .focused_window(21, Some("Doc".to_string()), 7, Some(r"C:\w\word.exe".to_string()))
        .unwrap()
        .unwrap();
    assert_eq!(info.id, "w-21");
    assert_eq!(info.app, "word");
    assert!(info.is_focused);
    let bare = adapter.focused_window(22, None, 7, None).unwrap().unwrap();
    assert_eq!((bare.title.as_str(), bare.app.as_str()), ("", ""));
    assert_eq!(adapter.focused_window(0, Some("t".to_string()), 7, None), Ok(None));
}

#[test]
fn focus_accepts_the_ids_that_are_handed_out() {
    let adapter = WindowsAdapter::new();
    for info in adapter.list_windows(&desktop(), &no_filter()).unwrap() {
        let handle = adapter.focus_window(&info).unwrap();
        assert_eq!(info.id, format!("w-{}", handle));
    }
}

fn info_with_id(id: &str) -> WindowInfo {
    WindowInfo {
        id: id.to_string(),
        title: String::new(),
        app: String::new(),
        pid: 0,
        bounds: None,
        is_focused: false,
    }
}

#[test]
fn bad_ids_are_refused() {
    let adapter = WindowsAdapter::new();
    let opts = TreeOptions { max_depth: 3, include_bounds: true };
    for id in ["", "11", "w-", "w-x", "w--1"] {
        assert_eq!(
            adapter.focus_window(&info_with_id(id)),
            Err(AdapterError::NotSupported("focus_window: bad id".to_string()))
        );
        match adapter.get_tree(&info_with_id(id), &opts) {
            Err(e) => assert_eq!(e.text(), "get_tree: bad id"),
            Ok(_) => panic!("accepted {}", id),
        }
    }
    match adapter.get_tree(&info_with_id("w-77"), &opts) {
        Ok((handle, _)) => assert_eq!(handle, 77),
        Err(_) => panic!("refused"),
    }
}

#[test]
fn tree_faults_name_their_stage() {
    let adapter = WindowsAdapter::new();
    assert_eq!(adapter.tree_error(TreeFault::Automation("gone".to_string())).text(), "COM: gone");
    assert_eq!(adapter.tree_error(TreeFault::Element("stale".to_string())).text(), "UIA: stale");
}

#[test]
fn fixed_replies() {
    let adapter = WindowsAdapter::new();
    assert_eq!(adapter.check_permissions(), PermissionStatus::Granted);
    assert_eq!(
        adapter.resolve_element(&"entry"),
        Err::<NativeHandle, AdapterError>(AdapterError::NotSupported(
            "resolve_element: not yet implemented".to_string()
        ))
    );
}

#[test]
fn titles_from_buffers() {
    let mut buf = [0u16; 512];
    buf[0] = 0x48;
    buf[1] = 0x69;
    buf[2] = 0x21;
    assert_eq!(hwnd_title(&buf, 0), None);
    assert_eq!(hwnd_title(&buf, 2), Some("Hi".to_string()));
    assert_eq!(hwnd_title(&[0xDC00], 1), Some("\u{FFFD}".to_string()));
    assert_eq!(image_text(&buf, 3), "Hi!");
    assert_eq!(image_text(&buf, 0), "");
}

#[test]
fn only_visible_titled_windows_are_gathered() {
    let mut collector = WinCollector::new();
    assert!(collector.enum_callback(1, true, Some("One".to_string()), 10));
    assert!(collector.enum_callback(2, false, Some("Two".to_string()), 10));
    assert!(collector.enum_callback(3, true, None, 10));
    assert!(collector.enum_callback(4, true, Some(String::new()), 10));
    assert!(collector.enum_callback(5, true, Some("Five".to_string()), 20));
    assert_eq!(
        collector.0,
        vec![
            ListedWindow { handle: 1, title: "One".to_string(), pid: 10 },
            ListedWindow { handle: 5, title: "Five".to_string(), pid: 20 },
        ]
    );
}
