//! The windows and applications of the desktop.
use crate::adapter::WindowsAdapter;
use crate::error::AdapterError;
use crate::geometry::Rect;
use crate::ident::{chars_of, parse_window_id, window_id};
use crate::image_path::file_stem;
use crate::node::text_view;
use crate::outside::to_lowercase;
use crate::utf16::decode_utf16_lossy;
use std::collections::HashSet;
use vstd::prelude::*;

verus! {

/// A visible window with a title.
#[derive(Debug, PartialEq, Eq)]
pub struct ListedWindow {
    pub handle: usize,
    pub title: String,
    pub pid: u32,
}

/// The windows gathered while the desktop is enumerated.
#[derive(Debug, PartialEq, Eq)]
pub struct WinCollector(pub Vec<ListedWindow>);

/// A window and the path of the image that its process runs, where that could be read.
#[derive(Debug, PartialEq, Eq)]
pub struct ProcessWindow {
    pub handle: usize,
    pub title: String,
    pub pid: u32,
    pub exe: Option<String>,
}

/// A running application.
#[derive(Debug, PartialEq, Eq)]
pub struct AppInfo {
    pub name: String,
    pub pid: i32,
    pub bundle_id: Option<String>,
}

/// A window, as callers see it.
#[derive(Debug, PartialEq, Eq)]
pub struct WindowInfo {
    pub id: String,
    pub title: String,
    pub app: String,
    pub pid: i32,
    pub bounds: Option<Rect>,
    pub is_focused: bool,
}

/// Which windows are wanted: all, or those of applications whose name holds `app`.
#[derive(Debug, PartialEq, Eq)]
pub struct WindowFilter {
    pub app: Option<String>,
}

pub struct ListedView {
    pub handle: usize,
    pub title: Seq<char>,
    pub pid: u32,
}

pub struct ProcessView {
    pub handle: usize,
    pub title: Seq<char>,
    pub pid: u32,
    pub exe: Option<Seq<char>>,
}

pub struct AppView {
    pub name: Seq<char>,
    pub pid: i32,
    pub bundle_id: Option<Seq<char>>,
}

pub struct WindowView {
    pub id: Seq<char>,
    pub title: Seq<char>,
    pub app: Seq<char>,
    pub pid: i32,
    pub bounds: Option<Rect>,
    pub is_focused: bool,
}

impl View for ListedWindow {
    type V = ListedView;

    open spec fn view(&self) -> ListedView {
        ListedView { handle: self.handle, title: self.title@, pid: self.pid }
    }
}

impl View for WinCollector {
    type V = Seq<ListedView>;

    open spec fn view(&self) -> Seq<ListedView> {
        self.0@.map_values(|w: ListedWindow| w@)
    }
}

impl View for ProcessWindow {
    type V = ProcessView;

    open spec fn view(&self) -> ProcessView {
        ProcessView {
            handle: self.handle,
            title: self.title@,
            pid: self.pid,
            exe: text_view(self.exe),
        }
    }
}

impl View for AppInfo {
    type V = AppView;

    open spec fn view(&self) -> AppView {
        AppView { name: self.name@, pid: self.pid, bundle_id: text_view(self.bundle_id) }
    }
}

impl View for WindowInfo {
    type V = WindowView;

    open spec fn view(&self) -> WindowView {
        WindowView {
            id: self.id@,
            title: self.title@,
            app: self.app@,
            pid: self.pid,
            bounds: self.bounds,
            is_focused: self.is_focused,
        }
    }
}

pub open spec fn process_views(windows: Seq<ProcessWindow>) -> Seq<ProcessView> {
    windows.map_values(|w: ProcessWindow| w@)
}

pub open spec fn app_views(apps: Seq<AppInfo>) -> Seq<AppView> {
    apps.map_values(|a: AppInfo| a@)
}

pub open spec fn window_views(windows: Seq<WindowInfo>) -> Seq<WindowView> {
    windows.map_values(|w: WindowInfo| w@)
}

/// The `i32` with the bits of `pid`.
pub open spec fn as_signed(pid: u32) -> i32 {
    if pid < 0x8000_0000 {
        pid as i32
    } else {
        (pid - 0x1_0000_0000) as i32
    }
}

/// The text, empty where it could not be read.
pub open spec fn text_or_empty(text: Option<Seq<char>>) -> Seq<char> {
    match text {
        Some(t) => t,
        None => Seq::empty(),
    }
}

/// The name of an application: the stem of its image, or else the title of its window.
pub open spec fn app_name(exe: Option<Seq<char>>, title: Seq<char>) -> Seq<char> {
    match crate::image_path::stem_of(text_or_empty(exe)) {
        Some(stem) => stem,
        None => title,
    }
}

/// Some window among `windows` belongs to the process.
pub open spec fn has_pid(windows: Seq<ProcessView>, pid: u32) -> bool {
    exists|i: int| 0 <= i < windows.len() && (#[trigger] windows[i]).pid == pid
}

/// The application that a window belongs to.
pub open spec fn app_of(window: ProcessView) -> AppView {
    AppView {
        name: app_name(window.exe, window.title),
        pid: as_signed(window.pid),
        bundle_id: Some(text_or_empty(window.exe)),
    }
}

/// One application for each process, from its first window, in the order of those windows.
pub open spec fn apps_of(windows: Seq<ProcessView>) -> Seq<AppView>
    decreases windows.len(),
{
    if windows.len() == 0 {
        Seq::empty()
    } else {
        let before = windows.drop_last();
        if has_pid(before, windows.last().pid) {
            apps_of(before)
        } else {
            apps_of(before).push(app_of(windows.last()))
        }
    }
}

/// `needle` occurs in `hay` at index `k`.
pub open spec fn occurs_at(hay: Seq<char>, needle: Seq<char>, k: int) -> bool {
    0 <= k <= hay.len() - needle.len() && hay.subrange(k, k + needle.len()) == needle
}

/// `needle` occurs somewhere in `hay`.
pub open spec fn has_text(hay: Seq<char>, needle: Seq<char>) -> bool {
    exists|k: int| occurs_at(hay, needle, k)
}

/// The text that a filter is held against: the stem of the image, or nothing.
pub open spec fn filter_text(exe: Option<Seq<char>>) -> Seq<char> {
    match crate::image_path::stem_of(text_or_empty(exe)) {
        Some(stem) => stem,
        None => Seq::empty(),
    }
}

/// The window passes the filter: without regard to case, the stem of its image holds the text
/// that is wanted.
pub open spec fn passes(window: ProcessView, wanted: Option<Seq<char>>) -> bool {
    match wanted {
        Some(app) => has_text(
            crate::outside::lowercase(filter_text(window.exe)),
            crate::outside::lowercase(app),
        ),
        None => true,
    }
}

/// The window as callers see it.
pub open spec fn window_of(window: ProcessView, is_focused: bool) -> WindowView {
    WindowView {
        id: crate::ident::id_of(window.handle),
        title: window.title,
        app: app_name(window.exe, window.title),
        pid: as_signed(window.pid),
        bounds: None,
        is_focused,
    }
}

/// The windows that pass the filter, in order.
pub open spec fn windows_of(windows: Seq<ProcessView>, wanted: Option<Seq<char>>) -> Seq<WindowView>
    decreases windows.len(),
{
    if windows.len() == 0 {
        Seq::empty()
    } else {
        let before = windows_of(windows.drop_last(), wanted);
        if passes(windows.last(), wanted) {
            before.push(window_of(windows.last(), false))
        } else {
            before
        }
    }
}

/// Every window that was gathered has a title.
pub open spec fn all_titled(windows: Seq<ListedView>) -> bool {
    forall|i: int| 0 <= i < windows.len() ==> (#[trigger] windows[i]).title.len() > 0
}

/// Reads `pid` as the `i32` with the same bits.
pub fn to_signed(pid: u32) -> (r: i32)
    ensures
        r == as_signed(pid),
{
    assert(pid >= 0x8000_0000 ==> pid as i32 == pid - 0x1_0000_0000) by (bit_vector);
    pid as i32
}

/// Whether `needle` occurs in `hay`.
pub fn contains_text(hay: &str, needle: &str) -> (r: bool)
    ensures
        r == has_text(hay@, needle@),
{
    let h: Vec<char> = chars_of(hay);
    let n: Vec<char> = chars_of(needle);
    let len: usize = h.len();
    if n.len() > len {
        return false;
    }
    let last: usize = len - n.len();
    let mut k: usize = 0;
    loop
        invariant
            h@ == hay@,
            n@ == needle@,
            len == h@.len(),
            n@.len() <= len,
            last == len - n@.len(),
            k <= last,
            forall|j: int| 0 <= j < k ==> !occurs_at(hay@, needle@, j),
        decreases last - k,
    {
        let mut i: usize = 0;
        while i < n.len() && h[k + i] == n[i]
            invariant
                h@ == hay@,
                n@ == needle@,
                len == h@.len(),
                k + n@.len() <= len,
                i <= n@.len(),
                forall|j: int| 0 <= j < i ==> h@[k + j] == n@[j],
            decreases n@.len() - i,
        {
            i = i + 1;
        }
        if i == n.len() {
            assert(hay@.subrange(k as int, k + n@.len()) == needle@);
            assert(occurs_at(hay@, needle@, k as int));
            return true;
        }
        assert(!occurs_at(hay@, needle@, k as int)) by {
            if occurs_at(hay@, needle@, k as int) {
                assert(hay@.subrange(k as int, k + n@.len())[i as int] == h@[k + i]);
            }
        }
        if k == last {
            return false;
        }
        k = k + 1;
    }
}

/// The title that a window text buffer holds in its first `len` units; `None` where the
/// window has no title.
pub fn hwnd_title(buf: &[u16], len: i32) -> (title: Option<String>)
    requires
        0 <= len <= buf@.len(),
    ensures
        title is None <==> len == 0,
        title matches Some(t) ==> t@ == crate::utf16::decode_lossy(buf@.take(len as int)),
{
    if len == 0 {
        return None;
    }
    let (used, _) = buf.split_at(len as usize);
    assert(used@ == buf@.take(len as int));
    Some(decode_utf16_lossy(used))
}

/// The path that an image name buffer holds in its first `size` units.
pub fn image_text(buf: &[u16], size: u32) -> (path: String)
    requires
        size <= buf@.len(),
    ensures
        path@ == crate::utf16::decode_lossy(buf@.take(size as int)),
{
    let (used, _) = buf.split_at(size as usize);
    assert(used@ == buf@.take(size as int));
    decode_utf16_lossy(used)
}

impl WinCollector {
    /// A collector without windows.
    pub fn new() -> (collector: WinCollector)
        ensures
            collector@ == Seq::<ListedView>::empty(),
    {
        let collector = WinCollector(Vec::new());
        assert(collector@ == Seq::<ListedView>::empty());
        collector
    }

    /// Takes note of one enumerated window: one that is visible and has a title is gathered.
    /// The enumeration always goes on.
    pub fn enum_callback(
        &mut self,
        handle: usize,
        visible: bool,
        title: Option<String>,
        pid: u32,
    ) -> (go_on: bool)
        ensures
            go_on,
            all_titled(old(self)@) ==> all_titled(final(self)@),
            final(self)@ == match text_view(title) {
                Some(text) => if visible && text.len() > 0 {
                    old(self)@.push(ListedView { handle, title: text, pid })
                } else {
                    old(self)@
                },
                None => old(self)@,
            },
    {
        if visible {
            if let Some(title) = title {
                if !title.as_str().is_empty() {
                    let window = ListedWindow { handle, title, pid };
                    self.0.push(window);
                    assert(self@ == old(self)@.push(window@));
                }
            }
        }
        true
    }
}

/// The path of the image, empty where it could not be read.
fn image_or_empty(exe: &Option<String>) -> (path: String)
    ensures
        path@ == text_or_empty(text_view(*exe)),
{
    match exe {
        Some(path) => path.clone(),
        None => String::new(),
    }
}

/// The name of an application: the stem of its image, or else the title of its window.
fn name_or_title(exe: &str, title: &String) -> (name: String)
    ensures
        name@ == match crate::image_path::stem_of(exe@) {
            Some(stem) => stem,
            None => title@,
        },
{
    match file_stem(exe) {
        Some(stem) => stem,
        None => title.clone(),
    }
}

/// Lists the application of each process that has a window.
fn gather_apps(windows: &Vec<ProcessWindow>) -> (apps: Vec<AppInfo>)
    ensures
        app_views(apps@) == apps_of(process_views(windows@)),
{
    broadcast use vstd::std_specs::hash::group_hash_axioms;

    let ghost views = process_views(windows@);
    let mut seen: HashSet<u32> = HashSet::new();
    let mut apps: Vec<AppInfo> = Vec::new();
    let mut i: usize = 0;
    assert(app_views(apps@) == Seq::<AppView>::empty());
    while i < windows.len()
        invariant
            i <= windows@.len(),
            views == process_views(windows@),
            app_views(apps@) == apps_of(views.take(i as int)),
            forall|pid: u32| #[trigger] seen@.contains(pid) <==> has_pid(views.take(i as int), pid),
        decreases windows@.len() - i,
    {
        let window = &windows[i];
        let ghost before = views.take(i as int);
        let ghost after = views.take(i + 1);
        assert(after.drop_last() == before);
        assert(after.last() == window@);
        let ghost listed = app_views(apps@);
        if seen.insert(window.pid) {
            let exe = image_or_empty(&window.exe);
            let name = name_or_title(exe.as_str(), &window.title);
            let app = AppInfo { name, pid: to_signed(window.pid), bundle_id: Some(exe) };
            assert(app@ == app_of(window@));
            apps.push(app);
            assert(app_views(apps@) == listed.push(app@));
        }
        assert forall|pid: u32| #[trigger] seen@.contains(pid) <==> has_pid(after, pid) by {
            if has_pid(before, pid) {
                let j = choose|j: int| 0 <= j < before.len() && (#[trigger] before[j]).pid == pid;
                assert(after[j].pid == pid);
            }
            if has_pid(after, pid) && pid != window.pid {
                let j = choose|j: int| 0 <= j < after.len() && (#[trigger] after[j]).pid == pid;
                assert(before[j].pid == pid);
            }
            assert(after[after.len() - 1].pid == window.pid);
        }
        i = i + 1;
    }
    assert(views.take(i as int) == views);
    apps
}

/// The window as callers see it, where it passes the filter: where `wanted` is given, it must
/// occur in `stem`. Both texts are in lower case.
pub fn window_entry(window: &ProcessWindow, stem: &str, wanted: Option<&str>) -> (entry: Option<
    WindowInfo,
>)
    ensures
        match wanted {
            Some(text) => entry is Some <==> has_text(stem@, text@),
            None => entry is Some,
        },
        entry matches Some(info) ==> info@ == window_of(window@, false),
{
    if let Some(text) = wanted {
        if !contains_text(stem, text) {
            return None;
        }
    }
    Some(describe_window(window, false))
}

/// The window as callers see it.
fn describe_window(window: &ProcessWindow, is_focused: bool) -> (info: WindowInfo)
    ensures
        info@ == window_of(window@, is_focused),
{
    let exe = image_or_empty(&window.exe);
    WindowInfo {
        id: window_id(window.handle),
        title: window.title.clone(),
        app: name_or_title(exe.as_str(), &window.title),
        pid: to_signed(window.pid),
        bounds: None,
        is_focused,
    }
}

/// Lists the windows that pass the filter.
fn gather_windows(windows: &Vec<ProcessWindow>, filter: &WindowFilter) -> (listed: Vec<
    WindowInfo,
>)
    ensures
        window_views(listed@) == windows_of(process_views(windows@), text_view(filter.app)),
        text_view(filter.app) == Some(Seq::<char>::empty()) ==> window_views(listed@)
            == windows_of(process_views(windows@), None),
{
    let ghost views = process_views(windows@);
    let ghost app = text_view(filter.app);
    let wanted: Option<String> = match &filter.app {
        Some(text) => Some(to_lowercase(text.as_str())),
        None => None,
    };
    let mut listed: Vec<WindowInfo> = Vec::new();
    let mut i: usize = 0;
    assert(window_views(listed@) == Seq::<WindowView>::empty());
    while i < windows.len()
        invariant
            i <= windows@.len(),
            views == process_views(windows@),
            app == text_view(filter.app),
            match app {
                Some(text) => wanted matches Some(w) && w@ == crate::outside::lowercase(text) && (
                text.len() == 0 ==> w@.len() == 0),
                None => wanted is None,
            },
            window_views(listed@) == windows_of(views.take(i as int), app),
        decreases windows@.len() - i,
    {
        let window = &windows[i];
        let ghost so_far = window_views(listed@);
        assert(views.take(i + 1).drop_last() == views.take(i as int));
        assert(views.take(i + 1).last() == window@);
        let entry: Option<WindowInfo> = match &wanted {
            Some(text) => {
                let exe = image_or_empty(&window.exe);
                let stem: String = match file_stem(exe.as_str()) {
                    Some(stem) => stem,
                    None => String::new(),
                };
                assert(stem@ == filter_text(window@.exe));
                let lower = to_lowercase(stem.as_str());
                window_entry(window, lower.as_str(), Some(text.as_str()))
            },
            None => window_entry(window, "", None),
        };
        if let Some(info) = entry {
            listed.push(info);
            assert(window_views(listed@) == so_far.push(info@));
        }
        i = i + 1;
    }
    assert(views.take(i as int) == views);
    proof {
        if app == Some(Seq::<char>::empty()) {
            assert(wanted->0@ == Seq::<char>::empty());
            lemma_all_pass(views, app);
        }
    }
    listed
}

impl WindowsAdapter {
    /// Lists the applications that have a window: one for each process.
    pub fn list_apps(&self, windows: &Vec<ProcessWindow>) -> (r: Result<Vec<AppInfo>, AdapterError>)
        ensures
            r matches Ok(apps) && app_views(apps@) == apps_of(process_views(windows@)),
    {
        Ok(gather_apps(windows))
    }

    /// Lists the windows that pass the filter.
    pub fn list_windows(&self, windows: &Vec<ProcessWindow>, filter: &WindowFilter) -> (r: Result<
        Vec<WindowInfo>,
        AdapterError,
    >)
        ensures
            r matches Ok(listed) && window_views(listed@) == windows_of(
                process_views(windows@),
                text_view(filter.app),
            ),
            text_view(filter.app) == Some(Seq::<char>::empty()) ==> (r matches Ok(listed)
                && window_views(listed@) == windows_of(process_views(windows@), None)),
    {
        Ok(gather_windows(windows, filter))
    }

    /// The window in the foreground, from its handle, title, process and image; `None` where
    /// there is none, which a handle of zero says.
    pub fn focused_window(
        &self,
        handle: usize,
        title: Option<String>,
        pid: u32,
        exe: Option<String>,
    ) -> (r: Result<Option<WindowInfo>, AdapterError>)
        ensures
            handle == 0 ==> r == Ok::<Option<WindowInfo>, AdapterError>(None),
            handle != 0 ==> (r matches Ok(Some(info)) && info@ == window_of(
                ProcessView {
                    handle,
                    title: text_or_empty(text_view(title)),
                    pid,
                    exe: text_view(exe),
                },
                true,
            )),
    {
        if handle == 0 {
            return Ok(None);
        }
        let title: String = match title {
            Some(title) => title,
            None => String::new(),
        };
        let window = ProcessWindow { handle, title, pid, exe };
        Ok(Some(describe_window(&window, true)))
    }

    /// The handle of the window to bring to the foreground.
    pub fn focus_window(&self, win: &WindowInfo) -> (r: Result<usize, AdapterError>)
        ensures
            match crate::ident::handle_of(win.id@) {
                Some(handle) => r == Ok::<usize, AdapterError>(handle),
                None => r matches Err(e) && e@ == "focus_window: bad id"@,
            },
    {
        match parse_window_id(win.id.as_str()) {
            Some(handle) => Ok(handle),
            None => Err(AdapterError::not_supported("focus_window: bad id")),
        }
    }
}

/// The empty text occurs everywhere.
proof fn lemma_empty_text(hay: Seq<char>)
    ensures
        has_text(hay, Seq::empty()),
{
    assert(hay.subrange(0, 0) == Seq::<char>::empty());
    assert(occurs_at(hay, Seq::empty(), 0));
}

/// A filter that every window passes keeps them all.
proof fn lemma_all_pass(windows: Seq<ProcessView>, wanted: Option<Seq<char>>)
    requires
        wanted matches Some(app) && crate::outside::lowercase(app) == Seq::<char>::empty(),
    ensures
        windows_of(windows, wanted) == windows_of(windows, None),
    decreases windows.len(),
{
    if windows.len() > 0 {
        lemma_all_pass(windows.drop_last(), wanted);
        lemma_empty_text(crate::outside::lowercase(filter_text(windows.last().exe)));
    }
}

/// Process numbers are told apart as signed numbers too.
proof fn lemma_signed_distinct(a: u32, b: u32)
    requires
        a != b,
    ensures
        as_signed(a) != as_signed(b),
{
}

/// Each application is taken from the first window of its process.
proof fn lemma_apps_from_first(windows: Seq<ProcessView>)
    ensures
        forall|k: int|
            0 <= k < apps_of(windows).len() ==> from_first_window(
                windows,
                #[trigger] apps_of(windows)[k],
            ),
    decreases windows.len(),
{
    if windows.len() > 0 {
        let before = windows.drop_last();
        let old_apps = apps_of(before);
        let apps = apps_of(windows);
        lemma_apps_from_first(before);
        assert forall|k: int| 0 <= k < apps.len() implies from_first_window(
            windows,
            #[trigger] apps[k],
        ) by {
            if k < old_apps.len() {
                assert(apps[k] == old_apps[k]);
                assert(from_first_window(before, old_apps[k]));
                let i = choose|i: int| #[trigger] is_first_window(before, old_apps[k], i);
                assert(windows.take(i) == before.take(i));
                assert(is_first_window(windows, apps[k], i));
            } else {
                assert(windows.take(windows.len() - 1) == before);
                assert(is_first_window(windows, apps[k], windows.len() - 1));
            }
        }
    }
}

/// Every window has the application of its process in the list.
proof fn lemma_apps_listed(windows: Seq<ProcessView>)
    ensures
        forall|i: int|
            0 <= i < windows.len() ==> app_listed(apps_of(windows), (#[trigger] windows[i]).pid),
    decreases windows.len(),
{
    if windows.len() > 0 {
        let before = windows.drop_last();
        let window = windows.last();
        let old_apps = apps_of(before);
        let apps = apps_of(windows);
        lemma_apps_listed(before);
        assert forall|i: int| 0 <= i < windows.len() implies app_listed(
            apps,
            (#[trigger] windows[i]).pid,
        ) by {
            if i < before.len() {
                assert(before[i] == windows[i]);
                assert(app_listed(old_apps, before[i].pid));
                let k = choose|k: int|
                    0 <= k < old_apps.len() && (#[trigger] old_apps[k]).pid == as_signed(
                        windows[i].pid,
                    );
                assert(apps[k].pid == as_signed(windows[i].pid));
            } else if has_pid(before, window.pid) {
                let j = choose|j: int|
                    0 <= j < before.len() && (#[trigger] before[j]).pid == window.pid;
                assert(app_listed(old_apps, before[j].pid));
            } else {
                assert(apps[apps.len() - 1].pid == as_signed(window.pid));
            }
        }
    }
}

/// No two applications share a process.
proof fn lemma_apps_distinct(windows: Seq<ProcessView>)
    ensures
        forall|i: int, j: int|
            0 <= i < j < apps_of(windows).len() ==> (#[trigger] apps_of(windows)[i]).pid != (
            #[trigger] apps_of(windows)[j]).pid,
    decreases windows.len(),
{
    if windows.len() > 0 {
        let before = windows.drop_last();
        let window = windows.last();
        let old_apps = apps_of(before);
        let apps = apps_of(windows);
        lemma_apps_distinct(before);
        lemma_apps_from_first(before);
        if has_pid(before, window.pid) {
            assert(apps == old_apps);
        } else {
            assert(apps == old_apps.push(app_of(window)));
            assert forall|i: int, j: int| 0 <= i < j < apps.len() implies (#[trigger] apps[i]).pid
                != (#[trigger] apps[j]).pid by {
                assert(apps[i] == old_apps[i]);
                if j < old_apps.len() {
                    assert(apps[j] == old_apps[j]);
                } else {
                    assert(from_first_window(before, old_apps[i]));
                    let f = choose|f: int| #[trigger] is_first_window(before, old_apps[i], f);
                    assert(before[f].pid != window.pid);
                    lemma_signed_distinct(before[f].pid, window.pid);
                }
            }
        }
    }
}

/// Each process is listed once: no two applications share a process, every window has the
/// application of its process in the list, and each application is taken from the first
/// window of its process.
pub proof fn law_one_app_per_process(windows: Seq<ProcessView>)
    ensures
        forall|i: int, j: int|
            0 <= i < j < apps_of(windows).len() ==> (#[trigger] apps_of(windows)[i]).pid != (
            #[trigger] apps_of(windows)[j]).pid,
        forall|i: int|
            0 <= i < windows.len() ==> app_listed(apps_of(windows), (#[trigger] windows[i]).pid),
        forall|k: int|
            0 <= k < apps_of(windows).len() ==> from_first_window(
                windows,
                #[trigger] apps_of(windows)[k],
            ),
{
    lemma_apps_distinct(windows);
    lemma_apps_listed(windows);
    lemma_apps_from_first(windows);
}

/// Windows that come later do not change what earlier ones have listed.
pub proof fn law_apps_in_window_order(windows: Seq<ProcessView>, k: int)
    requires
        0 <= k <= windows.len(),
    ensures
        apps_of(windows.take(k)).len() <= apps_of(windows).len(),
        apps_of(windows.take(k)) == apps_of(windows).take(apps_of(windows.take(k)).len() as int),
    decreases windows.len(),
{
    if k == windows.len() {
        assert(windows.take(k) == windows);
        assert(apps_of(windows).take(apps_of(windows).len() as int) == apps_of(windows));
    } else {
        let before = windows.drop_last();
        assert(before.take(k) == windows.take(k));
        law_apps_in_window_order(before, k);
        let n = apps_of(windows.take(k)).len() as int;
        assert(apps_of(windows).take(n) == apps_of(before).take(n));
    }
}

/// An application with this process is in the list.
pub open spec fn app_listed(apps: Seq<AppView>, pid: u32) -> bool {
    exists|k: int| 0 <= k < apps.len() && (#[trigger] apps[k]).pid == as_signed(pid)
}

/// The application is that of the window at index `i`, which is the first of its process.
pub open spec fn is_first_window(windows: Seq<ProcessView>, app: AppView, i: int) -> bool {
    &&& 0 <= i < windows.len()
    &&& app == app_of(windows[i])
    &&& !has_pid(windows.take(i), windows[i].pid)
}

pub open spec fn from_first_window(windows: Seq<ProcessView>, app: AppView) -> bool {
    exists|i: int| #[trigger] is_first_window(windows, app, i)
}

/// The windows that are listed are exactly those that pass the filter, in order.
pub proof fn law_listed_windows(windows: Seq<ProcessView>, wanted: Option<Seq<char>>)
    ensures
        windows_of(windows, wanted) == windows.filter(
            |w: ProcessView| passes(w, wanted),
        ).map_values(|w: ProcessView| window_of(w, false)),
    decreases windows.len(),
{
    reveal(Seq::filter);
    let pass = |w: ProcessView| passes(w, wanted);
    let entry = |w: ProcessView| window_of(w, false);
    if windows.len() > 0 {
        law_listed_windows(windows.drop_last(), wanted);
        let kept = windows.drop_last().filter(pass);
        if pass(windows.last()) {
            assert(windows.filter(pass) == kept.push(windows.last()));
            assert(kept.push(windows.last()).map_values(entry) == kept.map_values(entry).push(
                entry(windows.last()),
            ));
        }
    } else {
        assert(windows.filter(pass).map_values(entry) == Seq::<WindowView>::empty());
    }
}

/// Without a filter every window is listed.
pub proof fn law_unfiltered_windows(windows: Seq<ProcessView>)
    ensures
        windows_of(windows, None) == windows.map_values(|w: ProcessView| window_of(w, false)),
    decreases windows.len(),
{
    let entry = |w: ProcessView| window_of(w, false);
    if windows.len() > 0 {
        law_unfiltered_windows(windows.drop_last());
        assert(windows.map_values(entry) == windows.drop_last().map_values(entry).push(
            entry(windows.last()),
        ));
    } else {
        assert(windows.map_values(entry) == Seq::<WindowView>::empty());
    }
}

/// Texts that differ in case only filter alike.
pub proof fn law_filter_ignores_case(window: ProcessView, a: Seq<char>, b: Seq<char>)
    requires
        crate::outside::lowercase(a) == crate::outside::lowercase(b),
    ensures
        passes(window, Some(a)) == passes(window, Some(b)),
{
}

/// The identifier of every window that is handed out leads back to its handle.
pub proof fn law_window_id_leads_back(window: ProcessView, is_focused: bool)
    ensures
        crate::ident::handle_of(window_of(window, is_focused).id) == Some(window.handle),
{
    crate::ident::law_id_round_trip(window.handle);
}

/// An application whose image cannot be read goes by the title of its window.
pub proof fn law_unreadable_image(title: Seq<char>)
    ensures
        app_name(None, title) == title,
{
    crate::image_path::law_no_path_no_stem();
}

/// Whether a window passes a filter depends on its image alone: not on its title, its process
/// or its handle.
pub proof fn law_filter_looks_at_image_only(a: ProcessView, b: ProcessView, wanted: Option<Seq<char>>)
    requires
        a.exe == b.exe,
    ensures
        passes(a, wanted) == passes(b, wanted),
{
}

/// A text occurs in another exactly where that is made of something, the text, and something.
pub proof fn law_has_text(hay: Seq<char>, needle: Seq<char>)
    ensures
        has_text(hay, needle) <==> exists|before: Seq<char>, after: Seq<char>|
            hay == #[trigger] (before + needle + after),
{
    if has_text(hay, needle) {
        let k = choose|k: int| occurs_at(hay, needle, k);
        assert(hay == hay.take(k) + needle + hay.skip(k + needle.len())) by {
            assert(hay.subrange(k, k + needle.len()) == needle);
            assert forall|i: int| 0 <= i < hay.len() implies hay[i] == (hay.take(k) + needle
                + hay.skip(k + needle.len()))[i] by {
                if k <= i < k + needle.len() {
                    assert(needle[i - k] == hay.subrange(k, k + needle.len())[i - k]);
                }
            }
        }
    }
    if exists|before: Seq<char>, after: Seq<char>| hay == #[trigger] (before + needle + after) {
        let (before, after) = choose|before: Seq<char>, after: Seq<char>|
            hay == #[trigger] (before + needle + after);
        let k = before.len() as int;
        assert(hay.subrange(k, k + needle.len()) == needle);
        assert(occurs_at(hay, needle, k));
    }
}

/// Without a filter every window passes. A filter is passed exactly where its text, in lower
/// case, occurs in the stem of the image, in lower case; an image that cannot be read or has no
/// stem counts as an empty text.
pub proof fn law_filter_is_text_in_stem(window: ProcessView, app: Seq<char>)
    ensures
        passes(window, None),
        ({
            let wanted = crate::outside::lowercase(app);
            match window.exe {
                Some(path) => match crate::image_path::stem_of(path) {
                    Some(stem) => passes(window, Some(app)) <==> exists|
                        before: Seq<char>,
                        after: Seq<char>,
                    |
                        crate::outside::lowercase(stem) == #[trigger] (before + wanted + after),
                    None => passes(window, Some(app)) <==> exists|
                        before: Seq<char>,
                        after: Seq<char>,
                    |
                        crate::outside::lowercase(Seq::empty()) == #[trigger] (before + wanted
                            + after),
                },
                None => passes(window, Some(app)) <==> exists|before: Seq<char>, after: Seq<char>|
                    crate::outside::lowercase(Seq::empty()) == #[trigger] (before + wanted + after),
            }
        }),
{
    crate::image_path::law_no_path_no_stem();
    let wanted = crate::outside::lowercase(app);
    let empty = Seq::<char>::empty();
    law_has_text(crate::outside::lowercase(empty), wanted);
    if let Some(path) = window.exe {
        if let Some(stem) = crate::image_path::stem_of(path) {
            law_has_text(crate::outside::lowercase(stem), wanted);
        }
    }
}

/// Every window that is listed under a filter is one of the windows of the desktop, told by its
/// own title, and its image has a stem that holds the text of the filter without regard to case.
pub proof fn law_listed_windows_match(windows: Seq<ProcessView>, app: Seq<char>, k: int)
    requires
        0 <= k < windows_of(windows, Some(app)).len(),
    ensures
        exists|i: int|
            0 <= i < windows.len() && windows_of(windows, Some(app))[k] == window_of(
                #[trigger] windows[i],
                false,
            ) && windows_of(windows, Some(app))[k].title == windows[i].title && has_text(
                crate::outside::lowercase(filter_text(windows[i].exe)),
                crate::outside::lowercase(app),
            ),
    decreases windows.len(),
{
    let listed = windows_of(windows, Some(app));
    let before = windows.drop_last();
    if k < windows_of(before, Some(app)).len() {
        law_listed_windows_match(before, app, k);
        let i = choose|i: int|
            0 <= i < before.len() && windows_of(before, Some(app))[k] == window_of(
                #[trigger] before[i],
                false,
            ) && has_text(
                crate::outside::lowercase(filter_text(before[i].exe)),
                crate::outside::lowercase(app),
            );
        assert(windows[i] == before[i]);
        assert(listed[k] == window_of(windows[i], false));
    } else {
        let i = windows.len() - 1;
        assert(listed[k] == window_of(windows[i], false));
    }
}

/// A window is told to callers by its own title, its handle and its process, never with bounds,
/// and whether it has the focus is told as it was given.
pub proof fn law_window_fields(window: ProcessView, is_focused: bool)
    ensures
        window_of(window, is_focused).title == window.title,
        window_of(window, is_focused).id == seq!['w', '-'] + crate::ident::decimal(
            window.handle as nat,
        ),
        window_of(window, is_focused).bounds is None,
        window_of(window, is_focused).is_focused == is_focused,
        window_of(window, is_focused).pid == window.pid || window_of(window, is_focused).pid
            + 0x1_0000_0000 == window.pid,
{
}

/// Whether a window has the focus changes nothing else that is told of it.
pub proof fn law_focus_changes_nothing_else(window: ProcessView)
    ensures
        window_of(window, true) == (WindowView { is_focused: true, ..window_of(window, false) }),
        !window_of(window, false).is_focused,
{
}

/// The application of a window is called by the stem of its image where that has one, and by
/// the title of the window otherwise, in the list of windows and in that of applications alike.
pub proof fn law_application_name(window: ProcessView, is_focused: bool)
    ensures
        window_of(window, is_focused).app == app_of(window).name,
        match window.exe {
            Some(path) => match crate::image_path::stem_of(path) {
                Some(stem) => app_of(window).name == stem,
                None => app_of(window).name == window.title,
            },
            None => app_of(window).name == window.title,
        },
{
    crate::image_path::law_no_path_no_stem();
}

/// An application carries the path of its image, empty where that could not be read, and the
/// number of its process.
pub proof fn law_application_fields(window: ProcessView)
    ensures
        window.exe matches Some(path) ==> app_of(window).bundle_id == Some(path),
        window.exe is None ==> (app_of(window).bundle_id matches Some(path) && path.len() == 0),
        app_of(window).pid == as_signed(window.pid),
{
}

/// Process numbers keep their bits: the upper half of them is told as negative numbers.
pub proof fn law_signed_keeps_bits(pid: u32)
    ensures
        pid <= 0x7FFF_FFFF ==> as_signed(pid) == pid,
        pid > 0x7FFF_FFFF ==> pid - as_signed(pid) == 0x1_0000_0000,
{
}

/// Each application in the list is that of a window before which no other window belongs to the
/// same process.
pub proof fn law_apps_from_first_windows(windows: Seq<ProcessView>, k: int)
    requires
        0 <= k < apps_of(windows).len(),
    ensures
        exists|i: int|
            0 <= i < windows.len() && apps_of(windows)[k] == app_of(#[trigger] windows[i]) && (
            forall|j: int| 0 <= j < i ==> (#[trigger] windows[j]).pid != windows[i].pid),
{
    law_one_app_per_process(windows);
    assert(from_first_window(windows, apps_of(windows)[k]));
    let i = choose|i: int| #[trigger] is_first_window(windows, apps_of(windows)[k], i);
    assert forall|j: int| 0 <= j < i implies (#[trigger] windows[j]).pid != windows[i].pid by {
        assert(windows.take(i)[j] == windows[j]);
    }
}

/// A window that callers see, as a mathematical value, holds what the window itself holds.
pub proof fn law_window_info_view(info: WindowInfo)
    ensures
        info@.id == info.id@,
        info@.title == info.title@,
        info@.app == info.app@,
        info@.pid == info.pid,
        info@.bounds == info.bounds,
        info@.is_focused == info.is_focused,
{
}

/// An application as a mathematical value holds what the application itself holds.
pub proof fn law_app_info_view(app: AppInfo)
    ensures
        app@.name == app.name@,
        app@.pid == app.pid,
        app@.bundle_id is Some <==> app.bundle_id is Some,
        app.bundle_id matches Some(path) ==> app@.bundle_id == Some(path@),
{
}

/// A window of a process as a mathematical value holds what the window itself holds.
pub proof fn law_process_window_view(window: ProcessWindow)
    ensures
        window@.handle == window.handle,
        window@.title == window.title@,
        window@.pid == window.pid,
        window@.exe is Some <==> window.exe is Some,
        window.exe matches Some(path) ==> window@.exe == Some(path@),
{
}

/// A list as a mathematical value has an entry for each entry of the list, in order.
pub proof fn law_list_views(
    windows: Seq<ProcessWindow>,
    apps: Seq<AppInfo>,
    infos: Seq<WindowInfo>,
    collector: WinCollector,
)
    ensures
        process_views(windows).len() == windows.len(),
        forall|i: int|
            0 <= i < windows.len() ==> #[trigger] process_views(windows)[i] == windows[i]@,
        app_views(apps).len() == apps.len(),
        forall|i: int| 0 <= i < apps.len() ==> #[trigger] app_views(apps)[i] == apps[i]@,
        window_views(infos).len() == infos.len(),
        forall|i: int| 0 <= i < infos.len() ==> #[trigger] window_views(infos)[i] == infos[i]@,
        collector@.len() == collector.0@.len(),
        forall|i: int|
            0 <= i < collector.0@.len() ==> (#[trigger] collector@[i]).handle
                == collector.0@[i].handle && collector@[i].title == collector.0@[i].title@
                && collector@[i].pid == collector.0@[i].pid,
{
}

} // verus!
