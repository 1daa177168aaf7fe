use agent_desktop_windows::action::{Action, ActionReply, ActionRequest, ActionRun};
use agent_desktop_windows::adapter::{NativeHandle, WindowsAdapter};
use agent_desktop_windows::clipboard::{ClipboardReply, ClipboardRequest, ClipboardRun};
use agent_desktop_windows::error::AdapterError;
use agent_desktop_windows::geometry::{DoubledPoint, WinRect};
use agent_desktop_windows::mouse::{
    send_mouse, DragParams, MouseButton, MouseEvent, MouseEventKind, MouseInput,
};

fn flags(kind: MouseEventKind, button: MouseButton) -> Vec<u32> {
    let event = MouseEvent { kind, button, point: (1.5f64, 2.5f64) };
    let mut flags = Vec::new();
    let mut index: u64 = 0;
    while let Some(input) = send_mouse(&event, index) {
        assert_eq!(input.point, (1.5, 2.5));
        flags.push(input.flags);
        index += 1;
    }
    flags
}

#[test]
fn single_inputs() {
    assert_eq!(flags(MouseEventKind::Move, MouseButton::Right), vec![0x8001]);
    assert_eq!(flags(MouseEventKind::Down, MouseButton::Left), vec![0x8002]);
    assert_eq!(flags(MouseEventKind::Up, MouseButton::Left), vec![0x8004]);
    assert_eq!(flags(MouseEventKind::Down, MouseButton::Right), vec![0x8008]);
    assert_eq!(flags(MouseEventKind::Up, MouseButton::Right), vec![0x8010]);
    assert_eq!(flags(MouseEventKind::Down, MouseButton::Middle), vec![0x8020]);
    assert_eq!(flags(MouseEventKind::Up, MouseButton::Middle), vec![0x8040]);
}

#[test]
fn clicks_are_pairs() {
    assert_eq!(flags(MouseEventKind::Click { count: 0 }, MouseButton::Left), Vec::<u32>::new());
    assert_eq!(flags(MouseEventKind::Click { count: 1 }, MouseButton::Right), vec![0x8008, 0x8010]);
    assert_eq!(
        flags(MouseEventKind::Click { count: 3 }, MouseButton::Left),
        vec![0x8002, 0x8004, 0x8002, 0x8004, 0x8002, 0x8004]
    );
    let most = MouseEvent {
        kind: MouseEventKind::Click { count: u32::MAX },
        button: MouseButton::Left,
        point: 0u8,
    };
    assert_eq!(send_mouse(&most, 2 * u32::MAX as u64 - 1).unwrap().flags, 0x8004);
    assert_eq!(send_mouse(&most, 2 * u32::MAX as u64), None);
}

#[test]
fn the_adapter_sends_mouse_events() {
    let event = MouseEvent { kind: MouseEventKind::Down, button: MouseButton::Middle, point: 'p' };
    let adapter = WindowsAdapter::new();
    assert_eq!(adapter.mouse_event(&event, 0), Ok(Some(MouseInput { flags: 0x8020, point: 'p' })));
    assert_eq!(adapter.mouse_event(&event, 1), Ok(None));
}

#[test]
fn a_drag_moves_presses_moves_and_releases() {
    let params = DragParams { from: (1, 2), to: (30, 40) };
    let inputs = WindowsAdapter::new().drag(&params).unwrap();
    assert_eq!(
        inputs,
        vec![
            MouseInput { flags: 0x8001, point: (1, 2) },
            MouseInput { flags: 0x8002, point: (1, 2) },
            MouseInput { flags: 0x8001, point: (30, 40) },
            MouseInput { flags: 0x8004, point: (30, 40) },
        ]
    );
}

fn act(raw: usize, action: Action) -> ActionRun {
    WindowsAdapter::new().execute_action(&NativeHandle { raw }, action)
}

fn refused(run: ActionRun) -> String {
    assert_eq!(run.request(), ActionRequest::Finished);
    match run.outcome() {
        Some(Err(AdapterError::NotSupported(text))) => text,
        other => panic!("{:?}", other),
    }
}

fn done(run: ActionRun) -> String {
    assert_eq!(run.request(), ActionRequest::Finished);
    run.outcome().unwrap().unwrap().action
}

fn rect() -> WinRect {
    WinRect { left: 10, top: 20, right: 31, bottom: 40 }
}

fn click(button: MouseButton, count: u32) -> ActionRequest {
    ActionRequest::Press(MouseEvent {
        kind: MouseEventKind::Click { count },
        button,
        point: DoubledPoint { x: 41, y: 60 },
    })
}

#[test]
fn no_element_no_action() {
    assert_eq!(refused(act(0, Action::Click)), "execute_action: null handle");
    assert_eq!(refused(act(0, Action::Other)), "execute_action: null handle");
}

#[test]
fn unknown_actions_are_refused() {
    assert_eq!(refused(act(1, Action::Other)), "action not yet implemented");
}

#[test]
fn a_click_invokes_where_it_can() {
    let run = act(1, Action::Click);
    assert_eq!(run.request(), ActionRequest::Invoke);
    assert_eq!(done(run.answer(ActionReply::Invoked(true))), "click");
}

#[test]
fn a_click_falls_back_to_the_mouse() {
    let run = act(1, Action::Click).answer(ActionReply::Invoked(false));
    assert_eq!(run.request(), ActionRequest::ReadRectangle);
    let run = run.answer(ActionReply::Rectangle(Ok(rect())));
    assert_eq!(run.request(), click(MouseButton::Left, 1));
    assert!(act(1, Action::Click).outcome().is_none());
    assert_eq!(done(run.answer(ActionReply::Pressed)), "click");
}

#[test]
fn other_clicks_use_the_mouse_at_once() {
    let run = act(1, Action::DoubleClick);
    assert_eq!(run.request(), ActionRequest::ReadRectangle);
    let run = run.answer(ActionReply::Rectangle(Ok(rect())));
    assert_eq!(run.request(), click(MouseButton::Left, 2));
    assert_eq!(done(run.answer(ActionReply::Pressed)), "click");
    let run = act(1, Action::RightClick).answer(ActionReply::Rectangle(Ok(rect())));
    assert_eq!(run.request(), click(MouseButton::Right, 1));
}

#[test]
fn an_element_without_a_rectangle_cannot_be_clicked() {
    let run = act(1, Action::DoubleClick).answer(ActionReply::Rectangle(Err("gone".to_string())));
    assert_eq!(refused(run), "gone");
}

#[test]
fn values_are_set_where_there_is_one() {
    let run = act(1, Action::SetValue("new".to_string()));
    assert_eq!(run.request(), ActionRequest::SetValue("new".to_string()));
    assert_eq!(done(run.answer(ActionReply::ValueSet(true))), "set-value");
    let run = act(1, Action::SetValue(String::new())).answer(ActionReply::ValueSet(false));
    assert_eq!(refused(run), "set_value: ValuePattern not supported");
}

#[test]
fn an_action_ignores_replies_to_other_requests() {
    let run = act(1, Action::Click).answer(ActionReply::Pressed).answer(ActionReply::ValueSet(true));
    assert_eq!(run.request(), ActionRequest::Invoke);
}

struct Desk {
    open: bool,
    closes: u32,
    content: Option<Vec<u16>>,
    memory: Option<Vec<u16>>,
    failing: Option<ClipboardRequest>,
}

fn desk() -> Desk {
    Desk { open: false, closes: 0, content: None, memory: None, failing: None }
}

impl Desk {
    fn drive(&mut self, run: ClipboardRun) -> Result<Option<String>, AdapterError> {
        let mut run = run;
        loop {
            let request = run.request();
            let failed = self.failing == Some(request);
            let reply = match request {
                ClipboardRequest::Finished => return run.outcome().unwrap(),
                ClipboardRequest::ReadUnit { index } => {
                    ClipboardReply::Unit(self.content.as_ref().unwrap()[index])
                }
                _ if failed => ClipboardReply::Failed(format!("{:?}", request)),
                ClipboardRequest::Open => {
                    self.open = true;
                    ClipboardReply::Done
                }
                ClipboardRequest::Empty => {
                    assert!(self.open);
                    self.content = None;
                    ClipboardReply::Done
                }
                ClipboardRequest::Fetch => match &self.content {
                    Some(_) => ClipboardReply::Done,
                    None => ClipboardReply::Failed("nothing there".to_string()),
                },
                ClipboardRequest::Store => {
                    self.memory = Some(run.units().unwrap().clone());
                    ClipboardReply::Done
                }
                ClipboardRequest::Publish => {
                    self.content = self.memory.take();
                    ClipboardReply::Done
                }
                ClipboardRequest::Close => {
                    assert!(self.open);
                    self.open = false;
                    self.closes += 1;
                    ClipboardReply::Done
                }
            };
            run = run.answer(reply);
        }
    }
}

fn error(text: &str) -> Result<Option<String>, AdapterError> {
    Err(AdapterError::NotSupported(text.to_string()))
}

#[test]
fn what_is_set_is_what_is_read() {
    let adapter = WindowsAdapter::new();
    for text in ["", "plain", "Grüße 😀", "two\r\nlines"] {
        let mut desk = desk();
        assert_eq!(desk.drive(adapter.set_clipboard(text)), Ok(None));
        let mut units: Vec<u16> = text.encode_utf16().collect();
        units.push(0);
        assert_eq!(desk.content, Some(units));
        assert_eq!(desk.drive(adapter.get_clipboard()), Ok(Some(text.to_string())));
        assert!(!desk.open);
        assert_eq!(desk.closes, 2);
    }
}

#[test]
fn text_is_read_up_to_its_first_nul() {
    let adapter = WindowsAdapter::new();
    let mut desk = desk();
    assert_eq!(desk.drive(adapter.set_clipboard("a\0b")), Ok(None));
    assert_eq!(desk.drive(adapter.get_clipboard()), Ok(Some("a".to_string())));
}

#[test]
fn broken_text_is_read_with_replacements() {
    let mut desk = desk();
    desk.content = Some(vec![0xD800, 0x41, 0, 0x42]);
    assert_eq!(desk.drive(WindowsAdapter::new().get_clipboard()), Ok(Some("\u{FFFD}A".to_string())));
}

#[test]
fn clearing_leaves_nothing_to_read() {
    let adapter = WindowsAdapter::new();
    let mut desk = desk();
    assert_eq!(desk.drive(adapter.set_clipboard("x")), Ok(None));
    assert_eq!(desk.drive(adapter.clear_clipboard()), Ok(None));
    assert_eq!(desk.content, None);
    assert_eq!(desk.drive(adapter.get_clipboard()), error("nothing there"));
    assert_eq!(desk.closes, 3);
    assert!(!desk.open);
}

#[test]
fn a_clipboard_that_does_not_open_is_left_alone() {
    let adapter = WindowsAdapter::new();
    for run in [adapter.get_clipboard(), adapter.set_clipboard("x"), adapter.clear_clipboard()] {
        let mut desk = desk();
        desk.failing = Some(ClipboardRequest::Open);
        assert_eq!(desk.drive(run), error("Open"));
        assert_eq!(desk.closes, 0);
    }
}

#[test]
fn failures_close_the_clipboard() {
    let adapter = WindowsAdapter::new();
    for (request, text) in [(ClipboardRequest::Store, "Store"), (ClipboardRequest::Publish, "Publish")] {
        let mut desk = desk();
        desk.failing = Some(request);
        assert_eq!(desk.drive(adapter.set_clipboard("x")), error(text));
        assert_eq!((desk.open, desk.closes), (false, 1));
        assert_eq!(desk.content, None);
    }
    let mut reading = desk();
    reading.failing = Some(ClipboardRequest::Fetch);
    assert_eq!(reading.drive(adapter.get_clipboard()), error("Fetch"));
    assert_eq!((reading.open, reading.closes), (false, 1));
}

#[test]
fn failures_to_empty_or_to_close_do_not_matter() {
    let adapter = WindowsAdapter::new();
    for request in [ClipboardRequest::Empty, ClipboardRequest::Close] {
        let mut desk = desk();
        desk.failing = Some(request);
        assert_eq!(desk.drive(adapter.set_clipboard("x")), Ok(None));
        assert_eq!(desk.content, Some(vec![0x78, 0]));
    }
}
