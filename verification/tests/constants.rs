use agent_desktop_windows::clipboard::UNICODE_TEXT_FORMAT;
use agent_desktop_windows::mouse::{
    ABSOLUTE_FLAG, LEFT_DOWN_FLAG, LEFT_UP_FLAG, MIDDLE_DOWN_FLAG, MIDDLE_UP_FLAG, MOVE_FLAG,
    RIGHT_DOWN_FLAG, RIGHT_UP_FLAG,
};
use agent_desktop_windows::roles::{
    BUTTON_CONTROL, CHECK_BOX_CONTROL, COMBO_BOX_CONTROL, EDIT_CONTROL, HYPERLINK_CONTROL,
    LIST_CONTROL, LIST_ITEM_CONTROL, PROGRESS_BAR_CONTROL, SLIDER_CONTROL, TAB_CONTROL,
    TAB_ITEM_CONTROL, TEXT_CONTROL, TREE_CONTROL, TREE_ITEM_CONTROL,
};
use windows::Win32::System::Ole::CF_UNICODETEXT;
use windows::Win32::UI::Accessibility as uia;
use windows::Win32::UI::Input::KeyboardAndMouse as mouse;

#[test]
fn control_types_are_those_of_the_system() {
    assert_eq!(BUTTON_CONTROL, uia::UIA_ButtonControlTypeId.0);
    assert_eq!(CHECK_BOX_CONTROL, uia::UIA_CheckBoxControlTypeId.0);
    assert_eq!(COMBO_BOX_CONTROL, uia::UIA_ComboBoxControlTypeId.0);
    assert_eq!(EDIT_CONTROL, uia::UIA_EditControlTypeId.0);
    assert_eq!(HYPERLINK_CONTROL, uia::UIA_HyperlinkControlTypeId.0);
    assert_eq!(LIST_CONTROL, uia::UIA_ListControlTypeId.0);
    assert_eq!(LIST_ITEM_CONTROL, uia::UIA_ListItemControlTypeId.0);
    assert_eq!(PROGRESS_BAR_CONTROL, uia::UIA_ProgressBarControlTypeId.0);
    assert_eq!(SLIDER_CONTROL, uia::UIA_SliderControlTypeId.0);
    assert_eq!(TAB_CONTROL, uia::UIA_TabControlTypeId.0);
    assert_eq!(TAB_ITEM_CONTROL, uia::UIA_TabItemControlTypeId.0);
    assert_eq!(TEXT_CONTROL, uia::UIA_TextControlTypeId.0);
    assert_eq!(TREE_CONTROL, uia::UIA_TreeControlTypeId.0);
    assert_eq!(TREE_ITEM_CONTROL, uia::UIA_TreeItemControlTypeId.0);
}

#[test]
fn mouse_flags_are_those_of_the_system() {
    assert_eq!(MOVE_FLAG, mouse::MOUSEEVENTF_MOVE.0);
    assert_eq!(LEFT_DOWN_FLAG, mouse::MOUSEEVENTF_LEFTDOWN.0);
    assert_eq!(LEFT_UP_FLAG, mouse::MOUSEEVENTF_LEFTUP.0);
    assert_eq!(RIGHT_DOWN_FLAG, mouse::MOUSEEVENTF_RIGHTDOWN.0);
    assert_eq!(RIGHT_UP_FLAG, mouse::MOUSEEVENTF_RIGHTUP.0);
    assert_eq!(MIDDLE_DOWN_FLAG, mouse::MOUSEEVENTF_MIDDLEDOWN.0);
    assert_eq!(MIDDLE_UP_FLAG, mouse::MOUSEEVENTF_MIDDLEUP.0);
    assert_eq!(ABSOLUTE_FLAG, mouse::MOUSEEVENTF_ABSOLUTE.0);
}

#[test]
fn the_clipboard_format_is_that_of_the_system() {
    assert_eq!(UNICODE_TEXT_FORMAT, CF_UNICODETEXT.0 as u32);
}
