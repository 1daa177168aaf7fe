use agent_desktop_windows::geometry::{DoubledPoint, Rect, WinRect};
use agent_desktop_windows::node::{
    to_unsigned, AccessibilityNode, ChildList, ElementProps, TreeOptions, UiElement,
};
use agent_desktop_windows::roles::{
    BUTTON_CONTROL, CHECK_BOX_CONTROL, COMBO_BOX_CONTROL, EDIT_CONTROL, HYPERLINK_CONTROL,
    LIST_CONTROL, LIST_ITEM_CONTROL, PROGRESS_BAR_CONTROL, SLIDER_CONTROL, TAB_CONTROL,
    TAB_ITEM_CONTROL, TEXT_CONTROL, TREE_CONTROL, TREE_ITEM_CONTROL,
};
use agent_desktop_windows::walk::{TreeReply, TreeRequest, TreeWalk};
use agent_desktop_windows::WindowsAdapter;

fn props(name: &str, control_type: i32) -> ElementProps {
    ElementProps {
        name: Some(name.to_string()),
        control_type: Some(control_type),
        focused: Some(false),
        rect: Some(WinRect { left: 1, top: 2, right: 11, bottom: 22 }),
    }
}

fn leaf(name: &str) -> UiElement {
    UiElement {
        props: props(name, BUTTON_CONTROL),
        children: Some(ChildList { length: Some(0), items: vec![] }),
    }
}

fn parent(name: &str, items: Vec<Option<UiElement>>) -> UiElement {
    UiElement {
        props: props(name, LIST_CONTROL),
        children: Some(ChildList { length: Some(items.len() as i32), items }),
    }
}

fn tree(element: &UiElement, max_depth: u8, include_bounds: bool) -> AccessibilityNode {
    WindowsAdapter::new()
        .traverse_element(element, &TreeOptions { max_depth, include_bounds }, 0)
        .unwrap()
}

fn names(node: &AccessibilityNode) -> Vec<String> {
    node.children.iter().map(|c| c.name.clone().unwrap()).collect()
}

#[test]
fn roles_by_control_type() {
    let adapter = WindowsAdapter::new();
    let roles = [
        (BUTTON_CONTROL, 50000, "button"),
        (EDIT_CONTROL, 50004, "textfield"),
        (CHECK_BOX_CONTROL, 50002, "checkbox"),
        (HYPERLINK_CONTROL, 50005, "link"),
        (LIST_ITEM_CONTROL, 50007, "cell"),
        (LIST_CONTROL, 50008, "list"),
        (COMBO_BOX_CONTROL, 50003, "combobox"),
        (TREE_ITEM_CONTROL, 50024, "treeitem"),
        (TREE_CONTROL, 50023, "tree"),
        (TAB_ITEM_CONTROL, 50019, "tab"),
        (TAB_CONTROL, 50018, "tablist"),
        (SLIDER_CONTROL, 50015, "slider"),
        (PROGRESS_BAR_CONTROL, 50012, "progressbar"),
        (TEXT_CONTROL, 50020, "group"),
    ];
    for (constant, id, role) in roles {
        assert_eq!(constant, id);
        assert_eq!(adapter.uia_role(id), role);
    }
    for id in [0, -1, 50001, 50006, 50025, i32::MAX] {
        assert_eq!(adapter.uia_role(id), "group");
    }
}

#[test]
fn a_single_element() {
    let node = tree(&leaf("OK"), 0, true);
    assert_eq!(
        node,
        AccessibilityNode {
            ref_id: None,
            role: "button".to_string(),
            name: Some("OK".to_string()),
            value: None,
            description: None,
            hint: None,
            states: vec![],
            bounds: Some(Rect { x: 1, y: 2, width: 10, height: 20 }),
            children_count: None,
            children: vec![],
        }
    );
}

#[test]
fn unreadable_properties() {
    let element = UiElement {
        props: ElementProps { name: None, control_type: None, focused: None, rect: None },
        children: None,
    };
    let node = tree(&element, 5, true);
    assert_eq!(node.role, "group");
    assert_eq!(node.name, None);
    assert!(node.states.is_empty());
    assert_eq!(node.bounds, None);
    assert_eq!(node.children_count, None);
    assert!(node.children.is_empty());
}

#[test]
fn empty_names_are_dropped_and_focus_is_a_state() {
    let mut element = leaf("");
    element.props.focused = Some(true);
    let node = tree(&element, 0, false);
    assert_eq!(node.name, None);
    assert_eq!(node.states, vec!["focused".to_string()]);
    assert_eq!(node.bounds, None);
}

#[test]
fn children_come_in_order_without_the_missing() {
    let root = parent("root", vec![Some(leaf("a")), None, Some(parent("b", vec![Some(leaf("c"))])), None]);
    let node = tree(&root, 9, false);
    assert_eq!(node.children_count, Some(4));
    assert_eq!(names(&node), vec!["a", "b"]);
    assert_eq!(node.children[0].children_count, Some(0));
    assert_eq!(node.children[1].children_count, Some(1));
    assert_eq!(names(&node.children[1]), vec!["c"]);
}

#[test]
fn the_deepest_level_has_no_children() {
    let root = parent("0", vec![Some(parent("1", vec![Some(parent("2", vec![Some(leaf("3"))]))]))]);
    let none = tree(&root, 0, false);
    assert_eq!((none.children_count, none.children.len()), (None, 0));
    let one = tree(&root, 1, false);
    assert_eq!(names(&one), vec!["1"]);
    assert_eq!(one.children[0].children_count, None);
    assert!(one.children[0].children.is_empty());
    let two = tree(&root, 2, false);
    assert_eq!(names(&two.children[0]), vec!["2"]);
    assert!(two.children[0].children[0].children.is_empty());
}

#[test]
fn the_deepest_level_counts_from_the_starting_level() {
    let root = parent("0", vec![Some(leaf("1"))]);
    let adapter = WindowsAdapter::new();
    let opts = TreeOptions { max_depth: 255, include_bounds: false };
    assert_eq!(adapter.traverse_element(&root, &opts, 254).unwrap().children.len(), 1);
    assert_eq!(adapter.traverse_element(&root, &opts, 255).unwrap().children.len(), 0);
}

#[test]
fn odd_child_counts() {
    let list = |length: Option<i32>, items: Vec<Option<UiElement>>| UiElement {
        props: props("l", LIST_CONTROL),
        children: Some(ChildList { length, items }),
    };
    let unread = tree(&list(None, vec![Some(leaf("a"))]), 3, false);
    assert_eq!((unread.children_count, unread.children.len()), (Some(0), 0));
    let short = tree(&list(Some(1), vec![Some(leaf("a")), Some(leaf("b"))]), 3, false);
    assert_eq!(names(&short), vec!["a"]);
    let long = tree(&list(Some(3), vec![Some(leaf("a"))]), 3, false);
    assert_eq!(long.children_count, Some(3));
    assert_eq!(names(&long), vec!["a"]);
    let negative = tree(&list(Some(-1), vec![Some(leaf("a"))]), 3, false);
    assert_eq!((negative.children_count, negative.children.len()), (Some(u32::MAX), 0));
    assert_eq!(to_unsigned(i32::MIN), 0x8000_0000);
}

#[test]
fn a_walk_asks_for_one_thing_at_a_time() {
    let opts = TreeOptions { max_depth: 1, include_bounds: true };
    let walk = TreeWalk::new(opts, 0);
    assert_eq!(walk.request(), TreeRequest::Describe { bounds: true });
    let walk = walk.answer(TreeReply::Described(props("root", TREE_CONTROL)));
    assert_eq!(walk.request(), TreeRequest::ListChildren);
    let walk = walk.answer(TreeReply::Listed(Some(3)));
    assert_eq!(walk.request(), TreeRequest::OpenChild { level: 0, index: 0 });
    let walk = walk.answer(TreeReply::Missing);
    assert_eq!(walk.request(), TreeRequest::OpenChild { level: 0, index: 1 });
    let walk = walk.answer(TreeReply::Opened);
    assert_eq!(walk.request(), TreeRequest::Describe { bounds: true });
    let walk = walk.answer(TreeReply::Described(props("one", TREE_ITEM_CONTROL)));
    assert_eq!(walk.request(), TreeRequest::OpenChild { level: 0, index: 2 });
    let walk = walk.answer(TreeReply::Missing);
    assert_eq!(walk.request(), TreeRequest::Finished);
    let node = walk.into_node().unwrap();
    assert_eq!(node.role, "tree");
    assert_eq!(node.children_count, Some(3));
    assert_eq!(names(&node), vec!["one"]);
}

#[test]
fn a_walk_ends_where_children_go_on_without_end() {
    let mut walk = TreeWalk::new(TreeOptions { max_depth: 3, include_bounds: false }, 1);
    let mut requests = 0;
    loop {
        let reply = match walk.request() {
            TreeRequest::Describe { .. } => TreeReply::Described(props("again", LIST_CONTROL)),
            TreeRequest::ListChildren => TreeReply::Listed(Some(2)),
            TreeRequest::OpenChild { level, .. } => {
                assert!(level < 2);
                TreeReply::Opened
            }
            TreeRequest::Finished => break,
        };
        walk = walk.answer(reply);
        requests += 1;
    }
    assert_eq!(requests, 2 + 2 * (1 + 2 + 2 * (1 + 1)));
    let node = walk.into_node().unwrap();
    assert_eq!(node.children.len(), 2);
    assert_eq!(node.children[1].children.len(), 2);
    assert!(node.children[1].children[1].children.is_empty());
}

#[test]
fn a_walk_that_starts_below_the_deepest_level_describes_one_element() {
    let walk = TreeWalk::new(TreeOptions { max_depth: 3, include_bounds: false }, 255);
    let walk = walk.answer(TreeReply::Described(props("only", LIST_CONTROL)));
    assert_eq!(walk.request(), TreeRequest::Finished);
}

#[test]
fn a_walk_ignores_replies_to_other_requests() {
    let opts = TreeOptions { max_depth: 1, include_bounds: false };
    let walk = TreeWalk::new(opts, 0).answer(TreeReply::Listed(Some(1))).answer(TreeReply::Opened);
    assert_eq!(walk.request(), TreeRequest::Describe { bounds: false });
    assert!(TreeWalk::new(opts, 0).into_node().is_none());
    let walk = walk.answer(TreeReply::Described(props("root", TEXT_CONTROL))).answer(TreeReply::Unlisted);
    assert_eq!(walk.request(), TreeRequest::Finished);
    let node = walk.answer(TreeReply::Missing).into_node().unwrap();
    assert_eq!(node.children_count, None);
}

#[test]
fn rectangles() {
    let rect = WinRect { left: -5, top: 10, right: 6, bottom: 30 };
    assert_eq!(rect.bounds(), Rect { x: -5, y: 10, width: 11, height: 20 });
    assert_eq!(rect.center(), DoubledPoint { x: 1, y: 40 });
    let wide = WinRect { left: i32::MIN, top: 0, right: 1, bottom: 0 };
    assert!(!wide.is_measurable());
    assert!(wide.is_centred());
    let far = WinRect { left: i32::MAX, top: 0, right: 1, bottom: 0 };
    assert!(far.is_measurable());
    assert!(!far.is_centred());
}
