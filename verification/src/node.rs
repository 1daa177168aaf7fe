//! Accessibility nodes and the element trees that they describe.
use crate::geometry::{Rect, WinRect};
use crate::roles::{role_name, TEXT_CONTROL};
use vstd::prelude::*;

verus! {

/// What of an element tree is wanted.
#[derive(Debug, Clone, Copy, PartialEq, Eq)]
pub struct TreeOptions {
    /// The deepest level that is visited; the root is at level zero.
    pub max_depth: u8,
    /// Whether nodes carry their rectangle.
    pub include_bounds: bool,
}

/// One node of the tree handed to callers.
#[derive(Debug, PartialEq, Eq)]
pub struct AccessibilityNode {
    pub ref_id: Option<String>,
    pub role: String,
    pub name: Option<String>,
    pub value: Option<String>,
    pub description: Option<String>,
    pub hint: Option<String>,
    pub states: Vec<String>,
    pub bounds: Option<Rect>,
    pub children_count: Option<u32>,
    pub children: Vec<AccessibilityNode>,
}

/// A node as a mathematical value.
#[verifier::ext_equal]
pub struct NodeView {
    pub ref_id: Option<Seq<char>>,
    pub role: Seq<char>,
    pub name: Option<Seq<char>>,
    pub value: Option<Seq<char>>,
    pub description: Option<Seq<char>>,
    pub hint: Option<Seq<char>>,
    pub states: Seq<Seq<char>>,
    pub bounds: Option<Rect>,
    pub children_count: Option<u32>,
    pub children: Seq<NodeView>,
}

/// An optional text as a mathematical value.
pub open spec fn text_view(text: Option<String>) -> Option<Seq<char>> {
    match text {
        Some(s) => Some(s@),
        None => None,
    }
}

impl AccessibilityNode {
    /// The node as a mathematical value.
    pub open spec fn view(&self) -> NodeView
        decreases self,
    {
        NodeView {
            ref_id: text_view(self.ref_id),
            role: self.role@,
            name: text_view(self.name),
            value: text_view(self.value),
            description: text_view(self.description),
            hint: text_view(self.hint),
            states: self.states@.map_values(|s: String| s@),
            bounds: self.bounds,
            children_count: self.children_count,
            children: Seq::new(
                self.children@.len(),
                |i: int|
                    if 0 <= i < self.children@.len() {
                        self.children@[i].view()
                    } else {
                        arbitrary()
                    },
            ),
        }
    }
}

/// What an element says of itself. `None` stands for a property that could not be read.
#[derive(Debug, PartialEq, Eq)]
pub struct ElementProps {
    pub name: Option<String>,
    pub control_type: Option<i32>,
    pub focused: Option<bool>,
    pub rect: Option<WinRect>,
}

/// The children of an element, as far as they could be listed.
#[derive(Debug, PartialEq, Eq)]
pub struct ChildList {
    /// How many there are said to be; `None` where that could not be read.
    pub length: Option<i32>,
    /// The child at each index; `None` where it could not be opened. An index past the end
    /// cannot be opened either.
    pub items: Vec<Option<UiElement>>,
}

/// An element with all that lies below it.
#[derive(Debug, PartialEq, Eq)]
pub struct UiElement {
    pub props: ElementProps,
    /// `None` where the children could not be listed.
    pub children: Option<ChildList>,
}

/// The `u32` with the bits of `n`.
pub open spec fn as_unsigned(n: i32) -> u32 {
    if n >= 0 {
        n as u32
    } else {
        (n + 0x1_0000_0000) as u32
    }
}

/// The node for an element without its children.
pub open spec fn head_node(props: ElementProps, opts: TreeOptions) -> NodeView {
    NodeView {
        ref_id: None,
        role: crate::roles::role_of(
            match props.control_type {
                Some(id) => id,
                None => TEXT_CONTROL,
            },
        ),
        name: match props.name {
            Some(s) => if s@.len() > 0 {
                Some(s@)
            } else {
                None
            },
            None => None,
        },
        value: None,
        description: None,
        hint: None,
        states: if props.focused == Some(true) {
            seq!["focused"@]
        } else {
            Seq::empty()
        },
        bounds: if opts.include_bounds {
            match props.rect {
                Some(r) => Some(r.spec_bounds()),
                None => None,
            }
        } else {
            None
        },
        children_count: None,
        children: Seq::empty(),
    }
}

impl ChildList {
    /// The number of children, zero where it could not be read.
    pub open spec fn count(self) -> i32 {
        match self.length {
            Some(n) => n,
            None => 0,
        }
    }

    /// The child at `index`, where it can be opened.
    pub open spec fn item(self, index: int) -> Option<UiElement> {
        if 0 <= index < self.items@.len() {
            self.items@[index]
        } else {
            None
        }
    }
}

/// The nodes of the first `n` children that can be opened.
pub open spec fn child_nodes(list: ChildList, n: int, opts: TreeOptions, depth: int) -> Seq<
    NodeView,
>
    decreases list, n,
{
    if n <= 0 {
        Seq::empty()
    } else {
        let before = child_nodes(list, n - 1, opts, depth);
        if 0 <= n - 1 < list.items@.len() && list.items@[n - 1] is Some {
            before.push(node_of(list.items@[n - 1]->0, opts, depth))
        } else {
            before
        }
    }
}

/// The node for an element at level `depth`, with all that is visited below it: its children
/// where it lies above the deepest level, and nothing otherwise.
pub open spec fn node_of(element: UiElement, opts: TreeOptions, depth: int) -> NodeView
    decreases element, 0int,
{
    let head = head_node(element.props, opts);
    if depth < opts.max_depth && element.children is Some {
        let list = element.children->0;
        NodeView {
            children_count: Some(as_unsigned(list.count())),
            children: child_nodes(list, list.count() as int, opts, depth + 1),
            ..head
        }
    } else {
        head
    }
}

/// Every rectangle that a visit from level `depth` reads can be measured.
pub open spec fn tree_measurable(element: UiElement, opts: TreeOptions, depth: int) -> bool
    decreases element,
{
    &&& props_measurable(element.props, opts)
    &&& depth < opts.max_depth ==> (element.children matches Some(list) ==> forall|i: int|
        0 <= i < list.count() && i < list.items@.len() ==> (#[trigger] list.items@[i] matches Some(
            child,
        ) ==> tree_measurable(child, opts, depth + 1)))
}

/// The rectangle can be measured, as far as it is wanted.
pub open spec fn props_measurable(props: ElementProps, opts: TreeOptions) -> bool {
    opts.include_bounds ==> (props.rect matches Some(r) ==> r.measurable())
}

/// Reads `n` as the `u32` with the same bits.
pub fn to_unsigned(n: i32) -> (r: u32)
    ensures
        r == as_unsigned(n),
{
    assert(n < 0 ==> n as u32 == n + 0x1_0000_0000) by (bit_vector);
    n as u32
}

/// The node for an element without its children.
pub fn describe(props: ElementProps, opts: &TreeOptions) -> (node: AccessibilityNode)
    requires
        props_measurable(props, *opts),
    ensures
        node@ == head_node(props, *opts),
{
    let id: i32 = match props.control_type {
        Some(id) => id,
        None => TEXT_CONTROL,
    };
    let name: Option<String> = match props.name {
        Some(s) => if s.as_str().is_empty() {
            None
        } else {
            Some(s)
        },
        None => None,
    };
    let focused: bool = match props.focused {
        Some(focused) => focused,
        None => false,
    };
    let mut states: Vec<String> = Vec::new();
    if focused {
        states.push("focused".to_owned());
    }
    let bounds: Option<Rect> = if opts.include_bounds {
        match props.rect {
            Some(rect) => Some(rect.bounds()),
            None => None,
        }
    } else {
        None
    };
    let node = AccessibilityNode {
        ref_id: None,
        role: role_name(id),
        name,
        value: None,
        description: None,
        hint: None,
        states,
        bounds,
        children_count: None,
        children: Vec::new(),
    };
    assert(node@.states == head_node(props, *opts).states);
    assert(node@.children == Seq::<NodeView>::empty());
    node
}

/// No node lies more than `levels` levels below this one.
pub open spec fn within_levels(node: NodeView, levels: int) -> bool
    decreases node,
{
    forall|i: int|
        0 <= i < node.children.len() ==> levels > 0 && within_levels(
            #[trigger] node.children[i],
            levels - 1,
        )
}

/// Neither this node nor one below it carries a rectangle.
pub open spec fn without_bounds(node: NodeView) -> bool
    decreases node,
{
    &&& node.bounds is None
    &&& forall|i: int|
        0 <= i < node.children.len() ==> without_bounds(#[trigger] node.children[i])
}

/// No node of a tree lies below the deepest level that is wanted.
pub proof fn law_depth_bounded(element: UiElement, opts: TreeOptions, depth: int)
    ensures
        within_levels(
            node_of(element, opts, depth),
            if depth < opts.max_depth {
                opts.max_depth - depth
            } else {
                0
            },
        ),
    decreases element, 0int,
{
    if depth < opts.max_depth && element.children is Some {
        let list = element.children->0;
        lemma_children_depth(list, list.count() as int, opts, depth + 1);
        let node = node_of(element, opts, depth);
        assert forall|i: int| 0 <= i < node.children.len() implies within_levels(
            #[trigger] node.children[i],
            opts.max_depth - depth - 1,
        ) by {
            assert(node.children == child_nodes(list, list.count() as int, opts, depth + 1));
        }
    }
}

proof fn lemma_children_depth(list: ChildList, n: int, opts: TreeOptions, depth: int)
    requires
        depth <= opts.max_depth,
    ensures
        forall|i: int|
            0 <= i < child_nodes(list, n, opts, depth).len() ==> within_levels(
                #[trigger] child_nodes(list, n, opts, depth)[i],
                opts.max_depth - depth,
            ),
    decreases list, n,
{
    if n > 0 {
        lemma_children_depth(list, n - 1, opts, depth);
        if 0 <= n - 1 < list.items@.len() && list.items@[n - 1] is Some {
            law_depth_bounded(list.items@[n - 1]->0, opts, depth);
        }
        let before = child_nodes(list, n - 1, opts, depth);
        let nodes = child_nodes(list, n, opts, depth);
        assert forall|i: int| 0 <= i < nodes.len() implies within_levels(
            #[trigger] nodes[i],
            opts.max_depth - depth,
        ) by {
            if i < before.len() {
                assert(nodes[i] == before[i]);
            }
        }
    }
}

/// Where rectangles are not wanted, no node of the tree carries one.
pub proof fn law_bounds_only_on_request(element: UiElement, opts: TreeOptions, depth: int)
    requires
        !opts.include_bounds,
    ensures
        without_bounds(node_of(element, opts, depth)),
    decreases element, 0int,
{
    if depth < opts.max_depth && element.children is Some {
        let list = element.children->0;
        lemma_children_bounds(list, list.count() as int, opts, depth + 1);
        let node = node_of(element, opts, depth);
        assert forall|i: int| 0 <= i < node.children.len() implies without_bounds(
            #[trigger] node.children[i],
        ) by {
            assert(node.children == child_nodes(list, list.count() as int, opts, depth + 1));
        }
    }
}

proof fn lemma_children_bounds(list: ChildList, n: int, opts: TreeOptions, depth: int)
    requires
        !opts.include_bounds,
    ensures
        forall|i: int|
            0 <= i < child_nodes(list, n, opts, depth).len() ==> without_bounds(
                #[trigger] child_nodes(list, n, opts, depth)[i],
            ),
    decreases list, n,
{
    if n > 0 {
        lemma_children_bounds(list, n - 1, opts, depth);
        if 0 <= n - 1 < list.items@.len() && list.items@[n - 1] is Some {
            law_bounds_only_on_request(list.items@[n - 1]->0, opts, depth);
        }
        let before = child_nodes(list, n - 1, opts, depth);
        let nodes = child_nodes(list, n, opts, depth);
        assert forall|i: int| 0 <= i < nodes.len() implies without_bounds(#[trigger] nodes[i]) by {
            if i < before.len() {
                assert(nodes[i] == before[i]);
            }
        }
    }
}

/// A node has at most as many children as were counted, and where every child can be opened
/// it has exactly those, in order.
pub proof fn law_children_counted(list: ChildList, n: int, opts: TreeOptions, depth: int)
    requires
        0 <= n,
    ensures
        child_nodes(list, n, opts, depth).len() <= n,
        (forall|i: int| 0 <= i < n ==> #[trigger] list.item(i) is Some) ==> {
            &&& child_nodes(list, n, opts, depth).len() == n
            &&& forall|i: int|
                0 <= i < n ==> #[trigger] child_nodes(list, n, opts, depth)[i] == node_of(
                    list.item(i)->0,
                    opts,
                    depth,
                )
        },
    decreases n,
{
    if n > 0 {
        law_children_counted(list, n - 1, opts, depth);
        assert((forall|i: int| 0 <= i < n ==> #[trigger] list.item(i) is Some) ==> list.item(n - 1)
            is Some);
    }
}

/// The role of a node is that of the control type of its element, whatever else is wanted; an
/// element whose control type could not be read is a group.
pub proof fn law_role_from_control_type(props: ElementProps, opts: TreeOptions)
    ensures
        props.control_type matches Some(id) ==> head_node(props, opts).role
            == crate::roles::role_of(id),
        props.control_type is None ==> head_node(props, opts).role == "group"@,
{
    crate::roles::law_role_table(TEXT_CONTROL);
}

/// A node has the name of its element, unchanged, unless that is empty or could not be read.
pub proof fn law_name_from_element(props: ElementProps, opts: TreeOptions)
    ensures
        head_node(props, opts).name is Some <==> (props.name matches Some(text) && text@.len() > 0),
        head_node(props, opts).name matches Some(name) ==> (props.name matches Some(text) && text@
            == name),
{
}

/// A node has the state of being focused where its element is known to have the keyboard
/// focus, and never any other state.
pub proof fn law_states_from_focus(props: ElementProps, opts: TreeOptions)
    ensures
        props.focused == Some(true) ==> head_node(props, opts).states.len() == 1 && head_node(
            props,
            opts,
        ).states[0] == "focused"@,
        props.focused != Some(true) ==> head_node(props, opts).states.len() == 0,
{
}

/// A node has bounds exactly where they are wanted and the rectangle could be read, and they
/// reach from the left and upper edge of that rectangle to its right and lower one.
pub proof fn law_bounds_from_rectangle(props: ElementProps, opts: TreeOptions)
    requires
        opts.include_bounds ==> (props.rect matches Some(r) ==> r.measurable()),
    ensures
        head_node(props, opts).bounds is Some <==> opts.include_bounds && props.rect is Some,
        head_node(props, opts).bounds matches Some(bounds) ==> {
            let rect = props.rect->0;
            &&& bounds.x == rect.left
            &&& bounds.y == rect.top
            &&& bounds.x + bounds.width == rect.right
            &&& bounds.y + bounds.height == rect.bottom
        },
{
}

/// What the automation interface is not asked for stays open, and an element by itself has no
/// children.
pub proof fn law_nothing_else_is_told(props: ElementProps, opts: TreeOptions)
    ensures
        head_node(props, opts).ref_id is None,
        head_node(props, opts).value is None,
        head_node(props, opts).description is None,
        head_node(props, opts).hint is None,
        head_node(props, opts).children_count is None,
        head_node(props, opts).children.len() == 0,
{
}

/// What is wanted of a tree changes nothing about an element but whether it has bounds.
pub proof fn law_options_change_bounds_only(props: ElementProps, a: TreeOptions, b: TreeOptions)
    ensures
        (NodeView { bounds: None, ..head_node(props, a) }) == (NodeView {
            bounds: None,
            ..head_node(props, b)
        }),
        a.include_bounds == b.include_bounds ==> head_node(props, a) == head_node(props, b),
{
}

/// The number of children is counted modulo two to the thirty-second.
pub proof fn law_unsigned_keeps_bits(n: i32)
    ensures
        n >= 0 ==> as_unsigned(n) == n,
        n < 0 ==> as_unsigned(n) - n == 0x1_0000_0000,
{
}

/// Below a node stand the nodes of those of the first `n` children that can be opened, in
/// their order and each once.
pub proof fn law_openable_children(list: ChildList, n: int, opts: TreeOptions, depth: int)
    requires
        0 <= n,
    ensures
        child_nodes(list, n, opts, depth) == list.items@.take(
            if n < list.items@.len() {
                n
            } else {
                list.items@.len() as int
            },
        ).filter(|item: Option<UiElement>| item is Some).map_values(
            |item: Option<UiElement>| node_of(item->0, opts, depth),
        ),
    decreases n,
{
    reveal(Seq::filter);
    let open = |item: Option<UiElement>| item is Some;
    let node = |item: Option<UiElement>| node_of(item->0, opts, depth);
    let items = list.items@;
    if n == 0 {
        assert(items.take(0).filter(open).map_values(node) == Seq::<NodeView>::empty());
    } else {
        law_openable_children(list, n - 1, opts, depth);
        if n <= items.len() {
            let before = items.take(n - 1);
            assert(items.take(n).drop_last() == before);
            assert(items.take(n).last() == items[n - 1]);
            if items[n - 1] is Some {
                assert(items.take(n).filter(open) == before.filter(open).push(items[n - 1]));
                assert(before.filter(open).push(items[n - 1]).map_values(node) == before.filter(
                    open,
                ).map_values(node).push(node(items[n - 1])));
            }
        }
    }
}

/// A node tells the same of its element with its children as without them. It counts and has
/// children exactly where it lies above the deepest level and they could be listed: those up
/// to the listed length, one level further down.
pub proof fn law_node_adds_children_only(element: UiElement, opts: TreeOptions, depth: int)
    ensures
        ({
            let node = node_of(element, opts, depth);
            let listed = depth < opts.max_depth && element.children is Some;
            &&& (NodeView { children_count: None, children: Seq::empty(), ..node }) == head_node(
                element.props,
                opts,
            )
            &&& !listed ==> node.children_count is None && node.children.len() == 0
            &&& listed ==> {
                let list = element.children->0;
                match list.length {
                    Some(n) => node.children_count == Some(as_unsigned(n)) && node.children
                        == child_nodes(list, n as int, opts, depth + 1),
                    None => node.children_count == Some(0u32) && node.children.len() == 0,
                }
            }
        }),
{
    let node = node_of(element, opts, depth);
    assert(node.children_count is None ==> node == head_node(element.props, opts));
    assert((NodeView { children_count: None, children: Seq::empty(), ..node }) =~= head_node(
        element.props,
        opts,
    ));
}

/// A list that is said to hold fewer than one child has none.
pub proof fn law_no_children_below_one(list: ChildList, n: int, opts: TreeOptions, depth: int)
    requires
        n <= 0,
    ensures
        child_nodes(list, n, opts, depth).len() == 0,
{
}

/// A node without its bounds and those of all that lies below it.
pub open spec fn bounds_removed(node: NodeView) -> NodeView
    decreases node,
{
    NodeView {
        bounds: None,
        children: Seq::new(
            node.children.len(),
            |i: int|
                if 0 <= i < node.children.len() {
                    bounds_removed(node.children[i])
                } else {
                    arbitrary()
                },
        ),
        ..node
    }
}

/// To want bounds adds them to a tree and changes nothing else about it.
pub proof fn law_bounds_are_only_added(element: UiElement, max_depth: u8, depth: int)
    ensures
        bounds_removed(
            node_of(element, TreeOptions { max_depth, include_bounds: true }, depth),
        ) == node_of(element, TreeOptions { max_depth, include_bounds: false }, depth),
    decreases element, 0int,
{
    let with = TreeOptions { max_depth, include_bounds: true };
    let without = TreeOptions { max_depth, include_bounds: false };
    if depth < max_depth && element.children is Some {
        let list = element.children->0;
        lemma_bounds_added_below(list, list.count() as int, max_depth, depth + 1);
    }
    assert(bounds_removed(node_of(element, with, depth)).children =~= node_of(
        element,
        without,
        depth,
    ).children);
}

proof fn lemma_bounds_added_below(list: ChildList, n: int, max_depth: u8, depth: int)
    ensures
        ({
            let with = child_nodes(
                list,
                n,
                TreeOptions { max_depth, include_bounds: true },
                depth,
            );
            let without = child_nodes(
                list,
                n,
                TreeOptions { max_depth, include_bounds: false },
                depth,
            );
            &&& with.len() == without.len()
            &&& forall|i: int|
                0 <= i < with.len() ==> bounds_removed(#[trigger] with[i]) == without[i]
        }),
    decreases list, n,
{
    if n > 0 {
        lemma_bounds_added_below(list, n - 1, max_depth, depth);
        if 0 <= n - 1 < list.items@.len() && list.items@[n - 1] is Some {
            law_bounds_are_only_added(list.items@[n - 1]->0, max_depth, depth);
        }
    }
}

/// How a tree looks depends on how many levels are left to visit, not on which they are.
pub proof fn law_levels_left_decide(
    element: UiElement,
    a: TreeOptions,
    b: TreeOptions,
    from_a: int,
    from_b: int,
)
    requires
        a.include_bounds == b.include_bounds,
        a.max_depth - from_a == b.max_depth - from_b,
    ensures
        node_of(element, a, from_a) == node_of(element, b, from_b),
    decreases element, 0int,
{
    if from_a < a.max_depth && element.children is Some {
        let list = element.children->0;
        lemma_levels_left_below(list, list.count() as int, a, b, from_a + 1, from_b + 1);
    }
}

proof fn lemma_levels_left_below(
    list: ChildList,
    n: int,
    a: TreeOptions,
    b: TreeOptions,
    from_a: int,
    from_b: int,
)
    requires
        a.include_bounds == b.include_bounds,
        a.max_depth - from_a == b.max_depth - from_b,
    ensures
        child_nodes(list, n, a, from_a) == child_nodes(list, n, b, from_b),
    decreases list, n,
{
    if n > 0 {
        lemma_levels_left_below(list, n - 1, a, b, from_a, from_b);
        if 0 <= n - 1 < list.items@.len() && list.items@[n - 1] is Some {
            law_levels_left_decide(list.items@[n - 1]->0, a, b, from_a, from_b);
        }
    }
}

/// A node as a mathematical value holds the texts, numbers and children of the node itself.
pub proof fn law_node_view(node: AccessibilityNode)
    ensures
        node@.role == node.role@,
        node@.bounds == node.bounds,
        node@.children_count == node.children_count,
        node@.ref_id == text_view(node.ref_id),
        node@.name == text_view(node.name),
        node@.value == text_view(node.value),
        node@.description == text_view(node.description),
        node@.hint == text_view(node.hint),
        node@.states.len() == node.states@.len(),
        forall|i: int| 0 <= i < node.states@.len() ==> #[trigger] node@.states[i] == node.states@[i]@,
        node@.children.len() == node.children@.len(),
        forall|i: int|
            0 <= i < node.children@.len() ==> #[trigger] node@.children[i] == node.children@[i]@,
{
}

/// An optional text as a mathematical value is the text, or missing where that is missing.
pub proof fn law_text_view(text: Option<String>)
    ensures
        text_view(text) is Some <==> text is Some,
        text matches Some(s) ==> text_view(text)->0 == s@,
{
}

} // verus!
