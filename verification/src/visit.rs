//! What a walk over an element tree amounts to.
use crate::adapter::WindowsAdapter;
use crate::error::AdapterError;
use crate::node::{
    AccessibilityNode, ChildList, ElementProps, NodeView, TreeOptions, UiElement,
};
use crate::walk::{FrameView, PhaseView, TreeReply, TreeRequest, TreeWalk, WalkView};
use vstd::prelude::*;

verus! {

/// The element that the frame at index `k` stands for, or, past the last frame, the child
/// that the last frame has just opened.
pub open spec fn element_at(root: UiElement, frames: Seq<FrameView>, k: int) -> UiElement
    decreases k,
{
    if k <= 0 {
        root
    } else {
        element_at(root, frames, k - 1).children->0.item(frames[k - 1].next as int)->0
    }
}

/// The node of an element of which the first `next` children have been visited.
pub open spec fn partial_node(
    element: UiElement,
    opts: TreeOptions,
    depth: int,
    next: int,
) -> NodeView {
    let list = element.children->0;
    NodeView {
        children_count: Some(crate::node::as_unsigned(list.count())),
        children: crate::node::child_nodes(list, next, opts, depth + 1),
        ..crate::node::head_node(element.props, opts)
    }
}

/// The frame holds what has been visited of `element` and its listed children.
pub open spec fn frame_listed(frame: FrameView, element: UiElement, opts: TreeOptions) -> bool {
    &&& element.children is Some
    &&& frame.depth < opts.max_depth
    &&& frame.count == element.children->0.count()
    &&& 0 <= frame.next
    &&& frame.next <= frame.count || frame.next == 0
    &&& frame.node == partial_node(element, opts, frame.depth, frame.next as int)
}

/// The frame at index `k` waits for the visit of its next child.
pub open spec fn frame_waits(
    root: UiElement,
    frames: Seq<FrameView>,
    opts: TreeOptions,
    base: int,
    k: int,
) -> bool {
    let frame = frames[k];
    let element = element_at(root, frames, k);
    &&& frame.depth == base + k
    &&& frame_listed(frame, element, opts)
    &&& frame.next < frame.count
    &&& element.children->0.item(frame.next as int) is Some
}

/// The walk has so far visited a part of the tree under `root`, which lies at level `base`.
pub open spec fn follows(w: WalkView, root: UiElement, base: int) -> bool {
    let n = w.frames.len() as int;
    let top = w.frames.last();
    let element = element_at(root, w.frames, n - 1);
    &&& forall|k: int| 0 <= k < n - 1 ==> #[trigger] frame_waits(root, w.frames, w.opts, base, k)
    &&& match w.phase {
        PhaseView::Describe(depth) => {
            &&& n > 0 ==> frame_waits(root, w.frames, w.opts, base, n - 1)
            &&& depth == base + n
        },
        PhaseView::List => {
            &&& n > 0
            &&& top.depth == base + n - 1
            &&& top.depth < w.opts.max_depth
            &&& top.count == 0
            &&& top.next == 0
            &&& top.node == crate::node::head_node(element.props, w.opts)
        },
        PhaseView::Open => {
            &&& n > 0
            &&& top.depth == base + n - 1
            &&& frame_listed(top, element, w.opts)
            &&& top.next < top.count
        },
        PhaseView::Done(node) => {
            &&& n == 0
            &&& node == crate::node::node_of(root, w.opts, base)
        },
    }
}

/// What the tree replies to the request of a walk over it.
pub open spec fn truthful(w: WalkView, root: UiElement) -> TreeReply {
    let n = w.frames.len() as int;
    match w.phase {
        PhaseView::Describe(_) => TreeReply::Described(element_at(root, w.frames, n).props),
        PhaseView::List => match element_at(root, w.frames, n - 1).children {
            Some(list) => TreeReply::Listed(list.length),
            None => TreeReply::Unlisted,
        },
        _ => match element_at(root, w.frames, n - 1).children->0.item(w.frames.last().next as int) {
            Some(_) => TreeReply::Opened,
            None => TreeReply::Missing,
        },
    }
}

/// The number of requests for the first `n` children and all below them.
pub open spec fn children_cost(list: ChildList, n: int, opts: TreeOptions, depth: int) -> int
    decreases list, n,
{
    if n <= 0 {
        0
    } else if 0 <= n - 1 < list.items@.len() && list.items@[n - 1] is Some {
        children_cost(list, n - 1, opts, depth) + 1 + visit_cost(
            list.items@[n - 1]->0,
            opts,
            depth,
        )
    } else {
        children_cost(list, n - 1, opts, depth) + 1
    }
}

/// The number of requests for an element at level `depth` and all below it: one for its
/// properties, and above the deepest level one for the list of its children and one to open
/// each child.
pub open spec fn visit_cost(element: UiElement, opts: TreeOptions, depth: int) -> int
    decreases element, 0int,
{
    if depth < opts.max_depth {
        2 + match element.children {
            Some(list) => children_cost(list, list.count() as int, opts, depth + 1),
            None => 0,
        }
    } else {
        1
    }
}

/// The number of requests for the children of `element` from index `next` on.
pub open spec fn later_cost(element: UiElement, opts: TreeOptions, depth: int, next: int) -> int {
    let list = element.children->0;
    children_cost(list, list.count() as int, opts, depth + 1) - children_cost(
        list,
        next,
        opts,
        depth + 1,
    )
}

/// The number of requests that the first `k` frames still have to make once the child that
/// each waits for is done.
pub open spec fn waiting_cost(
    root: UiElement,
    frames: Seq<FrameView>,
    opts: TreeOptions,
    k: int,
) -> int
    decreases k,
{
    if k <= 0 {
        0
    } else {
        waiting_cost(root, frames, opts, k - 1) + later_cost(
            element_at(root, frames, k - 1),
            opts,
            frames[k - 1].depth,
            frames[k - 1].next + 1,
        )
    }
}

/// The number of requests that the walk still has to make.
pub open spec fn remaining(w: WalkView, root: UiElement) -> int {
    let n = w.frames.len() as int;
    let top = w.frames.last();
    let element = element_at(root, w.frames, n - 1);
    match w.phase {
        PhaseView::Describe(depth) => waiting_cost(root, w.frames, w.opts, n) + visit_cost(
            element_at(root, w.frames, n),
            w.opts,
            depth,
        ),
        PhaseView::List => waiting_cost(root, w.frames, w.opts, n - 1) + visit_cost(
            element,
            w.opts,
            top.depth,
        ) - 1,
        PhaseView::Open => waiting_cost(root, w.frames, w.opts, n - 1) + later_cost(
            element,
            w.opts,
            top.depth,
            top.next as int,
        ),
        PhaseView::Done(_) => 0,
    }
}

proof fn lemma_prefix(
    root: UiElement,
    a: Seq<FrameView>,
    b: Seq<FrameView>,
    opts: TreeOptions,
    k: int,
)
    requires
        0 <= k <= a.len(),
        k <= b.len(),
        forall|j: int| 0 <= j < k ==> a[j] == b[j],
    ensures
        element_at(root, a, k) == element_at(root, b, k),
        waiting_cost(root, a, opts, k) == waiting_cost(root, b, opts, k),
    decreases k,
{
    if k > 0 {
        lemma_prefix(root, a, b, opts, k - 1);
    }
}

/// Frames that agree wait for the same children.
proof fn lemma_waits_prefix(
    root: UiElement,
    a: Seq<FrameView>,
    b: Seq<FrameView>,
    opts: TreeOptions,
    base: int,
    m: int,
)
    requires
        0 <= m <= a.len(),
        m <= b.len(),
        forall|j: int| 0 <= j < m ==> a[j] == b[j],
        forall|k: int| 0 <= k < m ==> #[trigger] frame_waits(root, a, opts, base, k),
    ensures
        forall|k: int| 0 <= k < m ==> #[trigger] frame_waits(root, b, opts, base, k),
{
    assert forall|k: int| 0 <= k < m implies #[trigger] frame_waits(root, b, opts, base, k) by {
        assert(frame_waits(root, a, opts, base, k));
        lemma_prefix(root, a, b, opts, k);
    }
}

proof fn lemma_cost_nonnegative(list: ChildList, n: int, opts: TreeOptions, depth: int)
    ensures
        children_cost(list, n, opts, depth) >= 0,
    decreases list, n,
{
    if n > 0 {
        lemma_cost_nonnegative(list, n - 1, opts, depth);
        if 0 <= n - 1 < list.items@.len() && list.items@[n - 1] is Some {
            lemma_visit_positive(list.items@[n - 1]->0, opts, depth);
        }
    }
}

proof fn lemma_visit_positive(element: UiElement, opts: TreeOptions, depth: int)
    ensures
        visit_cost(element, opts, depth) >= 1,
    decreases element, 0int,
{
    if depth < opts.max_depth {
        if element.children is Some {
            let list = element.children->0;
            lemma_cost_nonnegative(list, list.count() as int, opts, depth + 1);
        }
    }
}

/// Settling keeps a walk on its tree and costs no request.
proof fn lemma_settle(w: WalkView, frames: Seq<FrameView>, root: UiElement, base: int)
    requires
        frames.len() > 0,
        forall|k: int|
            0 <= k < frames.len() - 1 ==> #[trigger] frame_waits(root, frames, w.opts, base, k),
        frames.last().depth == base + frames.len() - 1,
        ({
            let top = frames.last();
            let element = element_at(root, frames, frames.len() - 1);
            ||| frame_listed(top, element, w.opts)
            ||| top.count == 0 && top.next == 0 && top.node == crate::node::node_of(
                element,
                w.opts,
                top.depth,
            )
        }),
    ensures
        follows(crate::walk::settled(w, frames), root, base),
        remaining(crate::walk::settled(w, frames), root) == waiting_cost(
            root,
            frames,
            w.opts,
            frames.len() - 1,
        ) + if frames.last().next < frames.last().count {
            later_cost(
                element_at(root, frames, frames.len() - 1),
                w.opts,
                frames.last().depth,
                frames.last().next as int,
            )
        } else {
            0
        },
    decreases frames.len(),
{
    let n = frames.len() as int;
    let top = frames.last();
    let element = element_at(root, frames, n - 1);
    if top.next < top.count {
    } else {
        if frame_listed(top, element, w.opts) {
            assert(top.node == crate::node::node_of(element, w.opts, top.depth)) by {
                let list = element.children->0;
                assert(crate::node::child_nodes(list, top.next as int, w.opts, top.depth + 1)
                    == crate::node::child_nodes(
                    list,
                    list.count() as int,
                    w.opts,
                    top.depth + 1,
                ));
            }
        }
        if n > 1 {
            let parent = frames[n - 2];
            assert(frame_waits(root, frames, w.opts, base, n - 2));
            let above = element_at(root, frames, n - 2);
            let grown = FrameView {
                node: crate::walk::with_child(parent.node, top.node),
                next: (parent.next + 1) as i32,
                ..parent
            };
            let next_frames = frames.drop_last().drop_last().push(grown);
            assert forall|j: int| 0 <= j < n - 2 implies frames[j] == next_frames[j] by {}
            lemma_waits_prefix(root, frames, next_frames, w.opts, base, n - 2);
            lemma_prefix(root, frames, next_frames, w.opts, n - 2);
            assert(next_frames.last() == grown);
            let list = above.children->0;
            assert(element == list.item(parent.next as int)->0);
            assert(crate::node::child_nodes(list, parent.next + 1, w.opts, parent.depth + 1)
                == crate::node::child_nodes(
                list,
                parent.next as int,
                w.opts,
                parent.depth + 1,
            ).push(top.node));
            assert(grown.node == partial_node(above, w.opts, parent.depth, parent.next + 1));
            assert(frame_listed(grown, above, w.opts));
            lemma_settle(w, next_frames, root, base);
            assert(crate::walk::settled(w, frames) == crate::walk::settled(w, next_frames));
            if !(grown.next < grown.count) {
                assert(parent.next + 1 == list.count());
            }
        }
    }
}

/// A walk that has just begun follows every tree, and has the requests for all of it before
/// it.
pub proof fn law_walk_starts(root: UiElement, opts: TreeOptions, depth: int)
    ensures
        follows(crate::walk::start(opts, depth), root, depth),
        remaining(crate::walk::start(opts, depth), root) == visit_cost(root, opts, depth),
{
}

/// A walk that gets its replies from a tree stays on that tree, and each reply brings it one
/// request nearer to its end.
pub proof fn law_walk_steps(w: WalkView, root: UiElement, base: int)
    requires
        follows(w, root, base),
        !(w.phase is Done),
    ensures
        follows(crate::walk::step(w, truthful(w, root)), root, base),
        remaining(crate::walk::step(w, truthful(w, root)), root) == remaining(w, root) - 1,
        remaining(w, root) >= 1,
{
    let n = w.frames.len() as int;
    let reply = truthful(w, root);
    let after = crate::walk::step(w, reply);
    lemma_remaining(w, root, base);
    match w.phase {
        PhaseView::Describe(depth) => {
            let element = element_at(root, w.frames, n);
            let head = crate::node::head_node(element.props, w.opts);
            let frame = FrameView { node: head, depth, count: 0, next: 0 };
            let frames = w.frames.push(frame);
            lemma_prefix(root, w.frames, frames, w.opts, n);
            lemma_waits_prefix(root, w.frames, frames, w.opts, base, n);
            assert(frames.last() == frame);
            if !(depth < w.opts.max_depth) {
                lemma_settle(w, frames, root, base);
            }
        },
        PhaseView::List => {
            let element = element_at(root, w.frames, n - 1);
            let top = w.frames.last();
            match element.children {
                Some(list) => {
                    let node = NodeView {
                        children_count: Some(crate::node::as_unsigned(list.count())),
                        ..top.node
                    };
                    let grown = FrameView { node, count: list.count(), ..top };
                    let frames = w.frames.drop_last().push(grown);
                    lemma_prefix(root, w.frames, frames, w.opts, n - 1);
                    lemma_waits_prefix(root, w.frames, frames, w.opts, base, n - 1);
                    assert(frames.last() == grown);
                    assert(node == partial_node(element, w.opts, top.depth, 0));
                    lemma_settle(w, frames, root, base);
                },
                None => {
                    lemma_settle(w, w.frames, root, base);
                },
            }
        },
        PhaseView::Open => {
            let element = element_at(root, w.frames, n - 1);
            let top = w.frames.last();
            let list = element.children->0;
            if list.item(top.next as int) is Some {
                assert(frame_waits(root, w.frames, w.opts, base, n - 1));
            } else {
                let grown = FrameView { next: (top.next + 1) as i32, ..top };
                let frames = w.frames.drop_last().push(grown);
                lemma_prefix(root, w.frames, frames, w.opts, n - 1);
                lemma_waits_prefix(root, w.frames, frames, w.opts, base, n - 1);
                assert(frames.last() == grown);
                assert(grown.node == partial_node(element, w.opts, top.depth, top.next + 1));
                lemma_settle(w, frames, root, base);
            }
        },
        PhaseView::Done(_) => {},
    }
}

/// The costs that `later_cost` sums up are not negative.
proof fn lemma_later(element: UiElement, opts: TreeOptions, depth: int, next: int)
    requires
        next <= element.children->0.count(),
    ensures
        later_cost(element, opts, depth, next) >= 0,
        next < element.children->0.count() && next >= 0 ==> later_cost(element, opts, depth, next)
            >= 1,
    decreases element.children->0.count() - next,
{
    let list = element.children->0;
    if next < list.count() {
        lemma_later(element, opts, depth, next + 1);
        if 0 <= next < list.items@.len() && list.items@[next] is Some {
            lemma_visit_positive(list.items@[next]->0, opts, depth + 1);
        }
    }
}

proof fn lemma_waiting(root: UiElement, frames: Seq<FrameView>, opts: TreeOptions, base: int, k: int)
    requires
        0 <= k <= frames.len(),
        forall|j: int| 0 <= j < k ==> #[trigger] frame_waits(root, frames, opts, base, j),
    ensures
        waiting_cost(root, frames, opts, k) >= 0,
    decreases k,
{
    if k > 0 {
        lemma_waiting(root, frames, opts, base, k - 1);
        assert(frame_waits(root, frames, opts, base, k - 1));
        let frame = frames[k - 1];
        lemma_later(element_at(root, frames, k - 1), opts, frame.depth, frame.next + 1);
    }
}

/// A walk that is not finished has a request left.
proof fn lemma_remaining(w: WalkView, root: UiElement, base: int)
    requires
        follows(w, root, base),
    ensures
        remaining(w, root) >= 0,
        !(w.phase is Done) ==> remaining(w, root) >= 1,
{
    let n = w.frames.len() as int;
    match w.phase {
        PhaseView::Describe(depth) => {
            lemma_waiting(root, w.frames, w.opts, base, n);
            lemma_visit_positive(element_at(root, w.frames, n), w.opts, depth);
        },
        PhaseView::List => {
            let element = element_at(root, w.frames, n - 1);
            lemma_waiting(root, w.frames, w.opts, base, n - 1);
            if element.children is Some {
                let list = element.children->0;
                lemma_cost_nonnegative(
                    list,
                    list.count() as int,
                    w.opts,
                    w.frames.last().depth + 1,
                );
            }
        },
        PhaseView::Open => {
            let top = w.frames.last();
            lemma_waiting(root, w.frames, w.opts, base, n - 1);
            lemma_later(element_at(root, w.frames, n - 1), w.opts, top.depth, top.next as int);
        },
        PhaseView::Done(_) => {},
    }
}

/// The walk after `replies` replies from the tree under `root`.
pub open spec fn driven(w: WalkView, root: UiElement, replies: nat) -> WalkView
    decreases replies,
{
    if replies == 0 {
        w
    } else {
        driven(crate::walk::step(w, truthful(w, root)), root, (replies - 1) as nat)
    }
}

proof fn lemma_driven(w: WalkView, root: UiElement, base: int)
    requires
        follows(w, root, base),
    ensures
        driven(w, root, remaining(w, root) as nat).phase == PhaseView::Done(
            crate::node::node_of(root, w.opts, base),
        ),
    decreases remaining(w, root),
{
    lemma_remaining(w, root, base);
    if !(w.phase is Done) {
        law_walk_steps(w, root, base);
        lemma_driven(crate::walk::step(w, truthful(w, root)), root, base);
    }
}

/// A walk over a tree ends with the node of its root, after one reply for each request that
/// the tree costs.
pub proof fn law_walk_ends(root: UiElement, opts: TreeOptions, depth: int)
    ensures
        driven(
            crate::walk::start(opts, depth),
            root,
            visit_cost(root, opts, depth) as nat,
        ).phase == PhaseView::Done(crate::node::node_of(root, opts, depth)),
{
    law_walk_starts(root, opts, depth);
    lemma_driven(crate::walk::start(opts, depth), root, depth);
}

/// Settling drops frames and changes at most the last that it leaves.
proof fn lemma_settle_prefix(frames: Seq<FrameView>)
    requires
        frames.len() > 0,
    ensures
        crate::walk::settle(frames).0.len() <= frames.len(),
        crate::walk::settle(frames).1 is Open || crate::walk::settle(frames).1 is Done,
        forall|j: int|
            0 <= j < crate::walk::settle(frames).0.len() - 1 ==> frames[j]
                == #[trigger] crate::walk::settle(frames).0[j],
    decreases frames.len(),
{
    let top = frames.last();
    if frames.len() > 1 && !(top.next < top.count) {
        let parent = frames[frames.len() - 2];
        let grown = FrameView {
            node: crate::walk::with_child(parent.node, top.node),
            next: (parent.next + 1) as i32,
            ..parent
        };
        let next_frames = frames.drop_last().drop_last().push(grown);
        lemma_settle_prefix(next_frames);
        assert(crate::walk::settle(frames) == crate::walk::settle(next_frames));
    }
}

/// A reply adds a frame at most, and that only to a walk that asked for properties. It leaves
/// all frames below the last as they are.
proof fn lemma_step_frames(w: WalkView, root: UiElement, base: int)
    requires
        follows(w, root, base),
        !(w.phase is Done),
    ensures
        ({
            let after = crate::walk::step(w, truthful(w, root));
            let n = w.frames.len();
            &&& after.frames.len() <= n + 1
            &&& !(w.phase is Describe) ==> after.frames.len() <= n
            &&& after.phase is List ==> after.frames.len() == n + 1
            &&& after.phase is Describe ==> w.phase is Open && after.frames == w.frames
            &&& forall|j: int|
                0 <= j < after.frames.len() - 1 ==> w.frames[j] == #[trigger] after.frames[j]
        }),
{
    let top = w.frames.last();
    match truthful(w, root) {
        TreeReply::Described(props) => {
            let node = crate::node::head_node(props, w.opts);
            let depth = w.phase->Describe_0;
            lemma_settle_prefix(w.frames.push(FrameView { node, depth, count: 0, next: 0 }));
        },
        TreeReply::Listed(length) => {
            let count: i32 = match length {
                Some(n) => n,
                None => 0,
            };
            let node = NodeView {
                children_count: Some(crate::node::as_unsigned(count)),
                ..top.node
            };
            lemma_settle_prefix(w.frames.drop_last().push(FrameView { node, count, ..top }));
        },
        TreeReply::Unlisted => {
            lemma_settle_prefix(w.frames);
        },
        TreeReply::Opened => {},
        TreeReply::Missing => {
            let next = (top.next + 1) as i32;
            lemma_settle_prefix(w.frames.drop_last().push(FrameView { next, ..top }));
        },
    }
}

/// A second copy of the properties.
fn copy_props(props: &ElementProps) -> (copy: ElementProps)
    ensures
        copy == *props,
{
    let name: Option<String> = match &props.name {
        Some(name) => Some(name.clone()),
        None => None,
    };
    ElementProps {
        name,
        control_type: props.control_type,
        focused: props.focused,
        rect: props.rect,
    }
}

/// The child at `index`, where it can be opened.
fn child_at(element: &UiElement, index: i32) -> (child: Option<&UiElement>)
    requires
        element.children is Some,
        index >= 0,
    ensures
        match element.children->0.item(index as int) {
            Some(e) => child matches Some(c) && *c == e,
            None => child is None,
        },
{
    match &element.children {
        Some(list) => {
            if index as usize >= list.items.len() {
                return None;
            }
            match &list.items[index as usize] {
                Some(child) => Some(child),
                None => None,
            }
        },
        None => None,
    }
}

/// Visits a tree that is at hand as a whole.
fn visit(root: &UiElement, opts: &TreeOptions, depth: u8) -> (node: AccessibilityNode)
    requires
        crate::node::tree_measurable(*root, *opts, depth as int),
    ensures
        node@ == crate::node::node_of(*root, *opts, depth as int),
{
    let mut walk = TreeWalk::new(*opts, depth);
    let mut path: Vec<&UiElement> = Vec::new();
    path.push(root);
    proof {
        law_walk_starts(*root, *opts, depth as int);
    }
    loop
        invariant
            walk@.opts == *opts,
            follows(walk@, *root, depth as int),
            path@.len() >= walk@.frames.len(),
            walk@.phase is Describe ==> path@.len() == walk@.frames.len() + 1,
            walk@.phase is List ==> path@.len() == walk@.frames.len(),
            forall|k: int|
                0 <= k < walk@.frames.len() || k == walk@.frames.len() && walk@.phase is Describe
                    ==> *(#[trigger] path@[k]) == element_at(*root, walk@.frames, k),
            forall|k: int|
                0 <= k < path@.len() ==> crate::node::tree_measurable(
                    *(#[trigger] path@[k]),
                    *opts,
                    depth + k,
                ),
        decreases remaining(walk@, *root),
    {
        let ghost before = walk@;
        let ghost n = walk@.frames.len() as int;
        let reply: TreeReply = match walk.request() {
            TreeRequest::Describe { bounds: _ } => {
                let element: &UiElement = path[path.len() - 1];
                TreeReply::Described(copy_props(&element.props))
            },
            TreeRequest::ListChildren => {
                let element: &UiElement = path[path.len() - 1];
                match &element.children {
                    Some(list) => TreeReply::Listed(list.length),
                    None => TreeReply::Unlisted,
                }
            },
            TreeRequest::OpenChild { level, index } => {
                path.truncate(level + 1);
                let element: &UiElement = path[level];
                match child_at(element, index) {
                    Some(child) => {
                        path.push(child);
                        TreeReply::Opened
                    },
                    None => TreeReply::Missing,
                }
            },
            TreeRequest::Finished => {
                return walk.into_node().unwrap();
            },
        };
        proof {
            law_walk_steps(before, *root, depth as int);
            lemma_step_frames(before, *root, depth as int);
            assert(reply == truthful(before, *root));
        }
        walk = walk.answer(reply);
        proof {
            assert forall|k: int|
                0 <= k < walk@.frames.len() || k == walk@.frames.len()
                    && walk@.phase is Describe implies *(#[trigger] path@[k]) == element_at(
                *root,
                walk@.frames,
                k,
            ) by {
                if k < walk@.frames.len() {
                    lemma_prefix(*root, before.frames, walk@.frames, *opts, k);
                } else {
                    assert(*path@[n] == element_at(*root, before.frames, n));
                }
            }
        }
    }
}

impl WindowsAdapter {
    /// The node for an element that lies at level `depth`, with all that is visited below it.
    pub fn traverse_element(&self, element: &UiElement, opts: &TreeOptions, depth: u8) -> (r: Result<
        AccessibilityNode,
        AdapterError,
    >)
        requires
            crate::node::tree_measurable(*element, *opts, depth as int),
        ensures
            r matches Ok(node) && node@ == crate::node::node_of(*element, *opts, depth as int),
    {
        Ok(visit(element, opts, depth))
    }
}

} // verus!
