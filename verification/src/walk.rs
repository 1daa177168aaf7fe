//! The visit of an element tree, one request to the automation interface at a time.
//!
//! A [`TreeWalk`] says what to read next; the caller reads it and hands the reply back. The
//! caller keeps the elements that were opened on a stack of its own, level by level.
use crate::node::{
    describe, to_unsigned, AccessibilityNode, ElementProps, NodeView, TreeOptions,
};
use vstd::prelude::*;

verus! {

/// What a walk asks for.
#[derive(Debug, Clone, Copy, PartialEq, Eq)]
pub enum TreeRequest {
    /// The properties of the element opened last, its rectangle only where `bounds` holds.
    Describe { bounds: bool },
    /// The list of the children of the element described last.
    ListChildren,
    /// The child at `index` of the element at `level` on the stack; those above it are done.
    OpenChild { level: usize, index: i32 },
    /// Nothing more.
    Finished,
}

/// What the automation interface replied.
#[derive(Debug, PartialEq, Eq)]
pub enum TreeReply {
    Described(ElementProps),
    /// The children were listed; the length is `None` where it could not be read.
    Listed(Option<i32>),
    /// The children could not be listed.
    Unlisted,
    /// The child was opened and is now on top of the stack.
    Opened,
    /// The child could not be opened.
    Missing,
}

/// An element whose children are being visited.
struct Frame {
    node: AccessibilityNode,
    depth: u8,
    count: i32,
    next: i32,
}

enum WalkPhase {
    Describe(u8),
    List,
    Open,
    Done(AccessibilityNode),
}

/// A visit under way.
pub struct TreeWalk {
    opts: TreeOptions,
    frames: Vec<Frame>,
    phase: WalkPhase,
}

/// An element whose children are being visited: the node so far, its level, how many children
/// it has and which is next.
pub struct FrameView {
    pub node: NodeView,
    pub depth: int,
    pub count: i32,
    pub next: i32,
}

/// What a walk waits for.
pub enum PhaseView {
    Describe(int),
    List,
    Open,
    Done(NodeView),
}

/// A walk as a mathematical value; the last frame is the deepest.
pub struct WalkView {
    pub opts: TreeOptions,
    pub frames: Seq<FrameView>,
    pub phase: PhaseView,
}

impl Frame {
    spec fn view(&self) -> FrameView {
        FrameView {
            node: self.node@,
            depth: self.depth as int,
            count: self.count,
            next: self.next,
        }
    }
}

impl WalkPhase {
    spec fn view(&self) -> PhaseView {
        match self {
            WalkPhase::Describe(depth) => PhaseView::Describe(*depth as int),
            WalkPhase::List => PhaseView::List,
            WalkPhase::Open => PhaseView::Open,
            WalkPhase::Done(node) => PhaseView::Done(node@),
        }
    }
}

spec fn frames_view(frames: Seq<Frame>) -> Seq<FrameView> {
    frames.map_values(|f: Frame| f@)
}

/// A node with one more child.
pub open spec fn with_child(node: NodeView, child: NodeView) -> NodeView {
    NodeView { children: node.children.push(child), ..node }
}

/// The walk that begins at level `depth`.
pub open spec fn start(opts: TreeOptions, depth: int) -> WalkView {
    WalkView { opts, frames: Seq::empty(), phase: PhaseView::Describe(depth) }
}

/// What follows once the deepest frame has moved on: its next child where it has one left,
/// and otherwise its node becomes a child of the frame above it, or the whole result.
pub open spec fn settle(frames: Seq<FrameView>) -> (Seq<FrameView>, PhaseView)
    decreases frames.len(),
{
    let top = frames.last();
    if frames.len() == 0 || top.next < top.count {
        (frames, PhaseView::Open)
    } else if frames.len() == 1 {
        (Seq::empty(), PhaseView::Done(top.node))
    } else {
        let parent = frames[frames.len() - 2];
        let grown = FrameView {
            node: with_child(parent.node, top.node),
            next: (parent.next + 1) as i32,
            ..parent
        };
        settle(frames.drop_last().drop_last().push(grown))
    }
}

/// The walk with the frames settled.
pub open spec fn settled(w: WalkView, frames: Seq<FrameView>) -> WalkView {
    WalkView { frames: settle(frames).0, phase: settle(frames).1, ..w }
}

/// The walk after a reply. A reply to something that was not asked changes nothing.
pub open spec fn step(w: WalkView, reply: TreeReply) -> WalkView {
    match (w.phase, reply) {
        (PhaseView::Describe(depth), TreeReply::Described(props)) => {
            let head = crate::node::head_node(props, w.opts);
            let frames = w.frames.push(FrameView { node: head, depth, count: 0, next: 0 });
            if depth < w.opts.max_depth {
                WalkView { frames, phase: PhaseView::List, ..w }
            } else {
                settled(w, frames)
            }
        },
        (PhaseView::List, TreeReply::Listed(length)) => {
            let count: i32 = match length {
                Some(n) => n,
                None => 0,
            };
            let top = w.frames.last();
            let node = NodeView {
                children_count: Some(crate::node::as_unsigned(count)),
                ..top.node
            };
            settled(w, w.frames.drop_last().push(FrameView { node, count, ..top }))
        },
        (PhaseView::List, TreeReply::Unlisted) => settled(w, w.frames),
        (PhaseView::Open, TreeReply::Opened) => WalkView {
            phase: PhaseView::Describe(w.frames.last().depth + 1),
            ..w
        },
        (PhaseView::Open, TreeReply::Missing) => {
            let top = w.frames.last();
            let next = (top.next + 1) as i32;
            settled(w, w.frames.drop_last().push(FrameView { next, ..top }))
        },
        _ => w,
    }
}

/// What the walk asks for.
pub open spec fn request_of(w: WalkView) -> TreeRequest {
    match w.phase {
        PhaseView::Describe(_) => TreeRequest::Describe { bounds: w.opts.include_bounds },
        PhaseView::List => TreeRequest::ListChildren,
        PhaseView::Open => TreeRequest::OpenChild {
            level: (w.frames.len() - 1) as usize,
            index: w.frames.last().next,
        },
        PhaseView::Done(_) => TreeRequest::Finished,
    }
}

proof fn lemma_grown_view(before: AccessibilityNode, after: AccessibilityNode, child: AccessibilityNode)
    requires
        after == (AccessibilityNode { children: after.children, ..before }),
        after.children@ == before.children@.push(child),
    ensures
        after@ == with_child(before@, child@),
{
    assert(after@.children == before@.children.push(child@));
}

/// Settles the frames: see the specification of the same name.
fn settle_frames(given: Vec<Frame>) -> (r: (Vec<Frame>, WalkPhase))
    requires
        given@.len() > 0,
        forall|k: int| 0 <= k < given@.len() - 1 ==> (#[trigger] given@[k]).next < given@[k].count,
    ensures
        (frames_view(r.0@), r.1@) == settle(frames_view(given@)),
        r.1 is Open || r.1 is Done,
        r.1 is Done ==> r.0@.len() == 0,
        r.1 is Open ==> 0 < r.0@.len() <= given@.len(),
        given@.last().next >= given@.last().count ==> r.0@.len() < given@.len(),
        forall|k: int| 0 <= k < r.0@.len() ==> (#[trigger] r.0@[k]).next < r.0@[k].count,
        forall|k: int| 0 <= k < r.0@.len() ==> (#[trigger] r.0@[k]).depth == given@[k].depth,
{
    let mut frames = given;
    loop
        invariant
            0 < frames@.len() <= given@.len(),
            frames@.len() == given@.len() ==> frames@ == given@,
            settle(frames_view(frames@)) == settle(frames_view(given@)),
            forall|k: int|
                0 <= k < frames@.len() - 1 ==> (#[trigger] frames@[k]).next < frames@[k].count,
            forall|k: int| 0 <= k < frames@.len() ==> (#[trigger] frames@[k]).depth == given@[k].depth,
        decreases frames@.len(),
    {
        let ghost before = frames@;
        let ghost view = frames_view(frames@);
        let top = frames.pop().unwrap();
        assert(view.last() == top@);
        if top.next < top.count {
            frames.push(top);
            assert(frames@ == before);
            return (frames, WalkPhase::Open);
        }
        match frames.pop() {
            Some(parent) => {
                let ghost old_parent = parent;
                let ghost child = top.node;
                let mut parent = parent;
                assert(view[view.len() - 2] == before[before.len() - 2]@);
                parent.node.children.push(top.node);
                parent.next = parent.next + 1;
                proof {
                    lemma_grown_view(old_parent.node, parent.node, child);
                }
                frames.push(parent);
                assert(frames_view(frames@) == view.drop_last().drop_last().push(parent@));
            },
            None => {
                assert(frames_view(frames@) == Seq::<FrameView>::empty());
                return (frames, WalkPhase::Done(top.node));
            },
        }
    }
}

impl TreeWalk {
    /// The walk as a mathematical value.
    pub closed spec fn view(&self) -> WalkView {
        WalkView { opts: self.opts, frames: frames_view(self.frames@), phase: self.phase@ }
    }

    #[verifier::type_invariant]
    spec fn well_formed(self) -> bool {
        let n = self.frames@.len();
        &&& forall|k: int|
            0 <= k < n - 1 ==> (#[trigger] self.frames@[k]).next < self.frames@[k].count
        &&& forall|k: int|
            0 <= k < n - 1 ==> (#[trigger] self.frames@[k]).depth < self.opts.max_depth
        &&& match self.phase {
            WalkPhase::Describe(_) => n > 0 ==> self.frames@[n - 1].next < self.frames@[n - 1].count
                && self.frames@[n - 1].depth < self.opts.max_depth,
            WalkPhase::List => n > 0 && self.frames@[n - 1].depth < self.opts.max_depth,
            WalkPhase::Open => n > 0 && self.frames@[n - 1].next < self.frames@[n - 1].count
                && self.frames@[n - 1].depth < self.opts.max_depth,
            WalkPhase::Done(_) => n == 0,
        }
    }

    /// Begins a walk whose root lies at level `depth`.
    pub fn new(opts: TreeOptions, depth: u8) -> (walk: TreeWalk)
        ensures
            walk@ == start(opts, depth as int),
    {
        let walk = TreeWalk { opts, frames: Vec::new(), phase: WalkPhase::Describe(depth) };
        assert(walk@.frames == Seq::<FrameView>::empty());
        walk
    }

    /// What to read next.
    pub fn request(&self) -> (request: TreeRequest)
        ensures
            request == request_of(self@),
    {
        proof {
            use_type_invariant(self);
        }
        match &self.phase {
            WalkPhase::Describe(_) => TreeRequest::Describe { bounds: self.opts.include_bounds },
            WalkPhase::List => TreeRequest::ListChildren,
            WalkPhase::Open => {
                let level: usize = self.frames.len() - 1;
                assert(self@.frames.last() == self.frames@[level as int]@);
                TreeRequest::OpenChild { level, index: self.frames[level].next }
            },
            WalkPhase::Done(_) => TreeRequest::Finished,
        }
    }

    /// Takes the reply to the last request.
    pub fn answer(self, reply: TreeReply) -> (walk: TreeWalk)
        requires
            self@.phase is Describe ==> (reply matches TreeReply::Described(props)
                ==> crate::node::props_measurable(props, self@.opts)),
        ensures
            walk@ == step(self@, reply),
    {
        proof {
            use_type_invariant(&self);
        }
        let ghost given = self@;
        let TreeWalk { opts, frames, phase } = self;
        let mut frames = frames;
        match (phase, reply) {
            (WalkPhase::Describe(depth), TreeReply::Described(props)) => {
                let node = describe(props, &opts);
                let frame = Frame { node, depth, count: 0, next: 0 };
                frames.push(frame);
                assert(frames_view(frames@) == given.frames.push(frame@));
                if depth < opts.max_depth {
                    TreeWalk { opts, frames, phase: WalkPhase::List }
                } else {
                    let (frames, phase) = settle_frames(frames);
                    TreeWalk { opts, frames, phase }
                }
            },
            (WalkPhase::List, TreeReply::Listed(length)) => {
                let count: i32 = match length {
                    Some(n) => n,
                    None => 0,
                };
                let mut top = frames.pop().unwrap();
                top.node.children_count = Some(to_unsigned(count));
                top.count = count;
                frames.push(top);
                assert(frames_view(frames@) == given.frames.drop_last().push(top@));
                let (frames, phase) = settle_frames(frames);
                TreeWalk { opts, frames, phase }
            },
            (WalkPhase::List, TreeReply::Unlisted) => {
                let (frames, phase) = settle_frames(frames);
                TreeWalk { opts, frames, phase }
            },
            (WalkPhase::Open, TreeReply::Opened) => {
                let depth: u8 = frames[frames.len() - 1].depth;
                TreeWalk { opts, frames, phase: WalkPhase::Describe(depth + 1) }
            },
            (WalkPhase::Open, TreeReply::Missing) => {
                let mut top = frames.pop().unwrap();
                top.next = top.next + 1;
                frames.push(top);
                assert(frames_view(frames@) == given.frames.drop_last().push(top@));
                let (frames, phase) = settle_frames(frames);
                TreeWalk { opts, frames, phase }
            },
            (phase, _) => {
                TreeWalk { opts, frames, phase }
            },
        }
    }

    /// The tree, once the walk is finished.
    pub fn into_node(self) -> (node: Option<AccessibilityNode>)
        ensures
            match self@.phase {
                PhaseView::Done(view) => node matches Some(n) && n@ == view,
                _ => node is None,
            },
    {
        match self.phase {
            WalkPhase::Done(node) => Some(node),
            _ => None,
        }
    }
}

/// A walk begins at the level that it is given, with nothing on the stack.
pub proof fn law_start(opts: TreeOptions, depth: int)
    ensures
        start(opts, depth).opts == opts,
        start(opts, depth).frames.len() == 0,
        start(opts, depth).phase == PhaseView::Describe(depth),
{
}

/// What a walk asks for in each phase: rectangles just where they are wanted, and the next
/// child of the element on top of the stack.
pub proof fn law_requests(w: WalkView)
    requires
        w.frames.len() <= usize::MAX,
        w.phase is Open ==> w.frames.len() > 0,
    ensures
        request_of(w) is Describe <==> w.phase is Describe,
        request_of(w) matches TreeRequest::Describe { bounds } ==> bounds == w.opts.include_bounds,
        request_of(w) is ListChildren <==> w.phase is List,
        request_of(w) is OpenChild <==> w.phase is Open,
        request_of(w) matches TreeRequest::OpenChild { level, index } ==> level + 1
            == w.frames.len() && index == w.frames[level as int].next,
        request_of(w) is Finished <==> w.phase is Done,
{
}

/// A reply to something that was not asked changes nothing, a walk that is finished stays so,
/// and no reply changes what is wanted of the tree.
pub proof fn law_stray_replies(w: WalkView, reply: TreeReply)
    ensures
        step(w, reply).opts == w.opts,
        !(w.phase is Describe) && reply is Described ==> step(w, reply) == w,
        !(w.phase is List) && (reply is Listed || reply is Unlisted) ==> step(w, reply) == w,
        !(w.phase is Open) && (reply is Opened || reply is Missing) ==> step(w, reply) == w,
        w.phase is Done ==> step(w, reply) == w,
{
}

/// A child that is opened is described next, one level below its parent; what was visited
/// before stays as it was.
pub proof fn law_opened_child_is_described(w: WalkView)
    requires
        w.phase is Open,
    ensures
        step(w, TreeReply::Opened).frames == w.frames,
        step(w, TreeReply::Opened).phase == PhaseView::Describe(w.frames.last().depth + 1),
{
}

/// Where children are left to visit, a child that cannot be opened is skipped: the next one is
/// asked for, and the node of the parent stays as it was.
pub proof fn law_missing_child_is_skipped(w: WalkView)
    requires
        w.phase is Open,
        w.frames.len() > 0,
        w.frames.last().next + 1 < w.frames.last().count,
    ensures
        step(w, TreeReply::Missing).phase is Open,
        step(w, TreeReply::Missing).frames.len() == w.frames.len(),
        step(w, TreeReply::Missing).frames.drop_last() == w.frames.drop_last(),
        step(w, TreeReply::Missing).frames.last() == (FrameView {
            next: (w.frames.last().next + 1) as i32,
            ..w.frames.last()
        }),
{
}

/// A length that cannot be read counts as zero.
pub proof fn law_unreadable_length_is_zero(w: WalkView)
    ensures
        step(w, TreeReply::Listed(None)) == step(w, TreeReply::Listed(Some(0))),
{
}

} // verus!
