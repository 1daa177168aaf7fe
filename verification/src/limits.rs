//! What holds of a walk whatever it is told: it stays above the deepest level, and it ends.
//!
//! The replies need not come from one tree. Children may hold one another, or go on without
//! end.
use crate::node::{NodeView, TreeOptions};
use crate::walk::{FrameView, PhaseView, TreeReply, WalkView};
use vstd::prelude::*;

verus! {

/// The number of levels that lie below level `depth` and are visited.
pub open spec fn levels_below(opts: TreeOptions, depth: int) -> int {
    if depth < opts.max_depth {
        opts.max_depth - depth
    } else {
        0
    }
}

/// The number of requests that an element with this many levels below it costs at most: one
/// for its properties, and above the deepest level one for its list, and one to open each of
/// as many children as can be counted, with what each of them costs.
pub open spec fn most_requests(levels: int) -> int
    decreases levels,
{
    if levels <= 0 {
        1
    } else {
        2 + i32::MAX * (1 + most_requests(levels - 1))
    }
}

/// The number of elements that are open at once: those with a frame, and one that was opened
/// and is yet to be described.
pub open spec fn open_elements(w: WalkView) -> int {
    w.frames.len() + if w.phase is Describe {
        1int
    } else {
        0
    }
}

/// The reply answers what the walk asks for.
pub open spec fn fits(w: WalkView, reply: TreeReply) -> bool {
    match w.phase {
        PhaseView::Describe(_) => reply is Described,
        PhaseView::List => reply is Listed || reply is Unlisted,
        PhaseView::Open => reply is Opened || reply is Missing,
        PhaseView::Done(_) => false,
    }
}

/// The walk after the first `n` replies.
pub open spec fn after_replies(w: WalkView, replies: Seq<TreeReply>, n: int) -> WalkView
    decreases n,
{
    if n <= 0 {
        w
    } else {
        crate::walk::step(after_replies(w, replies, n - 1), replies[n - 1])
    }
}

/// The frame waits for one of its children to be visited.
pub open spec fn waits(frame: FrameView, opts: TreeOptions) -> bool {
    frame.depth < opts.max_depth && frame.next < frame.count
}

/// Every frame lies one level below the one before, and all but the last wait for a child.
pub open spec fn stacked(frames: Seq<FrameView>, opts: TreeOptions, base: int) -> bool {
    &&& forall|k: int|
        0 <= k < frames.len() ==> (#[trigger] frames[k]).depth == base + k && frames[k].next >= 0
    &&& forall|k: int| 0 <= k < frames.len() - 1 ==> waits(#[trigger] frames[k], opts)
}

/// The walk, whose root lies at level `base`, stays above the deepest level.
pub open spec fn bounded(w: WalkView, base: int) -> bool {
    let top = w.frames.last();
    &&& stacked(w.frames, w.opts, base)
    &&& match w.phase {
        PhaseView::Describe(depth) => depth == base + w.frames.len() && (w.frames.len() > 0
            ==> waits(top, w.opts)),
        PhaseView::List => w.frames.len() > 0 && top.depth < w.opts.max_depth && top.count == 0
            && top.next == 0,
        PhaseView::Open => w.frames.len() > 0 && waits(top, w.opts),
        PhaseView::Done(_) => w.frames.len() == 0,
    }
}

/// The number of requests for one child of a frame at most: to open it, and what it costs.
pub open spec fn child_requests(frame: FrameView, opts: TreeOptions) -> int {
    1 + most_requests(opts.max_depth - frame.depth - 1)
}

/// The number of requests at most for the children behind the one that each of the first `k`
/// frames waits for.
pub open spec fn requests_behind(frames: Seq<FrameView>, opts: TreeOptions, k: int) -> int
    decreases k,
{
    if k <= 0 {
        0
    } else {
        let frame = frames[k - 1];
        requests_behind(frames, opts, k - 1) + (frame.count - frame.next - 1) * child_requests(
            frame,
            opts,
        )
    }
}

/// The number of requests that the walk still makes at most.
pub open spec fn requests_left(w: WalkView) -> int {
    let n = w.frames.len() as int;
    let top = w.frames.last();
    match w.phase {
        PhaseView::Describe(depth) => requests_behind(w.frames, w.opts, n) + most_requests(
            levels_below(w.opts, depth),
        ),
        PhaseView::List => requests_behind(w.frames, w.opts, n - 1) + most_requests(
            levels_below(w.opts, top.depth),
        ) - 1,
        PhaseView::Open => requests_behind(w.frames, w.opts, n - 1) + (top.count - top.next)
            * child_requests(top, w.opts),
        PhaseView::Done(_) => 0,
    }
}

proof fn lemma_most_requests(levels: int)
    ensures
        most_requests(levels) >= 1,
        levels > 0 ==> most_requests(levels) >= 2,
    decreases levels,
{
    if levels > 0 {
        lemma_most_requests(levels - 1);
        let unit = 1 + most_requests(levels - 1);
        assert(i32::MAX * unit >= 0) by (nonlinear_arith)
            requires
                unit >= 0,
        ;
    }
}

proof fn lemma_same_behind(a: Seq<FrameView>, b: Seq<FrameView>, opts: TreeOptions, k: int)
    requires
        0 <= k <= a.len(),
        k <= b.len(),
        forall|j: int| 0 <= j < k ==> a[j] == b[j],
    ensures
        requests_behind(a, opts, k) == requests_behind(b, opts, k),
    decreases k,
{
    if k > 0 {
        lemma_same_behind(a, b, opts, k - 1);
    }
}

proof fn lemma_behind_nonnegative(frames: Seq<FrameView>, opts: TreeOptions, k: int)
    requires
        0 <= k <= frames.len(),
        forall|j: int| 0 <= j < k ==> waits(#[trigger] frames[j], opts),
    ensures
        requests_behind(frames, opts, k) >= 0,
    decreases k,
{
    if k > 0 {
        lemma_behind_nonnegative(frames, opts, k - 1);
        let frame = frames[k - 1];
        let more = frame.count - frame.next - 1;
        let unit = child_requests(frame, opts);
        assert(waits(frames[k - 1], opts));
        lemma_most_requests(opts.max_depth - frame.depth - 1);
        assert(more * unit >= 0) by (nonlinear_arith)
            requires
                more >= 0,
                unit >= 0,
        ;
    }
}

/// Settling keeps a walk above the deepest level and costs no request.
proof fn lemma_settle_bounded(w: WalkView, frames: Seq<FrameView>, base: int)
    requires
        frames.len() > 0,
        stacked(frames, w.opts, base),
        frames.last().next < frames.last().count ==> waits(frames.last(), w.opts),
    ensures
        bounded(crate::walk::settled(w, frames), base),
        requests_left(crate::walk::settled(w, frames)) == requests_behind(
            frames,
            w.opts,
            frames.len() - 1,
        ) + if frames.last().next < frames.last().count {
            (frames.last().count - frames.last().next) * child_requests(frames.last(), w.opts)
        } else {
            0
        },
    decreases frames.len(),
{
    let n = frames.len() as int;
    let top = frames.last();
    if !(top.next < top.count) && n > 1 {
        let parent = frames[n - 2];
        assert(waits(frames[n - 2], w.opts));
        let grown = FrameView {
            node: crate::walk::with_child(parent.node, top.node),
            next: (parent.next + 1) as i32,
            ..parent
        };
        let rest = frames.drop_last().drop_last().push(grown);
        assert(rest.last() == grown);
        assert forall|k: int| 0 <= k < rest.len() - 1 implies waits(#[trigger] rest[k], w.opts) by {
            assert(rest[k] == frames[k]);
        }
        assert forall|k: int| 0 <= k < rest.len() implies (#[trigger] rest[k]).depth == base + k
            && rest[k].next >= 0 by {
            assert(frames[k].depth == base + k);
            if k < n - 2 {
                assert(rest[k] == frames[k]);
            }
        }
        lemma_settle_bounded(w, rest, base);
        lemma_same_behind(frames, rest, w.opts, n - 2);
        assert(crate::walk::settled(w, frames) == crate::walk::settled(w, rest));
        if !(grown.next < grown.count) {
            let unit = child_requests(parent, w.opts);
            assert((parent.count - parent.next - 1) * unit == 0) by (nonlinear_arith)
                requires
                    parent.count - parent.next - 1 == 0,
            ;
        }
    }
}

/// A reply that answers what was asked keeps the walk above the deepest level and uses up a
/// request at least; any other reply changes nothing.
proof fn lemma_step_bounded(w: WalkView, reply: TreeReply, base: int)
    requires
        bounded(w, base),
    ensures
        bounded(crate::walk::step(w, reply), base),
        crate::walk::step(w, reply).opts == w.opts,
        requests_left(w) >= 0,
        fits(w, reply) ==> 0 <= requests_left(crate::walk::step(w, reply)) < requests_left(w),
        !fits(w, reply) ==> crate::walk::step(w, reply) == w,
{
    let n = w.frames.len() as int;
    let top = w.frames.last();
    lemma_left_nonnegative(w, base);
    match (w.phase, reply) {
        (PhaseView::Describe(depth), TreeReply::Described(props)) => {
            let node = crate::node::head_node(props, w.opts);
            let frame = FrameView { node, depth, count: 0, next: 0 };
            let frames = w.frames.push(frame);
            assert(frames.last() == frame);
            assert forall|k: int| 0 <= k < frames.len() - 1 implies waits(
                #[trigger] frames[k],
                w.opts,
            ) by {
                assert(frames[k] == w.frames[k]);
            }
            assert(stacked(frames, w.opts, base));
            lemma_same_behind(w.frames, frames, w.opts, n);
            if !(depth < w.opts.max_depth) {
                lemma_settle_bounded(w, frames, base);
            }
        },
        (PhaseView::List, TreeReply::Listed(length)) => {
            let count: i32 = match length {
                Some(count) => count,
                None => 0,
            };
            let node = NodeView {
                children_count: Some(crate::node::as_unsigned(count)),
                ..top.node
            };
            let listed = FrameView { node, count, ..top };
            let frames = w.frames.drop_last().push(listed);
            assert(frames.last() == listed);
            lemma_replaced(w, listed, base);
            lemma_settle_bounded(w, frames, base);
            let unit = child_requests(listed, w.opts);
            lemma_most_requests(w.opts.max_depth - top.depth - 1);
            assert(count * unit <= i32::MAX * unit) by (nonlinear_arith)
                requires
                    unit >= 0,
                    count <= i32::MAX,
            ;
            assert(i32::MAX * unit >= 0) by (nonlinear_arith)
                requires
                    unit >= 0,
            ;
        },
        (PhaseView::List, TreeReply::Unlisted) => {
            lemma_most_requests(w.opts.max_depth - top.depth);
            lemma_settle_bounded(w, w.frames, base);
        },
        (PhaseView::Open, TreeReply::Opened) => {
            let unit = child_requests(top, w.opts);
            assert forall|k: int| 0 <= k < n implies waits(#[trigger] w.frames[k], w.opts) by {}
            assert((top.count - top.next) * unit == (top.count - top.next - 1) * unit + unit)
                by (nonlinear_arith);
        },
        (PhaseView::Open, TreeReply::Missing) => {
            let passed = FrameView { next: (top.next + 1) as i32, ..top };
            let frames = w.frames.drop_last().push(passed);
            assert(frames.last() == passed);
            lemma_replaced(w, passed, base);
            lemma_settle_bounded(w, frames, base);
            let unit = child_requests(top, w.opts);
            lemma_most_requests(w.opts.max_depth - top.depth - 1);
            assert((top.count - top.next) * unit == (top.count - top.next - 1) * unit + unit)
                by (nonlinear_arith);
            assert(top.next + 1 == top.count ==> (top.count - top.next - 1) * unit == 0)
                by (nonlinear_arith);
        },
        _ => {},
    }
    lemma_left_nonnegative(crate::walk::step(w, reply), base);
}

/// The last frame may give way to one at the same level.
proof fn lemma_replaced(w: WalkView, frame: FrameView, base: int)
    requires
        w.frames.len() > 0,
        stacked(w.frames, w.opts, base),
        frame.depth == w.frames.last().depth,
        frame.next >= 0,
    ensures
        stacked(w.frames.drop_last().push(frame), w.opts, base),
        requests_behind(w.frames.drop_last().push(frame), w.opts, w.frames.len() - 1)
            == requests_behind(w.frames, w.opts, w.frames.len() - 1),
{
    let n = w.frames.len() as int;
    let frames = w.frames.drop_last().push(frame);
    assert forall|k: int| 0 <= k < n - 1 implies waits(#[trigger] frames[k], w.opts) by {
        assert(frames[k] == w.frames[k]);
    }
    assert forall|k: int| 0 <= k < n implies (#[trigger] frames[k]).depth == base + k
        && frames[k].next >= 0 by {
        assert(w.frames[k].depth == base + k);
    }
    lemma_same_behind(w.frames, frames, w.opts, n - 1);
}

proof fn lemma_left_nonnegative(w: WalkView, base: int)
    requires
        bounded(w, base),
    ensures
        requests_left(w) >= 0,
{
    let n = w.frames.len() as int;
    let top = w.frames.last();
    match w.phase {
        PhaseView::Describe(depth) => {
            assert forall|k: int| 0 <= k < n implies waits(#[trigger] w.frames[k], w.opts) by {}
            lemma_behind_nonnegative(w.frames, w.opts, n);
            lemma_most_requests(levels_below(w.opts, depth));
        },
        PhaseView::List => {
            lemma_behind_nonnegative(w.frames, w.opts, n - 1);
            lemma_most_requests(levels_below(w.opts, top.depth));
        },
        PhaseView::Open => {
            lemma_behind_nonnegative(w.frames, w.opts, n - 1);
            lemma_most_requests(w.opts.max_depth - top.depth - 1);
            let unit = child_requests(top, w.opts);
            assert((top.count - top.next) * unit >= 0) by (nonlinear_arith)
                requires
                    top.count - top.next >= 0,
                    unit >= 0,
            ;
        },
        PhaseView::Done(_) => {},
    }
}

proof fn lemma_after_replies(
    opts: TreeOptions,
    depth: int,
    replies: Seq<TreeReply>,
    n: int,
)
    requires
        0 <= n <= replies.len(),
    ensures
        bounded(after_replies(crate::walk::start(opts, depth), replies, n), depth),
        after_replies(crate::walk::start(opts, depth), replies, n).opts == opts,
    decreases n,
{
    if n > 0 {
        lemma_after_replies(opts, depth, replies, n - 1);
        let before = after_replies(crate::walk::start(opts, depth), replies, n - 1);
        lemma_step_bounded(before, replies[n - 1], depth);
    }
}

/// Whatever a walk is told, it has no more elements open at once than there are levels to
/// visit, never asks for an element below the deepest level, and moves one level down at a
/// time.
pub proof fn law_walk_stays_above(opts: TreeOptions, depth: int, replies: Seq<TreeReply>)
    ensures
        ({
            let w = after_replies(crate::walk::start(opts, depth), replies, replies.len() as int);
            &&& open_elements(w) <= levels_below(opts, depth) + 1
            &&& w.phase matches PhaseView::Describe(level) ==> depth <= level && (level == depth
                || level <= opts.max_depth)
            &&& forall|k: int|
                0 <= k < w.frames.len() ==> (#[trigger] w.frames[k]).depth == depth + k
        }),
{
    lemma_after_replies(opts, depth, replies, replies.len() as int);
    let w = after_replies(crate::walk::start(opts, depth), replies, replies.len() as int);
    let n = w.frames.len() as int;
    if n > 1 {
        assert(waits(w.frames[n - 2], opts));
        assert(w.frames[n - 2].depth == depth + n - 2);
    }
    if n > 0 {
        assert(w.frames[n - 1].depth == depth + n - 1);
    }
}

proof fn lemma_answered(
    opts: TreeOptions,
    depth: int,
    replies: Seq<TreeReply>,
    n: int,
)
    requires
        0 <= n <= replies.len(),
        forall|i: int|
            0 <= i < n ==> {
                let w = #[trigger] after_replies(crate::walk::start(opts, depth), replies, i);
                w.phase is Done || fits(w, replies[i])
            },
    ensures
        ({
            let w = after_replies(crate::walk::start(opts, depth), replies, n);
            w.phase is Done || requests_left(w) <= most_requests(levels_below(opts, depth)) - n
        }),
    decreases n,
{
    if n > 0 {
        lemma_answered(opts, depth, replies, n - 1);
        lemma_after_replies(opts, depth, replies, n - 1);
        let before = after_replies(crate::walk::start(opts, depth), replies, n - 1);
        lemma_step_bounded(before, replies[n - 1], depth);
    }
}

/// A walk that is told what it asks for ends, and its end can be foretold from the number of
/// levels alone. The replies are as they may be; they need not come from a tree that ends.
pub proof fn law_walk_terminates(opts: TreeOptions, depth: int, replies: Seq<TreeReply>)
    requires
        forall|i: int|
            0 <= i < replies.len() ==> {
                let w = #[trigger] after_replies(crate::walk::start(opts, depth), replies, i);
                w.phase is Done || fits(w, replies[i])
            },
        replies.len() >= most_requests(levels_below(opts, depth)),
    ensures
        after_replies(
            crate::walk::start(opts, depth),
            replies,
            replies.len() as int,
        ).phase is Done,
{
    let n = replies.len() as int;
    let w = after_replies(crate::walk::start(opts, depth), replies, n);
    lemma_answered(opts, depth, replies, n);
    lemma_after_replies(opts, depth, replies, n);
    if !(w.phase is Done) {
        let reply = fitting_reply(w);
        lemma_step_bounded(w, reply, depth);
    }
}

/// A reply that answers what an unfinished walk asks for.
pub open spec fn fitting_reply(w: WalkView) -> TreeReply {
    match w.phase {
        PhaseView::Describe(_) => TreeReply::Described(arbitrary()),
        PhaseView::List => TreeReply::Unlisted,
        _ => TreeReply::Missing,
    }
}

} // verus!
