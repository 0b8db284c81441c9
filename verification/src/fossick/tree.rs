//! The model of the parser's state: the chain of elements that are open,
//! from the document down to the innermost one, and what the events of a
//! document do to it.

use vstd::prelude::*;

use crate::fossick::links::link_issue;
use crate::fossick::markup::{ElementEventView, ElementStartView};
use crate::issues::IssueView;

verus! {

/// Whether the issues of an element are kept or dropped when it ends.
#[derive(Clone, Copy, Debug, PartialEq, Eq, Structural)]
pub enum NodeStatus {
    /// The issues are kept.
    Fixing,
    /// The element or one of its ancestors is marked to be ignored: the
    /// issues are dropped.
    Ignored,
}

impl Default for NodeStatus {
    fn default() -> (status: Self)
        ensures
            status == NodeStatus::Fixing,
    {
        NodeStatus::Fixing
    }
}

/// One open element: the issues gathered for it and for what has already
/// ended inside it, and its status.
pub struct NodeView {
    pub issues: Seq<IssueView>,
    pub status: NodeStatus,
}

/// The chain of open elements. `nodes[0]` stands for the document itself and
/// the last node is the innermost open element; each node's parent is the
/// node before it.
pub struct TreeState {
    pub nodes: Seq<NodeView>,
    pub saw_root: bool,
}

/// The status of an element that opens under `parent`: ignoring is inherited
/// and cannot be undone further down.
pub open spec fn child_status(parent: NodeStatus, ignore: bool) -> NodeStatus {
    if ignore || parent == NodeStatus::Ignored {
        NodeStatus::Ignored
    } else {
        NodeStatus::Fixing
    }
}

/// The issues that are kept of a chain: those of the nodes that are not
/// ignored, outermost first.
pub open spec fn kept_issues(nodes: Seq<NodeView>) -> Seq<IssueView>
    decreases nodes.len(),
{
    if nodes.len() == 0 {
        Seq::empty()
    } else if nodes.last().status == NodeStatus::Fixing {
        kept_issues(nodes.drop_last()) + nodes.last().issues
    } else {
        kept_issues(nodes.drop_last())
    }
}

impl TreeState {
    /// The state before any element has opened.
    pub open spec fn initial() -> TreeState {
        TreeState {
            nodes: seq![NodeView { issues: Seq::empty(), status: NodeStatus::Fixing }],
            saw_root: false,
        }
    }

    /// The chain is never empty, the document itself is not ignored, and
    /// below an ignored node every node is ignored.
    pub open spec fn wf(self) -> bool {
        &&& self.nodes.len() >= 1
        &&& self.nodes[0].status == NodeStatus::Fixing
        &&& forall|i: int, j: int|
            0 <= i <= j < self.nodes.len() && (#[trigger] self.nodes[i]).status
                == NodeStatus::Ignored ==> (#[trigger] self.nodes[j]).status == NodeStatus::Ignored
    }

    /// The innermost open element.
    pub open spec fn current(self) -> NodeView {
        self.nodes.last()
    }

    /// How many elements are open.
    pub open spec fn depth(self) -> int {
        self.nodes.len() - 1
    }

    /// An element opens with the issues `own` of its own.
    pub open spec fn open(self, own: Seq<IssueView>, ignore: bool, is_root: bool) -> TreeState {
        TreeState {
            nodes: self.nodes.push(
                NodeView { issues: own, status: child_status(self.current().status, ignore) },
            ),
            saw_root: self.saw_root || is_root,
        }
    }

    /// The innermost open element ends: its issues go to its parent, or
    /// nowhere if it is ignored. Nothing happens where no element is open.
    pub open spec fn close(self) -> TreeState {
        if self.nodes.len() <= 1 {
            self
        } else {
            let node = self.nodes.last();
            let rest = self.nodes.drop_last();
            let parent = rest.last();
            let merged = if node.status == NodeStatus::Ignored {
                parent
            } else {
                NodeView { issues: parent.issues + node.issues, status: parent.status }
            };
            TreeState { nodes: rest.drop_last().push(merged), saw_root: self.saw_root }
        }
    }

    /// All open elements end, innermost first.
    pub open spec fn collapsed(self) -> TreeState
        decreases self.nodes.len(),
    {
        if self.nodes.len() <= 1 {
            self
        } else {
            self.close().collapsed()
        }
    }

    /// The issues that are reported if the document ends here.
    pub open spec fn final_issues(self) -> Seq<IssueView> {
        self.collapsed().nodes[0].issues
    }
}

/// The issues of an element's own: the issue of its link, if it has one. An
/// element whose target cannot be evaluated has none.
pub open spec fn own_issues(start: ElementStartView, urls: Set<Seq<char>>) -> Seq<IssueView> {
    match link_issue(start.tag_name, start.href, urls) {
        Ok(Some(issue)) => seq![issue],
        _ => Seq::empty(),
    }
}

/// Whether the target of an element cannot be evaluated.
pub open spec fn start_fails(start: ElementStartView, urls: Set<Seq<char>>) -> bool {
    link_issue(start.tag_name, start.href, urls) is Err
}

/// What the opening of an element does: the element is entered with its own
/// issues, and left at once if it has no end of its own.
pub open spec fn opened(
    state: TreeState,
    start: ElementStartView,
    urls: Set<Seq<char>>,
    root_tag: Seq<char>,
) -> TreeState {
    let entered = state.open(own_issues(start, urls), start.ignored, start.tag_name == root_tag);
    if start.closes {
        entered
    } else {
        entered.close()
    }
}

/// What one event does to the state.
pub open spec fn step(
    state: TreeState,
    event: ElementEventView,
    urls: Set<Seq<char>>,
    root_tag: Seq<char>,
) -> TreeState {
    match event {
        ElementEventView::Open(start) => opened(state, start, urls, root_tag),
        ElementEventView::Close => state.close(),
    }
}

/// What a run of events does to the state.
pub open spec fn run(
    state: TreeState,
    events: Seq<ElementEventView>,
    urls: Set<Seq<char>>,
    root_tag: Seq<char>,
) -> TreeState
    decreases events.len(),
{
    if events.len() == 0 {
        state
    } else {
        step(run(state, events.drop_last(), urls, root_tag), events.last(), urls, root_tag)
    }
}

/// Whether some element of the run has a target that cannot be evaluated.
pub open spec fn some_start_fails(events: Seq<ElementEventView>, urls: Set<Seq<char>>) -> bool {
    exists|i: int|
        0 <= i < events.len() && (#[trigger] events[i] matches ElementEventView::Open(start)
            && start_fails(start, urls))
}

/// Whether some element of the run has the tag `root_tag`.
pub open spec fn some_root_opens(events: Seq<ElementEventView>, root_tag: Seq<char>) -> bool {
    exists|i: int|
        0 <= i < events.len() && (#[trigger] events[i] matches ElementEventView::Open(start)
            && start.tag_name == root_tag)
}

/// By how much a run changes the number of open elements, if it never
/// closes more than is open.
pub open spec fn net_depth(events: Seq<ElementEventView>) -> int
    decreases events.len(),
{
    if events.len() == 0 {
        0
    } else {
        net_depth(events.drop_last()) + match events.last() {
            ElementEventView::Open(start) => if start.closes {
                1int
            } else {
                0int
            },
            ElementEventView::Close => -1int,
        }
    }
}

/// Whether a run stays inside the element in which it begins: at no point
/// has it closed more elements than it has opened.
pub open spec fn stays_inside(events: Seq<ElementEventView>) -> bool {
    forall|k: int| 0 <= k <= events.len() ==> net_depth(#[trigger] events.take(k)) >= 0
}

/// A run of `n` ends of elements.
pub open spec fn closes(n: nat) -> Seq<ElementEventView> {
    Seq::new(n, |i: int| ElementEventView::Close)
}

/// Opening an element keeps the chain well formed.
pub proof fn lemma_open_wf(state: TreeState, own: Seq<IssueView>, ignore: bool, is_root: bool)
    requires
        state.wf(),
    ensures
        state.open(own, ignore, is_root).wf(),
{
}

/// Ending an element keeps the chain well formed.
pub proof fn lemma_close_wf(state: TreeState)
    requires
        state.wf(),
    ensures
        state.close().wf(),
{
    if state.nodes.len() > 1 {
        let after = state.close();
        assert forall|i: int, j: int|
            0 <= i <= j < after.nodes.len() && (#[trigger] after.nodes[i]).status
                == NodeStatus::Ignored implies (#[trigger] after.nodes[j]).status
            == NodeStatus::Ignored by {
            assert(after.nodes[i].status == state.nodes[i].status);
            assert(after.nodes[j].status == state.nodes[j].status);
        }
    }
}

/// Every event keeps the chain well formed.
pub proof fn lemma_step_wf(
    state: TreeState,
    event: ElementEventView,
    urls: Set<Seq<char>>,
    root_tag: Seq<char>,
)
    requires
        state.wf(),
    ensures
        step(state, event, urls, root_tag).wf(),
{
    match event {
        ElementEventView::Open(start) => {
            let entered = state.open(
                own_issues(start, urls),
                start.ignored,
                start.tag_name == root_tag,
            );
            lemma_open_wf(state, own_issues(start, urls), start.ignored, start.tag_name == root_tag);
            lemma_close_wf(entered);
        },
        ElementEventView::Close => {
            lemma_close_wf(state);
        },
    }
}

/// Every run keeps the chain well formed.
pub proof fn lemma_run_wf(
    state: TreeState,
    events: Seq<ElementEventView>,
    urls: Set<Seq<char>>,
    root_tag: Seq<char>,
)
    requires
        state.wf(),
    ensures
        run(state, events, urls, root_tag).wf(),
    decreases events.len(),
{
    if events.len() > 0 {
        lemma_run_wf(state, events.drop_last(), urls, root_tag);
        lemma_step_wf(run(state, events.drop_last(), urls, root_tag), events.last(), urls, root_tag);
    }
}

/// A run of two parts is the second part run after the first.
pub proof fn lemma_run_concat(
    state: TreeState,
    first: Seq<ElementEventView>,
    second: Seq<ElementEventView>,
    urls: Set<Seq<char>>,
    root_tag: Seq<char>,
)
    ensures
        run(state, first + second, urls, root_tag) == run(
            run(state, first, urls, root_tag),
            second,
            urls,
            root_tag,
        ),
    decreases second.len(),
{
    if second.len() == 0 {
        assert(first + second =~= first);
    } else {
        assert((first + second).drop_last() =~= first + second.drop_last());
        assert((first + second).last() == second.last());
        lemma_run_concat(state, first, second.drop_last(), urls, root_tag);
    }
}

/// A run of one event is that event's step.
pub proof fn lemma_run_one(
    state: TreeState,
    event: ElementEventView,
    urls: Set<Seq<char>>,
    root_tag: Seq<char>,
)
    ensures
        run(state, seq![event], urls, root_tag) == step(state, event, urls, root_tag),
{
    assert(seq![event].drop_last() =~= Seq::<ElementEventView>::empty());
    assert(run(state, seq![event].drop_last(), urls, root_tag) == state);
}

/// Ending an element neither loses nor repeats a kept issue.
pub proof fn lemma_close_keeps_issues(state: TreeState)
    requires
        state.wf(),
    ensures
        kept_issues(state.close().nodes) == kept_issues(state.nodes),
        state.close().saw_root == state.saw_root,
{
    if state.nodes.len() > 1 {
        let node = state.nodes.last();
        let rest = state.nodes.drop_last();
        let parent = rest.last();
        let after = state.close().nodes;
        assert(after.drop_last() =~= rest.drop_last());
        assert(parent == state.nodes[state.nodes.len() - 2]);
        if node.status == NodeStatus::Ignored {
            assert(after =~= rest);
        } else {
            assert(parent.status == NodeStatus::Fixing);
            assert(kept_issues(after) == kept_issues(rest.drop_last()) + (parent.issues
                + node.issues));
            assert(kept_issues(rest) == kept_issues(rest.drop_last()) + parent.issues);
            assert(kept_issues(rest.drop_last()) + (parent.issues + node.issues) =~= (kept_issues(
                rest.drop_last(),
            ) + parent.issues) + node.issues);
        }
    }
}

/// Opening an element adds its own issues to the kept ones, unless it is
/// ignored.
pub proof fn lemma_open_keeps_issues(state: TreeState, own: Seq<IssueView>, ignore: bool, is_root: bool)
    requires
        state.wf(),
    ensures
        kept_issues(state.open(own, ignore, is_root).nodes) == if child_status(
            state.current().status,
            ignore,
        ) == NodeStatus::Fixing {
            kept_issues(state.nodes) + own
        } else {
            kept_issues(state.nodes)
        },
{
    let after = state.open(own, ignore, is_root).nodes;
    assert(after.drop_last() =~= state.nodes);
}

/// Every element adds the issues of its own to what is reported, once and
/// after everything that was found before it, unless it is ignored. With
/// [`lemma_close_keeps_final_issues`] this says that no issue is lost and
/// none is reported twice, however the elements are ended.
pub proof fn lemma_open_reports_own_issues(
    state: TreeState,
    start: ElementStartView,
    urls: Set<Seq<char>>,
    root_tag: Seq<char>,
)
    requires
        state.wf(),
    ensures
        opened(state, start, urls, root_tag).final_issues() == if child_status(
            state.current().status,
            start.ignored,
        ) == NodeStatus::Fixing {
            state.final_issues() + own_issues(start, urls)
        } else {
            state.final_issues()
        },
{
    let own = own_issues(start, urls);
    let is_root = start.tag_name == root_tag;
    let entered = state.open(own, start.ignored, is_root);
    lemma_open_wf(state, own, start.ignored, is_root);
    lemma_open_keeps_issues(state, own, start.ignored, is_root);
    lemma_close_wf(entered);
    lemma_close_keeps_issues(entered);
    lemma_final_issues_are_kept(state);
    lemma_final_issues_are_kept(entered);
    lemma_final_issues_are_kept(entered.close());
}

/// What is reported at the end of the document is exactly what is kept: the
/// issues of every node that is not ignored, each once, outermost first.
pub proof fn lemma_final_issues_are_kept(state: TreeState)
    requires
        state.wf(),
    ensures
        state.final_issues() == kept_issues(state.nodes),
        state.collapsed().nodes.len() == 1,
        state.collapsed().saw_root == state.saw_root,
    decreases state.nodes.len(),
{
    if state.nodes.len() <= 1 {
        assert(state.nodes.drop_last() =~= Seq::<NodeView>::empty());
        assert(kept_issues(state.nodes.drop_last()) =~= Seq::<IssueView>::empty());
        assert(Seq::<IssueView>::empty() + state.nodes[0].issues =~= state.nodes[0].issues);
    } else {
        lemma_close_wf(state);
        lemma_close_keeps_issues(state);
        lemma_final_issues_are_kept(state.close());
    }
}

/// Ending an element early or late makes no difference to what is reported.
pub proof fn lemma_close_keeps_final_issues(state: TreeState)
    requires
        state.wf(),
    ensures
        state.close().final_issues() == state.final_issues(),
{
    lemma_close_wf(state);
    lemma_close_keeps_issues(state);
    lemma_final_issues_are_kept(state);
    lemma_final_issues_are_kept(state.close());
}

/// No loss on truncation: a document whose last `n` end tags are missing
/// reports the same issues, in the same order, as the document with them,
/// and the root element is seen in the one exactly if it is in the other.
pub proof fn lemma_missing_end_tags_lose_nothing(
    state: TreeState,
    events: Seq<ElementEventView>,
    n: nat,
    urls: Set<Seq<char>>,
    root_tag: Seq<char>,
)
    requires
        state.wf(),
    ensures
        run(state, events + closes(n), urls, root_tag).final_issues() == run(
            state,
            events,
            urls,
            root_tag,
        ).final_issues(),
        run(state, events + closes(n), urls, root_tag).saw_root == run(
            state,
            events,
            urls,
            root_tag,
        ).saw_root,
    decreases n,
{
    if n == 0 {
        assert(events + closes(0) =~= events);
    } else {
        let shorter = events + closes((n - 1) as nat);
        assert((events + closes(n)).drop_last() =~= shorter);
        assert((events + closes(n)).last() == ElementEventView::Close);
        lemma_missing_end_tags_lose_nothing(state, events, (n - 1) as nat, urls, root_tag);
        lemma_run_wf(state, shorter, urls, root_tag);
        lemma_close_keeps_final_issues(run(state, shorter, urls, root_tag));
    }
}

/// Root-element detection: after a run the root element has been seen
/// exactly if it had been seen before or one of the run's elements has the
/// root tag.
pub proof fn lemma_root_seen_exactly_when_opened(
    state: TreeState,
    events: Seq<ElementEventView>,
    urls: Set<Seq<char>>,
    root_tag: Seq<char>,
)
    ensures
        run(state, events, urls, root_tag).saw_root == (state.saw_root || some_root_opens(
            events,
            root_tag,
        )),
    decreases events.len(),
{
    if events.len() > 0 {
        let before = events.drop_last();
        lemma_root_seen_exactly_when_opened(state, before, urls, root_tag);
        if some_root_opens(before, root_tag) {
            let i = choose|i: int|
                0 <= i < before.len() && (#[trigger] before[i] matches ElementEventView::Open(start)
                    && start.tag_name == root_tag);
            assert(events[i] == before[i]);
        }
        if some_root_opens(events, root_tag) {
            let i = choose|i: int|
                0 <= i < events.len() && (#[trigger] events[i] matches ElementEventView::Open(start)
                    && start.tag_name == root_tag);
            if i < before.len() {
                assert(before[i] == events[i]);
            }
        }
        match events.last() {
            ElementEventView::Open(start) => {
                if start.tag_name == root_tag {
                    assert(events[events.len() - 1] == events.last());
                }
            },
            ElementEventView::Close => {},
        }
    }
}

/// Inside an ignored element nothing reaches the chain below: however
/// deeply the run nests, the nodes that were open before it are untouched
/// and every node above them is ignored.
pub proof fn lemma_ignored_subtree_is_silent(
    state: TreeState,
    inner: Seq<ElementEventView>,
    urls: Set<Seq<char>>,
    root_tag: Seq<char>,
)
    requires
        state.wf(),
        state.current().status == NodeStatus::Ignored,
        stays_inside(inner),
    ensures
        run(state, inner, urls, root_tag).nodes.len() == state.nodes.len() + net_depth(inner),
        run(state, inner, urls, root_tag).nodes.take(state.nodes.len() as int) == state.nodes,
        forall|i: int|
            state.nodes.len() <= i < run(state, inner, urls, root_tag).nodes.len() ==> (
            #[trigger] run(state, inner, urls, root_tag).nodes[i]).status == NodeStatus::Ignored,
    decreases inner.len(),
{
    let base = state.nodes.len() as int;
    if inner.len() == 0 {
        assert(state.nodes.take(base) =~= state.nodes);
    } else {
        let before = inner.drop_last();
        assert forall|k: int| 0 <= k <= before.len() implies net_depth(
            #[trigger] before.take(k),
        ) >= 0 by {
            assert(before.take(k) =~= inner.take(k));
        }
        lemma_ignored_subtree_is_silent(state, before, urls, root_tag);
        let mid = run(state, before, urls, root_tag);
        assert(inner.take(inner.len() as int) =~= inner);
        assert(net_depth(inner) >= 0);
        assert(mid.nodes.take(base)[base - 1] == mid.nodes[base - 1]);
        assert(mid.current().status == NodeStatus::Ignored);
        match inner.last() {
            ElementEventView::Open(start) => {
                let entered = mid.open(
                    own_issues(start, urls),
                    start.ignored,
                    start.tag_name == root_tag,
                );
                assert(entered.nodes.take(base) =~= mid.nodes.take(base));
                if !start.closes {
                    assert(entered.close().nodes =~= mid.nodes);
                }
            },
            ElementEventView::Close => {
                assert(mid.nodes.len() > base);
                let after = mid.close();
                assert(mid.nodes.last().status == NodeStatus::Ignored);
                assert(after.nodes =~= mid.nodes.drop_last());
                assert(after.nodes.take(base) =~= mid.nodes.take(base));
            },
        }
    }
}

/// The chain after a run does not depend on whether the root element had
/// been seen.
pub proof fn lemma_nodes_ignore_root_flag(
    first: TreeState,
    second: TreeState,
    events: Seq<ElementEventView>,
    urls: Set<Seq<char>>,
    root_tag: Seq<char>,
)
    requires
        first.nodes == second.nodes,
    ensures
        run(first, events, urls, root_tag).nodes == run(second, events, urls, root_tag).nodes,
    decreases events.len(),
{
    if events.len() > 0 {
        lemma_nodes_ignore_root_flag(first, second, events.drop_last(), urls, root_tag);
    }
}

/// Ignore inheritance: no issue that arises at or inside an element that
/// carries the ignore mark is ever reported, however deep it lies. If the
/// document stops inside the element, what is reported is what had been
/// found before it; if the element is ended, it can be taken out of the
/// document together with everything inside it and the report stays the
/// same.
pub proof fn lemma_ignored_element_reports_nothing(
    state: TreeState,
    start: ElementStartView,
    inner: Seq<ElementEventView>,
    rest: Seq<ElementEventView>,
    urls: Set<Seq<char>>,
    root_tag: Seq<char>,
)
    requires
        state.wf(),
        start.ignored,
        start.closes,
        stays_inside(inner),
    ensures
        run(state, seq![ElementEventView::Open(start)] + inner, urls, root_tag).final_issues()
            == state.final_issues(),
        net_depth(inner) == 0 ==> run(
            state,
            seq![ElementEventView::Open(start)] + inner + seq![ElementEventView::Close] + rest,
            urls,
            root_tag,
        ).final_issues() == run(state, rest, urls, root_tag).final_issues(),
{
    let open = seq![ElementEventView::Open(start)];
    let close = seq![ElementEventView::Close];
    let entered = opened(state, start, urls, root_tag);
    lemma_run_one(state, ElementEventView::Open(start), urls, root_tag);
    lemma_step_wf(state, ElementEventView::Open(start), urls, root_tag);
    lemma_run_concat(state, open, inner, urls, root_tag);
    lemma_ignored_subtree_is_silent(entered, inner, urls, root_tag);
    let inside = run(entered, inner, urls, root_tag);
    lemma_run_wf(entered, inner, urls, root_tag);
    lemma_final_issues_are_kept(inside);
    lemma_final_issues_are_kept(state);
    assert(inner.take(inner.len() as int) =~= inner);
    lemma_ignored_nodes_keep_nothing(inside.nodes, entered.nodes.len() as int);
    assert(entered.nodes.drop_last() =~= state.nodes);
    assert(inside.nodes.take(entered.nodes.len() as int) == entered.nodes);
    if net_depth(inner) == 0 {
        assert(inside.nodes =~= entered.nodes);
        let left = inside.close();
        assert(left.nodes =~= state.nodes);
        lemma_run_one(inside, ElementEventView::Close, urls, root_tag);
        lemma_run_concat(state, open + inner, close, urls, root_tag);
        lemma_run_concat(state, open + inner + close, rest, urls, root_tag);
        lemma_nodes_ignore_root_flag(left, state, rest, urls, root_tag);
        lemma_close_wf(inside);
        lemma_run_wf(left, rest, urls, root_tag);
        lemma_run_wf(state, rest, urls, root_tag);
        lemma_final_issues_are_kept(run(left, rest, urls, root_tag));
        lemma_final_issues_are_kept(run(state, rest, urls, root_tag));
    }
}

/// Nodes that are all ignored add nothing to the kept issues.
pub proof fn lemma_ignored_nodes_keep_nothing(nodes: Seq<NodeView>, from: int)
    requires
        0 <= from <= nodes.len(),
        forall|i: int| from <= i < nodes.len() ==> (#[trigger] nodes[i]).status == NodeStatus::Ignored,
    ensures
        kept_issues(nodes) == kept_issues(nodes.take(from)),
    decreases nodes.len() - from,
{
    if from == nodes.len() {
        assert(nodes.take(from) =~= nodes);
    } else {
        assert(nodes.last() == nodes[nodes.len() - 1]);
        assert(nodes.drop_last().take(from) =~= nodes.take(from));
        lemma_ignored_nodes_keep_nothing(nodes.drop_last(), from);
    }
}

} // verus!
