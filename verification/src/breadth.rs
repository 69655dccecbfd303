//! Depth-limited breadth-first searches of the UI tree. The tree is read
//! outside, one node at a time: the search says which node to expand next
//! and what it needs to know of its children, and is told what they are.
//! Nodes are named by handles that the reader hands out.
use vstd::prelude::*;

verus! {

/// Which levels of a depth-limited search collect matches.
#[derive(Debug, Clone, Copy, PartialEq, Eq, Structural)]
pub enum BreadthRule {
    /// Every child seen above the depth limit that matches is collected;
    /// children are queued while the next level stays below the limit.
    EveryLevel,
    /// Only children `max_depth` levels down are collected; nodes at the
    /// limit or deeper are not expanded.
    LastLevel,
}

/// A child of the node being expanded: its handle, and whether it matches
/// the step searched for (read only where the search asks for it).
#[derive(Debug, Clone, Copy, PartialEq, Eq, Structural)]
pub struct ChildSeen {
    pub node: usize,
    pub matches: bool,
}

/// A breadth-first search in progress: the nodes queued with their depths
/// (those before `next` are expanded), and the matches collected so far.
pub struct BreadthSearch {
    pub rule: BreadthRule,
    pub max_depth: u32,
    pub queue: Vec<(usize, u32)>,
    pub next: usize,
    pub found: Vec<usize>,
}

/// The mathematical state of a search.
pub struct BreadthView {
    pub rule: BreadthRule,
    pub max_depth: u32,
    pub queue: Seq<(usize, u32)>,
    pub next: int,
    pub found: Seq<usize>,
}

impl View for BreadthSearch {
    type V = BreadthView;

    open spec fn view(&self) -> BreadthView {
        BreadthView {
            rule: self.rule,
            max_depth: self.max_depth,
            queue: self.queue@,
            next: self.next as int,
            found: self.found@,
        }
    }
}

/// The handles of the children that match, in order.
pub open spec fn matching_nodes(cs: Seq<ChildSeen>) -> Seq<usize>
    decreases cs.len(),
{
    if cs.len() == 0 {
        seq![]
    } else {
        matching_nodes(cs.drop_last()) + if cs.last().matches {
            seq![cs.last().node]
        } else {
            seq![]
        }
    }
}

/// The children, each queued at depth `d`.
pub open spec fn queued_at(cs: Seq<ChildSeen>, d: u32) -> Seq<(usize, u32)> {
    cs.map_values(|c: ChildSeen| (c.node, d))
}

/// Whether a node at depth `d` has its children read: always at every
/// level, and only above the limit when collecting the last level.
pub open spec fn reads_children_at(rule: BreadthRule, max_depth: u32, d: u32) -> bool {
    rule == BreadthRule::EveryLevel || d < max_depth
}

/// Whether the children of a node at depth `d` are matched against the
/// step: at every level, or only when they lie at the depth limit.
pub open spec fn reads_matches_at(rule: BreadthRule, max_depth: u32, d: u32) -> bool {
    match rule {
        BreadthRule::EveryLevel => true,
        BreadthRule::LastLevel => d + 1 == max_depth,
    }
}

/// Whether the children of a node at depth `d` are queued: while their
/// level stays below the limit.
pub open spec fn queues_children_at(max_depth: u32, d: u32) -> bool {
    d + 1 < max_depth
}

/// The search after the node at `next` was expanded with children `cs`.
pub open spec fn expanded(s: BreadthView, cs: Seq<ChildSeen>) -> BreadthView {
    let d = s.queue[s.next].1;
    BreadthView {
        next: s.next + 1,
        queue: if reads_children_at(s.rule, s.max_depth, d) && queues_children_at(s.max_depth, d) {
            s.queue + queued_at(cs, (d + 1) as u32)
        } else {
            s.queue
        },
        found: if reads_children_at(s.rule, s.max_depth, d) && reads_matches_at(s.rule, s.max_depth, d) {
            s.found + matching_nodes(cs)
        } else {
            s.found
        },
        ..s
    }
}

impl BreadthSearch {
    /// A search that starts from the queued nodes `initial`.
    pub fn start(rule: BreadthRule, max_depth: u32, initial: Vec<(usize, u32)>) -> (r: Self)
        ensures
            r@ == (BreadthView { rule, max_depth, queue: initial@, next: 0, found: seq![] }),
    {
        BreadthSearch { rule, max_depth, queue: initial, next: 0, found: Vec::new() }
    }

    /// The node to expand next, or `None` when the search is over.
    pub fn current(&self) -> (r: Option<usize>)
        ensures
            0 <= self@.next < self@.queue.len() ==> r == Some(self@.queue[self@.next].0),
            !(0 <= self@.next < self@.queue.len()) ==> r is None,
    {
        if self.next < self.queue.len() {
            Some(self.queue[self.next].0)
        } else {
            None
        }
    }

    /// Whether the children of the current node are to be read.
    pub fn reads_children(&self) -> (b: bool)
        requires
            self@.next < self@.queue.len(),
        ensures
            b == reads_children_at(self.rule, self.max_depth, self@.queue[self@.next].1),
    {
        let d = self.queue[self.next].1;
        match self.rule {
            BreadthRule::EveryLevel => true,
            BreadthRule::LastLevel => d < self.max_depth,
        }
    }

    /// Whether the children of the current node are to be matched against
    /// the step.
    pub fn reads_matches(&self) -> (b: bool)
        requires
            self@.next < self@.queue.len(),
        ensures
            b == reads_matches_at(self.rule, self.max_depth, self@.queue[self@.next].1),
    {
        let d = self.queue[self.next].1;
        match self.rule {
            BreadthRule::EveryLevel => true,
            BreadthRule::LastLevel => (d as u64) + 1 == self.max_depth as u64,
        }
    }

    /// Expands the current node with its children `children` (empty where
    /// the children were not to be read).
    pub fn expand(&mut self, children: Vec<ChildSeen>)
        requires
            old(self)@.next < old(self)@.queue.len(),
        ensures
            final(self)@ == expanded(old(self)@, children@),
    {
        let d = self.queue[self.next].1;
        let reads = self.reads_children();
        let matches = self.reads_matches();
        let queues = (d as u64) + 1 < self.max_depth as u64;
        let ghost q0 = self.queue@;
        let ghost f0 = self.found@;
        let mut i: usize = 0;
        while i < children.len()
            invariant
                i <= children@.len(),
                d == q0[old(self)@.next].1,
                self.rule == old(self).rule,
                self.max_depth == old(self).max_depth,
                self.next == old(self).next,
                self.next < self.queue.len(),
                q0 == old(self)@.queue,
                f0 == old(self)@.found,
                queues == queues_children_at(self.max_depth, d),
                reads && queues ==> self.queue@ == q0 + queued_at(children@.take(i as int), (d + 1) as u32),
                !(reads && queues) ==> self.queue@ == q0,
                reads && matches ==> self.found@ == f0 + matching_nodes(children@.take(i as int)),
                !(reads && matches) ==> self.found@ == f0,
            decreases children.len() - i,
        {
            let c = children[i];
            assert(children@.take(i + 1).drop_last() =~= children@.take(i as int));
            assert(queued_at(children@.take(i + 1), (d + 1) as u32) =~= queued_at(
                children@.take(i as int),
                (d + 1) as u32,
            ).push((c.node, (d + 1) as u32)));
            if reads && queues {
                self.queue.push((c.node, d + 1));
            }
            if reads && matches && c.matches {
                self.found.push(c.node);
            }
            proof {
                if reads && queues {
                    assert(self.queue@ =~= q0 + queued_at(children@.take(i + 1), (d + 1) as u32));
                }
                if reads && matches {
                    assert(self.found@ =~= f0 + matching_nodes(children@.take(i + 1)));
                }
            }
            i = i + 1;
        }
        assert(children@.take(children@.len() as int) =~= children@);
        self.next = self.next + 1;
    }
}

/// The depth cut: every node a search queues lies one level below the node
/// expanded, and above the depth limit.
pub proof fn lemma_queued_below_limit(s: BreadthView, cs: Seq<ChildSeen>)
    requires
        0 <= s.next < s.queue.len(),
    ensures
        forall|k: int|
            s.queue.len() <= k < expanded(s, cs).queue.len() ==> {
                &&& (#[trigger] expanded(s, cs).queue[k]).1 == s.queue[s.next].1 + 1
                &&& expanded(s, cs).queue[k].1 < s.max_depth
            },
        s.queue.is_prefix_of(expanded(s, cs).queue),
{
    let e = expanded(s, cs);
    assert(e.queue.take(s.queue.len() as int) =~= s.queue);
}

/// What a search collects only grows, and a match is collected from the
/// last level alone when only that level is searched.
pub proof fn lemma_found_grows(s: BreadthView, cs: Seq<ChildSeen>)
    requires
        0 <= s.next < s.queue.len(),
    ensures
        s.found.is_prefix_of(expanded(s, cs).found),
        s.rule == BreadthRule::LastLevel && s.queue[s.next].1 + 1 != s.max_depth ==> expanded(s, cs).found
            == s.found,
{
    let e = expanded(s, cs);
    assert(e.found.take(s.found.len() as int) =~= s.found);
}

} // verus!
