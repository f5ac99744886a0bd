//! The invariant of the node graph: no node is its own descendant.
use vstd::prelude::*;
use crate::compact::{all_kept, count, kept_len, lemma_count_bound, lemma_count_drops, lemma_select_at, lemma_select_from, lemma_select_len, select, selected};
use crate::document::all_below;
use crate::entities::{NodeView, Root, RootView};
use crate::references::no_marks;

verus! {

/// Child `k` of node `p`.
pub open spec fn child(nodes: Seq<NodeView>, p: int, k: int) -> int {
    nodes[p].children[k] as int
}

/// Whether every child of a node is a node.
pub open spec fn children_exist(nodes: Seq<NodeView>) -> bool {
    forall|p: int| 0 <= p < nodes.len() ==> all_below((#[trigger] nodes[p]).children, nodes.len())
}

/// Whether `rank` gives every node a rank above the ranks of its
/// children.
pub open spec fn descends(nodes: Seq<NodeView>, rank: Seq<nat>) -> bool {
    &&& rank.len() == nodes.len()
    &&& forall|p: int, k: int|
        0 <= p < nodes.len() && 0 <= k < nodes[p].children.len() && 0 <= #[trigger] child(nodes, p, k)
            < nodes.len() ==> rank[child(nodes, p, k)] < rank[p]
}

/// Whether the graph of parents and children has no cycle: the nodes can
/// be ranked so that every node ranks above its children.
pub open spec fn acyclic(nodes: Seq<NodeView>) -> bool {
    exists|rank: Seq<nat>| descends(nodes, rank)
}

/// Whether node `p` has a child, among its first `n`, that is not done.
pub open spec fn waits(nodes: Seq<NodeView>, done: Seq<bool>, p: int, n: int) -> bool {
    exists|k: int| 0 <= k < n && !done[#[trigger] child(nodes, p, k)]
}

/// Whether no node that is not done can be done: each waits for a child.
pub open spec fn stuck(nodes: Seq<NodeView>, done: Seq<bool>, n: int) -> bool {
    forall|p: int| 0 <= p < n && !#[trigger] done[p] ==> waits(nodes, done, p, nodes[p].children.len() as int)
}

/// A node that is not done and ranks lowest among the first `n` nodes that
/// are not done.
proof fn lowest(done: Seq<bool>, rank: Seq<nat>, n: int) -> (m: int)
    requires
        0 <= n <= done.len(),
        rank.len() == done.len(),
        exists|p: int| 0 <= p < n && !done[p],
    ensures
        0 <= m < n,
        !done[m],
        forall|p: int| 0 <= p < n && !done[p] ==> rank[m] <= #[trigger] rank[p],
    decreases n,
{
    if exists|p: int| 0 <= p < n - 1 && !done[p] {
        let m = lowest(done, rank, n - 1);
        if !done[n - 1] && rank[n - 1] < rank[m] {
            n - 1
        } else {
            m
        }
    } else {
        n - 1
    }
}

/// Where some node is not done and none can be, the graph has a cycle.
proof fn lemma_stuck(nodes: Seq<NodeView>, done: Seq<bool>)
    requires
        done.len() == nodes.len(),
        children_exist(nodes),
        stuck(nodes, done, nodes.len() as int),
        exists|p: int| 0 <= p < nodes.len() && !done[p],
    ensures
        !acyclic(nodes),
{
    if acyclic(nodes) {
        let rank = choose|rank: Seq<nat>| descends(nodes, rank);
        let m = lowest(done, rank, nodes.len() as int);
        assert(waits(nodes, done, m, nodes[m].children.len() as int));
        let k = choose|k: int| 0 <= k < nodes[m].children.len() && !done[#[trigger] child(nodes, m, k)];
        let c = child(nodes, m, k);
        assert(nodes[m].children[k] < nodes.len());
        assert(rank[c] < rank[m]);
    }
}

/// Setting a mark that was not set adds one to the count.
proof fn lemma_count_set(keep: Seq<bool>, p: int, n: int)
    requires
        0 <= p < keep.len(),
        0 <= n <= keep.len(),
        !keep[p],
    ensures
        count(keep.update(p, true), n) == count(keep, n) + if p < n {
            1nat
        } else {
            0nat
        },
    decreases n,
{
    if n > 0 {
        lemma_count_set(keep, p, n - 1);
    }
}

/// Where as many are kept as there are, every entry is kept.
proof fn lemma_count_full(keep: Seq<bool>)
    requires
        kept_len(keep) == keep.len(),
    ensures
        all_kept(keep),
{
    if !all_kept(keep) {
        let i = choose|i: int| 0 <= i < keep.len() && !#[trigger] keep[i];
        lemma_count_drops(keep, i);
    }
}

impl Root {
    /// Decides whether the graph of the nodes has no cycle.
    pub fn check_acyclic(&self) -> (r: bool)
        requires
            children_exist(self@.nodes),
        ensures
            r == acyclic(self@.nodes),
    {
        let n = self.nodes.len();
        let ghost nodes = self@.nodes;
        let mut done = no_marks(n);
        let mut left: usize = n;
        let ghost mut rank: Seq<nat> = Seq::new(n as nat, |i: int| 0nat);
        let ghost mut tick: nat = 1;
        proof {
            assert(count(done@, n as int) == 0) by {
                lemma_none_kept(done@, n as int);
            }
        }
        while left > 0
            invariant
                n == self.nodes.len(),
                nodes == self@.nodes,
                children_exist(nodes),
                done.len() == n,
                rank.len() == n,
                left + count(done@, n as int) == n,
                forall|p: int| 0 <= p < n && done@[p] ==> #[trigger] rank[p] < tick,
                forall|p: int, k: int|
                    0 <= p < n && done@[p] && 0 <= k < nodes[p].children.len() ==> done@[#[trigger] child(
                        nodes,
                        p,
                        k,
                    )] && rank[child(nodes, p, k)] < rank[p],
            decreases left,
        {
            let ghost start = done@;
            let mut progress = false;
            let mut p: usize = 0;
            while p < n
                invariant
                    p <= n,
                    n == self.nodes.len(),
                    nodes == self@.nodes,
                    children_exist(nodes),
                    done.len() == n,
                    rank.len() == n,
                    left + count(done@, n as int) == n,
                    !progress ==> done@ == start,
                    progress ==> count(done@, n as int) > count(start, n as int),
                    !progress ==> stuck(nodes, done@, p as int),
                    forall|q: int| 0 <= q < n && done@[q] ==> #[trigger] rank[q] < tick,
                    forall|q: int, k: int|
                        0 <= q < n && done@[q] && 0 <= k < nodes[q].children.len() ==> done@[#[trigger] child(
                            nodes,
                            q,
                            k,
                        )] && rank[child(nodes, q, k)] < rank[q],
                decreases n - p,
            {
                assert(nodes[p as int] == self.nodes@[p as int]@);
                if !done[p] {
                    let children = &self.nodes[p].children;
                    let mut k: usize = 0;
                    let mut ready = true;
                    while k < children.len()
                        invariant
                            k <= children.len(),
                            p < n,
                            done.len() == n,
                            nodes.len() == n,
                            children@ == nodes[p as int].children,
                            all_below(children@, n as nat),
                            ready ==> forall|j: int| 0 <= j < k ==> done@[#[trigger] child(nodes, p as int, j)],
                            !ready ==> waits(nodes, done@, p as int, children.len() as int),
                        decreases children.len() - k,
                    {
                        if !done[children[k]] {
                            assert(!done@[child(nodes, p as int, k as int)]);
                            ready = false;
                        }
                        k += 1;
                    }
                    if ready {
                        let ghost before = done@;
                        proof {
                            lemma_count_set(before, p as int, n as int);
                            lemma_count_bound(before, n as int);
                            lemma_count_drops(before, p as int);
                        }
                        done.set(p, true);
                        left -= 1;
                        progress = true;
                        proof {
                            rank = rank.update(p as int, tick);
                            tick = tick + 1;
                        }
                    }
                }
                p += 1;
            }
            if !progress {
                proof {
                    lemma_count_bound(done@, n as int);
                    if all_kept(done@) {
                        crate::compact::lemma_count_all(done@, n as int);
                    }
                    let w = choose|w: int| 0 <= w < done@.len() && !#[trigger] done@[w];
                    lemma_stuck(nodes, done@);
                }
                return false;
            }
        }
        proof {
            lemma_count_full(done@);
            assert(descends(nodes, rank));
        }
        true
    }
}

/// Of marks of which none is set, none is counted.
proof fn lemma_none_kept(keep: Seq<bool>, n: int)
    requires
        0 <= n <= keep.len(),
        forall|i: int| 0 <= i < keep.len() ==> !#[trigger] keep[i],
    ensures
        count(keep, n) == 0,
    decreases n,
{
    if n > 0 {
        lemma_none_kept(keep, n - 1);
    }
}

/// A graph without a cycle stays without one when a node is added whose
/// children were there already.
pub proof fn lemma_acyclic_push(nodes: Seq<NodeView>, node: NodeView)
    requires
        acyclic(nodes),
        children_exist(nodes),
        all_below(node.children, nodes.len()),
    ensures
        acyclic(nodes.push(node)),
{
    let rank = choose|rank: Seq<nat>| descends(nodes, rank);
    let top = above(rank, rank.len() as int);
    lemma_above(rank, rank.len() as int);
    let more = nodes.push(node);
    let r2 = rank.push(top);
    assert forall|p: int, k: int|
        0 <= p < more.len() && 0 <= k < more[p].children.len() && 0 <= #[trigger] child(more, p, k)
            < more.len() implies r2[child(more, p, k)] < r2[p] by {
        if p < nodes.len() {
            assert(child(more, p, k) == child(nodes, p, k));
            assert(nodes[p].children[k] < nodes.len());
        } else {
            assert(node.children[k] < nodes.len());
        }
    }
    assert(descends(more, r2));
}

/// A number above the first `n` ranks.
pub open spec fn above(rank: Seq<nat>, n: int) -> nat
    decreases n,
{
    if n <= 0 || n > rank.len() {
        0
    } else {
        above(rank, n - 1) + rank[n - 1] + 1
    }
}

proof fn lemma_above(rank: Seq<nat>, n: int)
    requires
        0 <= n <= rank.len(),
    ensures
        forall|i: int| 0 <= i < n ==> #[trigger] rank[i] < above(rank, n),
    decreases n,
{
    if n > 0 {
        lemma_above(rank, n - 1);
    }
}

/// Whether two lists of nodes have the same children, node by node.
pub open spec fn same_children(a: Seq<NodeView>, b: Seq<NodeView>) -> bool {
    a.len() == b.len() && forall|p: int| 0 <= p < a.len() ==> (#[trigger] a[p]).children == b[p].children
}

/// Whether a graph has a cycle depends on the children of its nodes only.
pub proof fn lemma_acyclic_same(a: Seq<NodeView>, b: Seq<NodeView>)
    requires
        acyclic(a),
        same_children(a, b),
    ensures
        acyclic(b),
{
    let rank = choose|rank: Seq<nat>| descends(a, rank);
    assert forall|p: int, k: int|
        0 <= p < b.len() && 0 <= k < b[p].children.len() && 0 <= #[trigger] child(b, p, k) < b.len() implies rank[child(
        b,
        p,
        k,
    )] < rank[p] by {
        assert(a[p].children == b[p].children);
        assert(child(b, p, k) == child(a, p, k));
    }
    assert(descends(b, rank));
}

/// Whether the nodes that stay keep their children: every child of a node
/// that stays stays, and its new index is its place among the nodes that
/// stay.
pub open spec fn keeps_children(nodes: Seq<NodeView>, keep: Seq<bool>, table: Seq<usize>) -> bool {
    forall|p: int, k: int|
        0 <= p < nodes.len() && keep[p] && 0 <= k < nodes[p].children.len() ==> 0 <= #[trigger] child(
            nodes,
            p,
            k,
        ) < nodes.len() && keep[child(nodes, p, k)] && table[child(nodes, p, k)] == count(
            keep,
            child(nodes, p, k),
        )
}

/// A graph without a cycle stays without one when nodes are removed and
/// the children of those that stay are renumbered to their new places.
pub proof fn lemma_acyclic_selected(
    nodes: Seq<NodeView>,
    mapped: Seq<NodeView>,
    keep: Seq<bool>,
    table: Seq<usize>,
)
    requires
        acyclic(nodes),
        keep.len() == nodes.len(),
        table.len() == nodes.len(),
        mapped.len() == nodes.len(),
        keeps_children(nodes, keep, table),
        forall|p: int|
            0 <= p < nodes.len() ==> (#[trigger] mapped[p]).children == crate::compact::remap(
                nodes[p].children,
                table,
            ),
    ensures
        acyclic(selected(mapped, keep)),
{
    let rank = choose|rank: Seq<nat>| descends(nodes, rank);
    let n = nodes.len() as int;
    let after = selected(mapped, keep);
    let r2 = selected(rank, keep);
    lemma_select_len(mapped, keep, n);
    lemma_select_len(rank, keep, n);
    assert forall|q: int, k: int|
        0 <= q < after.len() && 0 <= k < after[q].children.len() && 0 <= #[trigger] child(after, q, k)
            < after.len() implies r2[child(after, q, k)] < r2[q] by {
        let p = lemma_select_from(mapped, keep, n, q);
        lemma_select_at(rank, keep, n, p);
        assert(r2[q] == rank[p]);
        assert(after[q].children == crate::compact::remap(nodes[p].children, table));
        let c = child(nodes, p, k);
        assert(child(after, q, k) == table[c]);
        lemma_select_at(rank, keep, n, c);
        assert(r2[child(after, q, k)] == rank[c]);
    }
    assert(descends(after, r2));
}

} // verus!
