//! The mathematical model of the window: which blocks are resident, at which
//! node index each lives, the edges between them, and the order in which
//! they arrived.

use vstd::prelude::*;
use crate::block::BlockView;
use crate::graph::{
    children_after_removal, index_after_removal, nodes_after_removal, other_than, renamed,
};

verus! {

/// The window as plain values.
///
/// `nodes` and `children` are indexed by node index. `children[s]` lists the
/// node indices of the blocks that name the block at `s` as a parent, one
/// entry for each edge, most recently added edge first. `order` holds the
/// identifiers of the resident blocks, oldest first.
pub struct DagView {
    pub capacity: nat,
    pub nodes: Seq<BlockView>,
    pub children: Seq<Seq<int>>,
    pub order: Seq<Seq<char>>,
}

/// The `child` index repeated `n` times.
pub open spec fn repeated(child: int, n: nat) -> Seq<int> {
    Seq::new(n, |k: int| child)
}

/// How often `id` occurs in `ids`.
pub open spec fn occurrences(ids: Seq<Seq<char>>, id: Seq<char>) -> nat
    decreases ids.len(),
{
    if ids.len() == 0 {
        0
    } else {
        occurrences(ids.drop_last(), id) + if ids.last() == id {
            1nat
        } else {
            0nat
        }
    }
}

/// The adjacency lists after a block at node index `child` has been linked
/// to those of its `parents` that are resident, one parent after the other:
/// each resident parent gets the edge to `child` in front of its list.
pub open spec fn link_parents(
    children: Seq<Seq<int>>,
    hashes: Seq<Seq<char>>,
    parents: Seq<Seq<char>>,
    child: int,
) -> Seq<Seq<int>>
    decreases parents.len(),
{
    if parents.len() == 0 {
        children
    } else {
        let linked = link_parents(children, hashes, parents.drop_last(), child);
        let p = parents.last();
        if hashes.contains(p) {
            let s = hashes.index_of(p);
            linked.update(s, seq![child] + linked[s])
        } else {
            linked
        }
    }
}

impl DagView {
    /// An empty window of the given capacity.
    pub open spec fn fresh(capacity: nat) -> DagView {
        DagView { capacity, nodes: Seq::empty(), children: Seq::empty(), order: Seq::empty() }
    }

    /// The most blocks that are ever resident. A window made with capacity
    /// zero still holds the block that arrived last.
    pub open spec fn bound(self) -> nat {
        if self.capacity == 0 {
            1
        } else {
            self.capacity
        }
    }

    /// The identifiers of the resident blocks, by node index.
    pub open spec fn hashes(self) -> Seq<Seq<char>> {
        Seq::new(self.nodes.len(), |s: int| self.nodes[s].hash)
    }

    /// Whether a block with this identifier is resident.
    pub open spec fn contains(self, id: Seq<char>) -> bool {
        self.hashes().contains(id)
    }

    /// The node index of the resident block with this identifier.
    pub open spec fn slot_of(self, id: Seq<char>) -> int
        recommends
            self.contains(id),
    {
        self.hashes().index_of(id)
    }

    /// The number of resident blocks.
    pub open spec fn len(self) -> nat {
        self.nodes.len()
    }

    /// The invariant of the window.
    pub open spec fn wf(self) -> bool {
        &&& self.children.len() == self.nodes.len()
        &&& self.order.len() == self.nodes.len()
        &&& self.nodes.len() <= self.bound()
        &&& self.order.no_duplicates()
        &&& self.hashes().no_duplicates()
        &&& forall|i: int| 0 <= i < self.order.len() ==> self.hashes().contains(#[trigger] self.order[i])
        &&& forall|s: int| 0 <= s < self.nodes.len() ==> self.order.contains(#[trigger] self.hashes()[s])
        &&& forall|s: int, k: int|
            0 <= s < self.children.len() && 0 <= k < self.children[s].len() ==> 0 <= #[trigger] self.children[s][k]
                < self.nodes.len()
    }

    /// Whether the next new block pushes the oldest one out.
    pub open spec fn full(self) -> bool {
        self.order.len() > 0 && self.order.len() >= self.capacity
    }

    /// The window without its oldest block: the block and every edge from
    /// or to it are gone, and the block that had the last node index now
    /// has the freed one.
    pub open spec fn evicted(self) -> DagView
        recommends
            self.order.len() > 0,
    {
        let a = self.slot_of(self.order[0]);
        DagView {
            capacity: self.capacity,
            nodes: nodes_after_removal(self.nodes, a),
            children: children_after_removal(self.children, a),
            order: self.order.skip(1),
        }
    }

    /// The window with `b` as a new node without edges, at the next node
    /// index and last in the order of arrival.
    pub open spec fn grown(self, b: BlockView) -> DagView {
        DagView {
            capacity: self.capacity,
            nodes: self.nodes.push(b),
            children: self.children.push(Seq::empty()),
            order: self.order.push(b.hash),
        }
    }

    /// The window after room has been made for one more block.
    pub open spec fn with_room(self) -> DagView {
        if self.full() {
            self.evicted()
        } else {
            self
        }
    }

    /// The window after a block that is not resident has been inserted:
    /// the oldest block leaves if the window is full, the new block enters,
    /// and each of its parents that is resident then gets an edge to it.
    pub open spec fn inserted(self, b: BlockView) -> DagView {
        let g = self.with_room().grown(b);
        DagView {
            capacity: g.capacity,
            nodes: g.nodes,
            children: link_parents(g.children, g.hashes(), b.parents, g.nodes.len() - 1),
            order: g.order,
        }
    }

    /// The window after `add_block`: unchanged if the block is resident.
    pub open spec fn add_block(self, b: BlockView) -> DagView {
        if self.contains(b.hash) {
            self
        } else {
            self.inserted(b)
        }
    }
}


/// Every entry of a filtered sequence is an entry of the sequence itself.
pub proof fn lemma_filter_members(s: Seq<int>, pred: spec_fn(int) -> bool)
    ensures
        forall|k: int| 0 <= k < s.filter(pred).len() ==> s.contains(#[trigger] s.filter(pred)[k]),
    decreases s.len(),
{
    reveal(Seq::filter);
    if s.len() > 0 {
        let front = s.drop_last();
        lemma_filter_members(front, pred);
        assert forall|k: int| 0 <= k < s.filter(pred).len() implies s.contains(
            #[trigger] s.filter(pred)[k],
        ) by {
            let x = s.filter(pred)[k];
            if k < front.filter(pred).len() {
                assert(front.filter(pred)[k] == x);
                assert(front.contains(x));
                let i = choose|i: int| 0 <= i < front.len() && front[i] == x;
                assert(s[i] == x);
            } else {
                assert(s[s.len() - 1] == x);
            }
        }
    }
}

/// Linking keeps the number of adjacency lists, and every entry within the
/// node indices.
pub proof fn lemma_link_parents_shape(
    children: Seq<Seq<int>>,
    hashes: Seq<Seq<char>>,
    parents: Seq<Seq<char>>,
    child: int,
)
    requires
        children.len() == hashes.len(),
        0 <= child < hashes.len(),
        forall|s: int, k: int|
            0 <= s < children.len() && 0 <= k < children[s].len() ==> 0 <= #[trigger] children[s][k]
                < hashes.len(),
    ensures
        link_parents(children, hashes, parents, child).len() == children.len(),
        forall|s: int, k: int|
            0 <= s < children.len() && 0 <= k < link_parents(children, hashes, parents, child)[s].len()
                ==> 0 <= #[trigger] link_parents(children, hashes, parents, child)[s][k] < hashes.len(),
    decreases parents.len(),
{
    if parents.len() > 0 {
        lemma_link_parents_shape(children, hashes, parents.drop_last(), child);
    }
}

impl DagView {
    /// Evicting the oldest block keeps the invariant and frees one place.
    pub proof fn lemma_evicted_wf(self)
        requires
            self.wf(),
            self.order.len() > 0,
        ensures
            self.evicted().wf(),
            self.evicted().nodes.len() == self.nodes.len() - 1,
            !self.evicted().contains(self.order[0]),
            forall|id: Seq<char>| id != self.order[0] ==> (self.evicted().contains(id) <==> self.contains(id)),
    {
        let n = self.nodes.len() as int;
        let last = n - 1;
        let h = self.hashes();
        assert(h.contains(self.order[0]));
        let a = self.slot_of(self.order[0]);
        let e = self.evicted();
        let eh = e.hashes();
        assert(eh.len() == n - 1);
        assert forall|i: int| 0 <= i < n - 1 implies #[trigger] eh[i] == h[if i == a {
            last
        } else {
            i
        }] by {}
        assert forall|i: int| 0 <= i < e.order.len() implies eh.contains(#[trigger] e.order[i]) by {
            let id = self.order[i + 1];
            assert(e.order[i] == id);
            assert(h.contains(id));
            let s = choose|s: int| 0 <= s < h.len() && h[s] == id;
            assert(self.order[0] == h[a]);
            assert(s != a);
            if s == last {
                assert(eh[a] == id);
            } else {
                assert(eh[s] == id);
            }
        }
        assert forall|s: int| 0 <= s < e.nodes.len() implies e.order.contains(#[trigger] eh[s]) by {
            let src = if s == a {
                last
            } else {
                s
            };
            assert(self.order.contains(h[src]));
            let i = choose|i: int| 0 <= i < self.order.len() && self.order[i] == h[src];
            assert(i != 0);
            assert(e.order[i - 1] == h[src]);
        }
        assert forall|s: int, k: int|
            0 <= s < e.children.len() && 0 <= k < e.children[s].len() implies 0 <= #[trigger] e.children[s][k]
            < e.nodes.len() by {
            let src = if s == a {
                last
            } else {
                s
            };
            let pred = other_than(a);
            let kept = self.children[src].filter(pred);
            lemma_filter_members(self.children[src], pred);
            self.children[src].lemma_filter_pred(pred, k);
            let t = kept[k];
            assert(self.children[src].contains(t));
            let j = choose|j: int| 0 <= j < self.children[src].len() && self.children[src][j] == t;
            assert(0 <= self.children[src][j] < n);
        }
        assert forall|id: Seq<char>| id != self.order[0] implies (e.contains(id) <==> self.contains(
            id,
        )) by {
            if e.contains(id) {
                let s = choose|s: int| 0 <= s < eh.len() && eh[s] == id;
                assert(h[if s == a {
                    last
                } else {
                    s
                }] == id);
            }
            if self.contains(id) {
                let s = choose|s: int| 0 <= s < h.len() && h[s] == id;
                assert(s != a);
                if s == last {
                    assert(eh[a] == id);
                } else {
                    assert(eh[s] == id);
                }
            }
        }
        if e.contains(self.order[0]) {
            let s = choose|s: int| 0 <= s < eh.len() && eh[s] == self.order[0];
            assert(h[if s == a {
                last
            } else {
                s
            }] == h[a]);
        }
    }

    /// Inserting a block that is not resident keeps the invariant.
    pub proof fn lemma_inserted_wf(self, b: BlockView)
        requires
            self.wf(),
            !self.contains(b.hash),
        ensures
            self.with_room().wf(),
            self.with_room().grown(b).wf(),
            self.inserted(b).wf(),
            self.inserted(b).nodes.len() == self.with_room().nodes.len() + 1,
            self.inserted(b).contains(b.hash),
    {
        let r = self.with_room();
        if self.full() {
            self.lemma_evicted_wf();
        }
        assert(r.wf());
        assert(!r.contains(b.hash));
        assert(r.nodes.len() < self.bound());
        let g = r.grown(b);
        let gh = g.hashes();
        let rh = r.hashes();
        assert(gh =~= rh.push(b.hash));
        assert(gh[g.nodes.len() - 1] == b.hash);
        assert forall|i: int| 0 <= i < g.order.len() implies gh.contains(#[trigger] g.order[i]) by {
            if i < r.order.len() {
                assert(rh.contains(r.order[i]));
                let s = choose|s: int| 0 <= s < rh.len() && rh[s] == r.order[i];
                assert(gh[s] == g.order[i]);
            }
        }
        assert forall|s: int| 0 <= s < g.nodes.len() implies g.order.contains(#[trigger] gh[s]) by {
            if s < r.nodes.len() {
                assert(r.order.contains(rh[s]));
                let i = choose|i: int| 0 <= i < r.order.len() && r.order[i] == rh[s];
                assert(g.order[i] == gh[s]);
            } else {
                assert(g.order[g.order.len() - 1] == gh[s]);
            }
        }
        assert(g.order.no_duplicates()) by {
            assert forall|i: int, j: int|
                0 <= i < g.order.len() && 0 <= j < g.order.len() && i != j implies g.order[i] != g.order[j] by {
                if i < r.order.len() && j < r.order.len() {
                } else if i < r.order.len() {
                    assert(rh.contains(r.order[i]));
                } else {
                    assert(rh.contains(r.order[j]));
                }
            }
        }
        assert(gh.no_duplicates()) by {
            assert forall|i: int, j: int|
                0 <= i < gh.len() && 0 <= j < gh.len() && i != j implies gh[i] != gh[j] by {
                if i < rh.len() && j < rh.len() {
                    assert(gh[i] == rh[i] && gh[j] == rh[j]);
                } else if i < rh.len() {
                    assert(rh[i] == gh[i]);
                } else {
                    assert(rh[j] == gh[j]);
                }
            }
        }
        assert(g.wf());
        lemma_link_parents_shape(g.children, gh, b.parents, g.nodes.len() - 1);
        assert(self.inserted(b).hashes() =~= gh);
    }
}


/// The identifiers of a sequence of blocks.
pub open spec fn hashes_of(blocks: Seq<BlockView>) -> Seq<Seq<char>> {
    Seq::new(blocks.len(), |i: int| blocks[i].hash)
}

impl DagView {
    /// What `add_block` answers: whether the block was not resident.
    pub open spec fn adds(self, b: BlockView) -> bool {
        !self.contains(b.hash)
    }

    /// The window after `add_block` has been called with each of `blocks`
    /// in turn.
    pub open spec fn add_all(self, blocks: Seq<BlockView>) -> DagView
        decreases blocks.len(),
    {
        if blocks.len() == 0 {
            self
        } else {
            self.add_all(blocks.drop_last()).add_block(blocks.last())
        }
    }

    /// A block is resident exactly if its identifier is in the order of
    /// arrival.
    pub proof fn lemma_contains_iff_ordered(self, id: Seq<char>)
        requires
            self.wf(),
        ensures
            self.contains(id) <==> self.order.contains(id),
    {
        if self.contains(id) {
            let s = choose|s: int| 0 <= s < self.hashes().len() && self.hashes()[s] == id;
            assert(self.order.contains(self.hashes()[s]));
        }
        if self.order.contains(id) {
            let i = choose|i: int| 0 <= i < self.order.len() && self.order[i] == id;
            assert(self.hashes().contains(self.order[i]));
        }
    }

    /// `add_block` keeps the invariant, and so the window never holds more
    /// blocks than its bound.
    pub proof fn lemma_add_block_wf(self, b: BlockView)
        requires
            self.wf(),
        ensures
            self.add_block(b).wf(),
            self.add_block(b).capacity == self.capacity,
            self.add_block(b).len() <= self.bound(),
            self.add_block(b).contains(b.hash),
    {
        if !self.contains(b.hash) {
            self.lemma_inserted_wf(b);
        }
    }

    /// Whatever blocks are added to an empty window, in whatever order, the
    /// window never holds more of them than its capacity, if that is at
    /// least one.
    pub proof fn lemma_capacity_never_exceeded(capacity: nat, blocks: Seq<BlockView>)
        requires
            capacity >= 1,
        ensures
            DagView::fresh(capacity).add_all(blocks).wf(),
            DagView::fresh(capacity).add_all(blocks).capacity == capacity,
            DagView::fresh(capacity).add_all(blocks).len() <= capacity,
        decreases blocks.len(),
    {
        if blocks.len() > 0 {
            Self::lemma_capacity_never_exceeded(capacity, blocks.drop_last());
            DagView::fresh(capacity).add_all(blocks.drop_last()).lemma_add_block_wf(blocks.last());
        }
    }

    /// Adding a block twice is adding it once: the first call answers true
    /// for a block that was not resident, the second answers false and
    /// leaves the window as it is. Where the window was not full, it holds
    /// exactly one block more afterwards; where it was full, as many as
    /// before.
    pub proof fn lemma_add_block_idempotent(self, b: BlockView)
        requires
            self.wf(),
            !self.contains(b.hash),
        ensures
            self.adds(b),
            !self.add_block(b).adds(b),
            self.add_block(b).add_block(b) == self.add_block(b),
            !self.full() ==> self.add_block(b).len() == self.len() + 1,
            self.full() ==> self.add_block(b).len() == self.len(),
    {
        self.lemma_inserted_wf(b);
        if self.full() {
            self.lemma_evicted_wf();
        }
    }

    /// A new block that finds the window full pushes out the block that
    /// arrived first, whatever its weight, and no other.
    pub proof fn lemma_eviction_is_fifo(self, b: BlockView)
        requires
            self.wf(),
            self.full(),
            !self.contains(b.hash),
        ensures
            self.add_block(b).order == self.order.skip(1).push(b.hash),
            !self.add_block(b).contains(self.order[0]),
            forall|id: Seq<char>|
                id != self.order[0] && self.contains(id) ==> #[trigger] self.add_block(b).contains(id),
    {
        self.lemma_evicted_wf();
        self.lemma_inserted_wf(b);
        self.lemma_contains_iff_ordered(self.order[0]);
        let e = self.evicted();
        let v = self.add_block(b);
        assert(v.hashes() =~= e.hashes().push(b.hash));
        if v.contains(self.order[0]) {
            let s = choose|s: int| 0 <= s < v.hashes().len() && v.hashes()[s] == self.order[0];
            if s < e.hashes().len() {
                assert(e.hashes()[s] == self.order[0]);
            }
        }
        assert forall|id: Seq<char>| id != self.order[0] && self.contains(id) implies #[trigger] v.contains(
            id,
        ) by {
            assert(e.contains(id));
            let s = choose|s: int| 0 <= s < e.hashes().len() && e.hashes()[s] == id;
            assert(v.hashes()[s] == id);
        }
    }

    /// After blocks with distinct identifiers have been added to an empty
    /// window of capacity at least one, the window holds the most recent of
    /// them, as many as fit, in the order of arrival. So one block more
    /// than the capacity leaves all but the first.
    pub proof fn lemma_window_holds_most_recent(capacity: nat, blocks: Seq<BlockView>)
        requires
            capacity >= 1,
            hashes_of(blocks).no_duplicates(),
        ensures
            DagView::fresh(capacity).add_all(blocks).order == hashes_of(blocks).skip(
                if blocks.len() > capacity {
                    blocks.len() - capacity
                } else {
                    0
                },
            ),
        decreases blocks.len(),
    {
        let ids = hashes_of(blocks);
        if blocks.len() == 0 {
            assert(DagView::fresh(capacity).add_all(blocks).order =~= ids.skip(0));
        } else {
            let front = blocks.drop_last();
            let b = blocks.last();
            let n = blocks.len() as int;
            assert(hashes_of(front) =~= ids.drop_last());
            assert(hashes_of(front).no_duplicates());
            Self::lemma_window_holds_most_recent(capacity, front);
            Self::lemma_capacity_never_exceeded(capacity, front);
            let v = DagView::fresh(capacity).add_all(front);
            let start: int = if n - 1 > capacity {
                n - 1 - capacity
            } else {
                0
            };
            assert(v.order == hashes_of(front).skip(start));
            v.lemma_contains_iff_ordered(b.hash);
            if v.order.contains(b.hash) {
                let i = choose|i: int| 0 <= i < v.order.len() && v.order[i] == b.hash;
                assert(ids[start + i] == b.hash);
                assert(ids[n - 1] == b.hash);
            }
            v.lemma_inserted_wf(b);
            if v.full() {
                assert(v.add_block(b).order =~= ids.skip(start + 1));
            } else {
                assert(v.add_block(b).order =~= ids.skip(start));
            }
        }
    }
}

/// What linking does to each adjacency list: the list at `s` gains one
/// edge to the child for each time the identifier at `s` is named among the
/// parents, and nothing else changes.
pub proof fn lemma_link_parents_edges(
    children: Seq<Seq<int>>,
    hashes: Seq<Seq<char>>,
    parents: Seq<Seq<char>>,
    child: int,
    s: int,
)
    requires
        children.len() == hashes.len(),
        hashes.no_duplicates(),
        0 <= s < hashes.len(),
    ensures
        link_parents(children, hashes, parents, child).len() == children.len(),
        link_parents(children, hashes, parents, child)[s] == repeated(child, occurrences(parents, hashes[s]))
            + children[s],
    decreases parents.len(),
{
    if parents.len() == 0 {
        assert(repeated(child, 0) + children[s] =~= children[s]);
    } else {
        let front = parents.drop_last();
        let p = parents.last();
        lemma_link_parents_edges(children, hashes, front, child, s);
        let linked = link_parents(children, hashes, front, child);
        let m = occurrences(front, hashes[s]);
        if hashes.contains(p) {
            let at = hashes.index_of(p);
            lemma_link_parents_edges(children, hashes, front, child, at);
            if at == s {
                assert(seq![child] + (repeated(child, m) + children[s]) =~= repeated(child, m + 1) + children[s]);
            }
        } else {
            assert(hashes[s] != p);
        }
    }
}

impl DagView {
    /// The edges that a new block brings: the node of each resident block
    /// gets one edge to the new node for each time the new block names it
    /// as a parent, in front of the edges it had. A parent that is not
    /// resident, because it left or never came, gets no edge.
    pub proof fn lemma_edges_from_resident_parents(self, b: BlockView, s: int)
        requires
            self.wf(),
            !self.contains(b.hash),
            0 <= s < self.inserted(b).nodes.len(),
        ensures
            self.inserted(b).children[s] == repeated(
                self.inserted(b).nodes.len() - 1,
                occurrences(b.parents, self.inserted(b).nodes[s].hash),
            ) + self.with_room().grown(b).children[s],
    {
        self.lemma_inserted_wf(b);
        let g = self.with_room().grown(b);
        lemma_link_parents_edges(g.children, g.hashes(), b.parents, g.nodes.len() - 1, s);
    }

    /// A new block none of whose parents is resident brings no edge.
    pub proof fn lemma_absent_parents_make_no_edge(self, b: BlockView)
        requires
            self.wf(),
            !self.contains(b.hash),
            forall|k: int|
                0 <= k < b.parents.len() ==> !self.with_room().grown(b).contains(#[trigger] b.parents[k]),
        ensures
            self.inserted(b).children == self.with_room().grown(b).children,
    {
        let g = self.with_room().grown(b);
        lemma_link_nothing(g.children, g.hashes(), b.parents, g.nodes.len() - 1);
    }
}

/// Linking parents of which none is resident changes nothing.
pub proof fn lemma_link_nothing(
    children: Seq<Seq<int>>,
    hashes: Seq<Seq<char>>,
    parents: Seq<Seq<char>>,
    child: int,
)
    requires
        forall|k: int| 0 <= k < parents.len() ==> !hashes.contains(#[trigger] parents[k]),
    ensures
        link_parents(children, hashes, parents, child) == children,
    decreases parents.len(),
{
    if parents.len() > 0 {
        let front = parents.drop_last();
        assert forall|k: int| 0 <= k < front.len() implies !hashes.contains(#[trigger] front[k]) by {
            assert(front[k] == parents[k]);
        }
        lemma_link_nothing(children, hashes, front, child);
        assert(parents.last() == parents[parents.len() - 1]);
    }
}


/// An identifier that occurs in a list is contained in it.
pub proof fn lemma_occurring_is_contained(ids: Seq<Seq<char>>, id: Seq<char>)
    requires
        occurrences(ids, id) > 0,
    ensures
        ids.contains(id),
    decreases ids.len(),
{
    if ids.len() > 0 {
        if ids.last() == id {
            assert(ids[ids.len() - 1] == id);
        } else {
            lemma_occurring_is_contained(ids.drop_last(), id);
            let i = choose|i: int| 0 <= i < ids.drop_last().len() && ids.drop_last()[i] == id;
            assert(ids[i] == id);
        }
    }
}

impl DagView {
    /// Whether every edge leads from a block to a block that names it as a
    /// parent.
    pub open spec fn edges_justified(self) -> bool {
        forall|s: int, k: int|
            0 <= s < self.children.len() && 0 <= k < self.children[s].len() ==> self.nodes[#[trigger] self.children[s][k]].parents.contains(
                self.nodes[s].hash,
            )
    }

    /// Eviction leaves no edge behind that is not justified.
    proof fn lemma_evicted_justified(self)
        requires
            self.wf(),
            self.edges_justified(),
            self.order.len() > 0,
        ensures
            self.evicted().edges_justified(),
    {
        let n = self.nodes.len() as int;
        let last = n - 1;
        assert(self.hashes().contains(self.order[0]));
        let a = self.slot_of(self.order[0]);
        let e = self.evicted();
        assert forall|s: int, k: int| 0 <= s < e.children.len() && 0 <= k < e.children[s].len() implies e.nodes[#[trigger] e.children[s][k]].parents.contains(
            e.nodes[s].hash,
        ) by {
            let src = if s == a {
                last
            } else {
                s
            };
            let pred = other_than(a);
            let kept = self.children[src].filter(pred);
            lemma_filter_members(self.children[src], pred);
            self.children[src].lemma_filter_pred(pred, k);
            let t = kept[k];
            assert(self.children[src].contains(t));
            let j = choose|j: int| 0 <= j < self.children[src].len() && self.children[src][j] == t;
            assert(self.nodes[self.children[src][j]].parents.contains(self.nodes[src].hash));
            assert(0 <= self.children[src][j] < n);
        }
    }

    /// Every edge that `add_block` leaves leads from a block to a block
    /// that names it as a parent, if that held before.
    pub proof fn lemma_edges_stay_justified(self, b: BlockView)
        requires
            self.wf(),
            self.edges_justified(),
        ensures
            self.add_block(b).edges_justified(),
    {
        if !self.contains(b.hash) {
            self.lemma_inserted_wf(b);
            if self.full() {
                self.lemma_evicted_wf();
                self.lemma_evicted_justified();
            }
            let r = self.with_room();
            let g = r.grown(b);
            let v = self.inserted(b);
            let child = g.nodes.len() - 1;
            assert forall|s: int, k: int| 0 <= s < v.children.len() && 0 <= k < v.children[s].len() implies v.nodes[#[trigger] v.children[s][k]].parents.contains(
                v.nodes[s].hash,
            ) by {
                lemma_link_parents_edges(g.children, g.hashes(), b.parents, child, s);
                let m = occurrences(b.parents, g.hashes()[s]);
                if k < m {
                    lemma_occurring_is_contained(b.parents, g.hashes()[s]);
                    assert(v.children[s][k] == child);
                } else {
                    assert(v.children[s][k] == g.children[s][k - m]);
                    assert(s < r.children.len());
                    assert(g.children[s][k - m] == r.children[s][k - m]);
                    assert(r.nodes[r.children[s][k - m]].parents.contains(r.nodes[s].hash));
                    assert(0 <= r.children[s][k - m] < r.nodes.len());
                }
            }
        }
    }

    /// In a window that was filled by `add_block` alone, every edge leads
    /// from a block to a block that names it as a parent: no edge stands
    /// for a parent that is not resident.
    pub proof fn lemma_edges_always_justified(capacity: nat, blocks: Seq<BlockView>)
        ensures
            DagView::fresh(capacity).add_all(blocks).wf(),
            DagView::fresh(capacity).add_all(blocks).edges_justified(),
        decreases blocks.len(),
    {
        if blocks.len() > 0 {
            Self::lemma_edges_always_justified(capacity, blocks.drop_last());
            let v = DagView::fresh(capacity).add_all(blocks.drop_last());
            v.lemma_add_block_wf(blocks.last());
            v.lemma_edges_stay_justified(blocks.last());
        }
    }

    /// While the window is not full, a new block pushes nothing out.
    pub proof fn lemma_nothing_leaves_before_full(self, b: BlockView, id: Seq<char>)
        requires
            self.wf(),
            !self.full(),
            self.contains(id),
        ensures
            self.add_block(b).contains(id),
    {
        if !self.contains(b.hash) {
            let s = choose|s: int| 0 <= s < self.hashes().len() && self.hashes()[s] == id;
            assert(self.inserted(b).hashes()[s] == id);
        }
    }
}

/// How many edges of an adjacency list lead to the node at `t`.
pub open spec fn edges_to(list: Seq<int>, t: int) -> nat
    decreases list.len(),
{
    if list.len() == 0 {
        0
    } else {
        edges_to(list.drop_last(), t) + if list.last() == t {
            1nat
        } else {
            0nat
        }
    }
}

/// Removing the node at `a` from an adjacency list and renaming the rest
/// keeps the number of edges to every other node.
pub proof fn lemma_removal_keeps_other_edges(list: Seq<int>, a: int, last: int, t: int)
    requires
        0 <= a <= last,
        0 <= t <= last,
        t != a,
        forall|k: int| 0 <= k < list.len() ==> 0 <= #[trigger] list[k] <= last,
    ensures
        edges_to(list.filter(other_than(a)).map_values(renamed(a, last)), index_after_removal(t, a, last))
            == edges_to(list, t),
    decreases list.len(),
{
    reveal(Seq::filter);
    let pred = other_than(a);
    let ren = renamed(a, last);
    if list.len() > 0 {
        let front = list.drop_last();
        let x = list.last();
        assert(x == list[list.len() - 1]);
        assert forall|k: int| 0 <= k < front.len() implies 0 <= #[trigger] front[k] <= last by {
            assert(front[k] == list[k]);
        }
        lemma_removal_keeps_other_edges(front, a, last, t);
        let kept = front.filter(pred).map_values(ren);
        if pred(x) {
            assert(list.filter(pred) == front.filter(pred).push(x));
            let all = list.filter(pred).map_values(ren);
            assert(all.drop_last() =~= kept);
            assert(all.last() == ren(x));
        }
    }
}

impl DagView {
    /// Eviction takes along the edges of the block that leaves and no
    /// others: between any two blocks that stay there are as many edges as
    /// before, under the node indices that the two now have.
    pub proof fn lemma_eviction_keeps_other_edges(self, s: int, t: int)
        requires
            self.wf(),
            self.order.len() > 0,
            0 <= s < self.nodes.len(),
            0 <= t < self.nodes.len(),
            s != self.slot_of(self.order[0]),
            t != self.slot_of(self.order[0]),
        ensures
            ({
                let a = self.slot_of(self.order[0]);
                let last = self.nodes.len() - 1;
                &&& self.evicted().nodes[index_after_removal(s, a, last)] == self.nodes[s]
                &&& self.evicted().nodes[index_after_removal(t, a, last)] == self.nodes[t]
                &&& edges_to(
                    self.evicted().children[index_after_removal(s, a, last)],
                    index_after_removal(t, a, last),
                ) == edges_to(self.children[s], t)
            }),
    {
        assert(self.hashes().contains(self.order[0]));
        let a = self.slot_of(self.order[0]);
        let last = self.nodes.len() - 1;
        assert forall|k: int| 0 <= k < self.children[s].len() implies 0 <= #[trigger] self.children[s][k]
            <= last by {}
        lemma_removal_keeps_other_edges(self.children[s], a, last, t);
    }
}

} // verus!
