//! A rolling DAG with fixed capacity: when it is full, the block that
//! arrived first makes room for the next one.

use vstd::prelude::*;
use std::collections::VecDeque;
use crate::block::{copy_ids, ids_of, BlockInfo, BlockView};
use crate::graph::{
    dag_children, dag_nodes, graph_add_edge, graph_add_node, graph_betweenness, graph_children,
    graph_empty, graph_node, graph_node_count, graph_remove_node,
};
use crate::fracture::score_or_zero;
use crate::model::{link_parents, DagView};

verus! {

/// The node indices of a list, as mathematical integers.
pub open spec fn indices(list: Seq<usize>) -> Seq<int> {
    Seq::new(list.len(), |k: int| list[k] as int)
}

/// The views of a sequence of blocks.
pub open spec fn block_views(blocks: Seq<BlockInfo>) -> Seq<BlockView> {
    Seq::new(blocks.len(), |i: int| blocks[i]@)
}

/// A rolling DAG with fixed capacity. When at capacity, the oldest blocks are evicted.
pub struct RollingDag {
    graph: petgraph::graph::Graph<BlockInfo, (), petgraph::Directed, usize>,
    order: VecDeque<String>,
    capacity: usize,
}

impl View for RollingDag {
    type V = DagView;

    closed spec fn view(&self) -> DagView {
        DagView {
            capacity: self.capacity as nat,
            nodes: block_views(dag_nodes(self.graph)),
            children: dag_children(self.graph),
            order: ids_of(self.order@),
        }
    }
}

impl RollingDag {
    /// The invariant that every operation keeps.
    pub open spec fn wf(&self) -> bool {
        self@.wf()
    }

    /// Creates a new RollingDag with the given capacity.
    pub fn new(capacity: usize) -> (dag: Self)
        ensures
            dag.wf(),
            dag@ == DagView::fresh(capacity as nat),
    {
        let dag = RollingDag { graph: graph_empty(), order: VecDeque::new(), capacity };
        assert(dag@.nodes =~= Seq::<BlockView>::empty());
        assert(dag@.order =~= Seq::<Seq<char>>::empty());
        dag
    }

    /// The number of resident blocks.
    pub fn len(&self) -> (n: usize)
        ensures
            n == self@.nodes.len(),
    {
        graph_node_count(&self.graph)
    }

    /// The capacity that the window was made with.
    pub fn capacity(&self) -> (c: usize)
        ensures
            c == self@.capacity,
    {
        self.capacity
    }

    /// The block at a node index, if the index denotes one.
    pub fn block(&self, slot: usize) -> (found: Option<&BlockInfo>)
        ensures
            found is Some <==> slot < self@.nodes.len(),
            found matches Some(b) ==> b@ == self@.nodes[slot as int],
    {
        if slot < graph_node_count(&self.graph) {
            Some(graph_node(&self.graph, slot))
        } else {
            None
        }
    }

    /// The node index of the resident block with this identifier.
    pub fn slot_of(&self, id: &String) -> (slot: Option<usize>)
        requires
            self.wf(),
        ensures
            slot is Some <==> self@.contains(id@),
            slot matches Some(s) ==> s == self@.slot_of(id@) && s < self@.nodes.len() && self@.nodes[s as int].hash
                == id@,
    {
        let n = graph_node_count(&self.graph);
        let mut s: usize = 0;
        while s < n
            invariant
                s <= n,
                self.wf(),
                n == self@.nodes.len(),
                forall|t: int| 0 <= t < s ==> self@.hashes()[t] != id@,
            decreases n - s,
        {
            if graph_node(&self.graph, s).hash == *id {
                assert(self@.hashes()[s as int] == id@);
                assert(self@.hashes()[self@.hashes().index_of(id@)] == id@);
                return Some(s);
            }
            s += 1;
        }
        None
    }

    /// Whether a block with this identifier is resident.
    pub fn contains(&self, id: &String) -> (found: bool)
        requires
            self.wf(),
        ensures
            found == self@.contains(id@),
    {
        self.slot_of(id).is_some()
    }

    /// Removes the oldest block, which leaves with all its edges.
    fn evict_oldest(&mut self)
        requires
            old(self).wf(),
            old(self)@.order.len() > 0,
        ensures
            final(self)@ == old(self)@.evicted(),
    {
        let found = self.slot_of(&self.order[0]);
        assert(self@.order[0] == self.order@[0]@);
        assert(self@.hashes().contains(self@.order[0]));
        match found {
            Some(a) => {
                graph_remove_node(&mut self.graph, a);
                let _ = self.order.pop_front();
                assert(self@.nodes =~= old(self)@.evicted().nodes);
                assert(self@.order =~= old(self)@.evicted().order);
            },
            None => {},
        }
    }

    /// Adds a block to the DAG.
    /// If the DAG is at capacity, the oldest block is evicted with its edges.
    /// Each parent of the block that is resident gets an edge to it.
    /// Returns true if the block was added; false if it was already present.
    pub fn add_block(&mut self, block: BlockInfo) -> (added: bool)
        requires
            old(self).wf(),
        ensures
            final(self).wf(),
            added == !old(self)@.contains(block@.hash),
            final(self)@ == old(self)@.add_block(block@),
    {
        if self.slot_of(&block.hash).is_some() {
            return false;
        }
        proof {
            old(self)@.lemma_inserted_wf(block@);
        }
        if self.order.len() > 0 && self.order.len() >= self.capacity {
            self.evict_oldest();
        }
        assert(self@ == old(self)@.with_room());
        let hash = block.hash.clone();
        let parents = copy_ids(&block.parents);
        let node = graph_add_node(&mut self.graph, block);
        self.order.push_back(hash);
        let ghost grown = old(self)@.with_room().grown(block@);
        assert(self@.nodes =~= grown.nodes);
        assert(self@.order =~= grown.order);
        assert(self@ == grown);
        let ghost hashes = grown.hashes();
        let mut k: usize = 0;
        while k < parents.len()
            invariant
                k <= parents.len(),
                ids_of(parents@) == block@.parents,
                node == grown.nodes.len() - 1,
                hashes == grown.hashes(),
                grown.wf(),
                self@.capacity == grown.capacity,
                self@.nodes == grown.nodes,
                self@.order == grown.order,
                self@.children == link_parents(grown.children, hashes, block@.parents.take(k as int), node as int),
                self.wf(),
            decreases parents.len() - k,
        {
            let ghost p = block@.parents[k as int];
            assert(p == parents@[k as int]@);
            assert(block@.parents.take(k + 1).drop_last() =~= block@.parents.take(k as int));
            assert(block@.parents.take(k + 1).last() == p);
            match self.slot_of(&parents[k]) {
                Some(s) => {
                    graph_add_edge(&mut self.graph, s, node);
                    assert(self@.nodes =~= grown.nodes);
                },
                None => {},
            }
            k += 1;
            proof {
                crate::model::lemma_link_parents_shape(
                    grown.children,
                    hashes,
                    block@.parents.take(k as int),
                    node as int,
                );
            }
        }
        assert(block@.parents.take(k as int) =~= block@.parents);
        true
    }

    /// The block at a node index that denotes one.
    pub(crate) fn node(&self, slot: usize) -> (b: &BlockInfo)
        requires
            slot < self@.nodes.len(),
        ensures
            b@ == self@.nodes[slot as int],
    {
        graph_node(&self.graph, slot)
    }

    /// The children of the node at an index that denotes one.
    pub(crate) fn kids(&self, slot: usize) -> (list: Vec<usize>)
        requires
            self.wf(),
            slot < self@.nodes.len(),
        ensures
            indices(list@) == self@.children[slot as int],
            forall|k: int| 0 <= k < list@.len() ==> #[trigger] list@[k] < self@.nodes.len(),
    {
        let list = graph_children(&self.graph, slot);
        assert(indices(list@) =~= self@.children[slot as int]);
        assert forall|k: int| 0 <= k < list@.len() implies #[trigger] list@[k] < self@.nodes.len() by {
            assert(list@[k] as int == self@.children[slot as int][k]);
        }
        list
    }

    /// The node indices of the blocks that name the block at `slot` as a
    /// parent and arrived while it was resident, one for each edge, the
    /// most recent edge first; nothing if the index denotes no block.
    pub fn children(&self, slot: usize) -> (found: Option<Vec<usize>>)
        requires
            self.wf(),
        ensures
            found is Some <==> slot < self@.nodes.len(),
            found matches Some(list) ==> indices(list@) == self@.children[slot as int],
    {
        if slot < graph_node_count(&self.graph) {
            Some(self.kids(slot))
        } else {
            None
        }
    }

    /// The betweenness centrality of every node, by node index, computed
    /// afresh over the whole window.
    pub fn centrality(&self) -> (scores: Vec<u64>)
        requires
            self.wf(),
        ensures
            scores@ == self@.centrality(),
            scores@.len() == self@.nodes.len(),
    {
        let raw = graph_betweenness(&self.graph);
        let mut scores: Vec<u64> = Vec::new();
        let mut s: usize = 0;
        while s < raw.len()
            invariant
                s <= raw.len(),
                scores.len() == s,
                forall|t: int| 0 <= t < s ==> scores@[t] == score_or_zero(raw@[t]),
            decreases raw.len() - s,
        {
            scores.push(
                match raw[s] {
                    Some(bits) => bits,
                    None => 0,
                },
            );
            s += 1;
        }
        assert(scores@ =~= self@.centrality());
        scores
    }
}

} // verus!
