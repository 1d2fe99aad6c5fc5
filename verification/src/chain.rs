//! The selected chain of the window, by which a block counts as orphaned
//! or not.
//!
//! The chain starts at the heaviest resident block and goes on, from each
//! block, to the heaviest of its parents that are resident, for as long as
//! that parent is lighter than the block. On a ledger a parent is always
//! lighter than its child; the condition is what makes the walk end on any
//! data.

use vstd::prelude::*;
use crate::block::BlockInfo;
use crate::dag::RollingDag;
use crate::model::DagView;

verus! {

impl DagView {
    /// The node index of the heaviest of the first `k` nodes, the lowest
    /// index among equals.
    pub open spec fn heaviest_among(self, k: int) -> int
        decreases k,
    {
        if k <= 1 {
            0
        } else {
            let h = self.heaviest_among(k - 1);
            if self.nodes[k - 1].blue_score > self.nodes[h].blue_score {
                k - 1
            } else {
                h
            }
        }
    }

    /// The node index of the heaviest resident block, where the chain starts.
    pub open spec fn best_tip(self) -> int {
        self.heaviest_among(self.nodes.len() as int)
    }

    /// The node index of the heaviest resident block among the first `k`
    /// parents that the block at `s` names, the one named first among
    /// equals; nothing if none of them is resident.
    pub open spec fn selected_parent_among(self, s: int, k: int) -> Option<int>
        decreases k,
    {
        if k <= 0 {
            None
        } else {
            let before = self.selected_parent_among(s, k - 1);
            let p = self.nodes[s].parents[k - 1];
            if self.contains(p) {
                let slot = self.slot_of(p);
                if before is Some && self.nodes[before->0].blue_score >= self.nodes[slot].blue_score {
                    before
                } else {
                    Some(slot)
                }
            } else {
                before
            }
        }
    }

    /// The node index of the selected parent of the block at `s`.
    pub open spec fn selected_parent(self, s: int) -> Option<int> {
        self.selected_parent_among(s, self.nodes[s].parents.len() as int)
    }

    /// Whether the chain, followed from the node at `cur`, comes to the node
    /// at `target`.
    pub open spec fn chain_reaches(self, cur: int, target: int) -> bool
        decreases self.nodes[cur].blue_score,
    {
        cur == target || {
            let next = self.selected_parent(cur);
            next is Some && self.nodes[next->0].blue_score < self.nodes[cur].blue_score && self.chain_reaches(
                next->0,
                target,
            )
        }
    }

    /// Whether the block with this identifier is resident and lies on the
    /// selected chain.
    pub open spec fn in_selected_chain(self, id: Seq<char>) -> bool {
        self.contains(id) && self.chain_reaches(self.best_tip(), self.slot_of(id))
    }
}

impl RollingDag {
    /// The node index of the heaviest resident block, the lowest index
    /// among equals; nothing in an empty window.
    pub fn best_tip(&self) -> (tip: Option<usize>)
        requires
            self.wf(),
        ensures
            tip is Some <==> self@.nodes.len() > 0,
            tip matches Some(t) ==> t == self@.best_tip() && t < self@.nodes.len(),
    {
        let n = self.len();
        if n == 0 {
            return None;
        }
        let mut best: usize = 0;
        let mut s: usize = 1;
        while s < n
            invariant
                1 <= s <= n,
                n == self@.nodes.len(),
                best < s,
                best == self@.heaviest_among(s as int),
            decreases n - s,
        {
            if self.node(s).blue_score > self.node(best).blue_score {
                best = s;
            }
            s += 1;
        }
        Some(best)
    }

    /// The node index of the heaviest resident parent of the block at
    /// `slot`, the one named first among equals.
    pub fn selected_parent(&self, slot: usize) -> (parent: Option<usize>)
        requires
            self.wf(),
            slot < self@.nodes.len(),
        ensures
            parent matches Some(p) ==> p < self@.nodes.len(),
            (match parent {
                Some(p) => Some(p as int),
                None => None,
            }) == self@.selected_parent(slot as int),
    {
        let block = self.node(slot);
        let mut best: Option<usize> = None;
        let mut k: usize = 0;
        while k < block.parents.len()
            invariant
                k <= block.parents.len(),
                self.wf(),
                slot < self@.nodes.len(),
                block@ == self@.nodes[slot as int],
                best matches Some(p) ==> p < self@.nodes.len(),
                (match best {
                    Some(p) => Some(p as int),
                    None => None,
                }) == self@.selected_parent_among(slot as int, k as int),
            decreases block.parents.len() - k,
        {
            assert(block@.parents[k as int] == block.parents@[k as int]@);
            match self.slot_of(&block.parents[k]) {
                Some(p) => {
                    let keep = match best {
                        Some(q) => self.node(q).blue_score >= self.node(p).blue_score,
                        None => false,
                    };
                    if !keep {
                        best = Some(p);
                    }
                },
                None => {},
            }
            k += 1;
        }
        best
    }

    /// Whether the block lies on the selected chain of the window as it is
    /// now. A block that is not resident does not.
    pub fn is_in_selected_chain(&self, block: &BlockInfo) -> (on_chain: bool)
        requires
            self.wf(),
        ensures
            on_chain == self@.in_selected_chain(block@.hash),
    {
        let target = match self.slot_of(&block.hash) {
            Some(t) => t,
            None => {
                return false;
            },
        };
        let mut cur = match self.best_tip() {
            Some(t) => t,
            None => {
                return false;
            },
        };
        loop
            invariant
                self.wf(),
                cur < self@.nodes.len(),
                target < self@.nodes.len(),
                self@.chain_reaches(cur as int, target as int) == self@.in_selected_chain(block@.hash),
            decreases self@.nodes[cur as int].blue_score,
        {
            if cur == target {
                return true;
            }
            match self.selected_parent(cur) {
                Some(p) => {
                    if self.node(p).blue_score < self.node(cur).blue_score {
                        cur = p;
                    } else {
                        return false;
                    }
                },
                None => {
                    return false;
                },
            }
        }
    }
}

} // verus!
