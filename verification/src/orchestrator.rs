//! One turn of the daemon for each block that arrives: the window takes the
//! block, the block is classified, the controller learns of it, and a
//! fracture, if there is one, is weighed for a stitch.
//!
//! Reading the ledger, broadcasting and paying are left to the caller, who
//! hands in each block with the time and acts on the report.

use vstd::prelude::*;
use crate::adaptive::AdaptiveEngine;
use crate::block::{ids_of, BlockInfo};
use crate::config::Config;
use crate::dag::{indices, RollingDag};
use crate::model::DagView;
use crate::rate::{block_rate, recent_times, RateMeter};

verus! {

/// By how much a tip is heavier than the weak block; zero if it is not.
pub open spec fn lead(base: u64, tip: u64) -> int {
    if tip > base {
        tip - base
    } else {
        0
    }
}

/// The largest lead over `base` among the first `k` scores, zero for none.
pub open spec fn max_lead_among(base: u64, scores: Seq<u64>, k: int) -> int
    decreases k,
{
    if k <= 0 {
        0
    } else {
        let before = max_lead_among(base, scores, k - 1);
        if lead(base, scores[k - 1]) > before {
            lead(base, scores[k - 1])
        } else {
            before
        }
    }
}

/// The largest lead over `base` among the scores.
pub open spec fn max_lead(base: u64, scores: Seq<u64>) -> int {
    max_lead_among(base, scores, scores.len() as int)
}

impl DagView {
    /// The identifiers of the nodes at these indices.
    pub open spec fn ids_at(self, slots: Seq<int>) -> Seq<Seq<char>> {
        Seq::new(slots.len(), |k: int| self.nodes[slots[k]].hash)
    }

    /// The weights of the nodes at these indices.
    pub open spec fn scores_at(self, slots: Seq<int>) -> Seq<u64> {
        Seq::new(slots.len(), |k: int| self.nodes[slots[k]].blue_score)
    }
}

/// A fracture as it was found and weighed.
pub struct Fracture {
    /// Node index of the weak block.
    pub weak_slot: usize,
    /// Node indices of all children of the weak block.
    pub tip_slots: Vec<usize>,
    /// Identifier of the weak block.
    pub weak: String,
    /// Identifiers of the children, as in `tip_slots`.
    pub tips: Vec<String>,
    /// The largest lead of a tip over the weak block.
    pub delta: u64,
    /// The suspicion score, in millionths.
    pub sus: u64,
    /// The reward, in sompi.
    pub reward: u64,
    /// Whether a stitch is to be sent; the controller has then recorded it.
    pub stitch: bool,
}

/// What one turn came to.
pub struct Cycle {
    /// Whether the block was new to the window.
    pub added: bool,
    /// Whether the block is off the selected chain.
    pub is_orphan: bool,
    /// The block rate, in thousandths of a block per second.
    pub bps: u64,
    /// The fracture of the window after the block, if there is one.
    pub fracture: Option<Fracture>,
}

/// The window, the controller and the meter that one loop owns.
pub struct Orchestrator {
    pub dag: RollingDag,
    pub engine: AdaptiveEngine,
    pub meter: RateMeter,
}

/// The largest lead over `base` among the scores.
pub fn largest_lead(base: u64, scores: &Vec<u64>) -> (delta: u64)
    ensures
        delta == max_lead(base, scores@),
{
    let mut delta: u64 = 0;
    let mut k: usize = 0;
    while k < scores.len()
        invariant
            k <= scores.len(),
            delta == max_lead_among(base, scores@, k as int),
        decreases scores.len() - k,
    {
        let d = if scores[k] > base {
            scores[k] - base
        } else {
            0
        };
        if d > delta {
            delta = d;
        }
        k += 1;
    }
    delta
}

impl Orchestrator {
    /// The invariant that every turn keeps.
    pub open spec fn wf(&self) -> bool {
        self.dag.wf() && self.meter.wf()
    }

    /// An empty window of the configured capacity, a controller with the
    /// configured settings, and a meter that has seen nothing.
    pub fn new(cfg: &Config) -> (o: Self)
        ensures
            o.wf(),
            o.dag@ == DagView::fresh(cfg.dag_window as nat),
            o.engine@ == crate::adaptive::EngineView::initial(*cfg),
            o.meter@ == Seq::<i64>::empty(),
    {
        Orchestrator {
            dag: RollingDag::new(cfg.dag_window),
            engine: AdaptiveEngine::new(cfg),
            meter: RateMeter::new(),
        }
    }

    /// The identifiers and the weights of the blocks at these node indices.
    fn describe(&self, slots: &Vec<usize>) -> (out: (Vec<String>, Vec<u64>))
        requires
            self.dag.wf(),
            forall|k: int| 0 <= k < slots@.len() ==> #[trigger] slots@[k] < self.dag@.nodes.len(),
        ensures
            ids_of(out.0@) == self.dag@.ids_at(indices(slots@)),
            out.1@ == self.dag@.scores_at(indices(slots@)),
    {
        let mut ids: Vec<String> = Vec::new();
        let mut scores: Vec<u64> = Vec::new();
        let mut k: usize = 0;
        while k < slots.len()
            invariant
                k <= slots.len(),
                ids.len() == k,
                scores.len() == k,
                forall|j: int| 0 <= j < slots@.len() ==> #[trigger] slots@[j] < self.dag@.nodes.len(),
                forall|j: int| 0 <= j < k ==> ids@[j]@ == self.dag@.nodes[slots@[j] as int].hash,
                forall|j: int| 0 <= j < k ==> scores@[j] == self.dag@.nodes[slots@[j] as int].blue_score,
            decreases slots.len() - k,
        {
            let b = self.dag.node(slots[k]);
            ids.push(b.hash.clone());
            scores.push(b.blue_score);
            k += 1;
        }
        assert(ids_of(ids@) =~= self.dag@.ids_at(indices(slots@)));
        assert(scores@ =~= self.dag@.scores_at(indices(slots@)));
        (ids, scores)
    }

    /// Takes one block that arrived at `now_ms` milliseconds, which is
    /// `now_secs` seconds.
    ///
    /// The meter records the arrival. The window takes the block. The
    /// block counts as an orphan if it is then off the selected chain, and
    /// the controller is told. The window is searched for a fracture with
    /// the controller's current delta threshold. A fracture is weighed:
    /// its delta is the largest lead of a tip over the weak block, and from
    /// it and the block rate the controller gives the suspicion score, the
    /// reward and the decision. Where the decision is to stitch, the
    /// controller records the stitch at `now_secs`.
    pub fn on_block(&mut self, block: BlockInfo, now_ms: i64, now_secs: i64) -> (cycle: Cycle)
        requires
            old(self).wf(),
        ensures
            final(self).wf(),
            final(self).meter@ == recent_times(old(self).meter@.push(now_ms)),
            cycle.bps == block_rate(final(self).meter@),
            final(self).dag@ == old(self).dag@.add_block(block@),
            cycle.added == old(self).dag@.adds(block@),
            cycle.is_orphan == !final(self).dag@.in_selected_chain(block@.hash),
            ({
                let dag = final(self).dag@;
                let told = old(self).engine@.updated(cycle.is_orphan);
                &&& dag.fracture_is(
                    dag.centrality(),
                    told.min_delta() as u64,
                    match cycle.fracture {
                        Some(f) => Some((f.weak_slot as int, indices(f.tip_slots@))),
                        None => None,
                    },
                )
                &&& match cycle.fracture {
                    Some(f) => {
                        &&& f.weak@ == dag.nodes[f.weak_slot as int].hash
                        &&& ids_of(f.tips@) == dag.ids_at(indices(f.tip_slots@))
                        &&& f.delta == max_lead(
                            dag.nodes[f.weak_slot as int].blue_score,
                            dag.scores_at(indices(f.tip_slots@)),
                        )
                        &&& f.sus == told.sus(f.delta, cycle.bps)
                        &&& f.reward == told.reward(f.sus)
                        &&& f.stitch == told.should_stitch(f.delta, cycle.bps, now_secs)
                        &&& final(self).engine@ == if f.stitch {
                            told.stitched(now_secs)
                        } else {
                            told
                        }
                    },
                    None => final(self).engine@ == told,
                }
            }),
    {
        self.meter.record(now_ms);
        let bps = self.meter.bps();
        let copy = block.clone();
        let added = self.dag.add_block(copy);
        let is_orphan = !self.dag.is_in_selected_chain(&block);
        self.engine.update_block(&block, is_orphan);
        let threshold = self.engine.min_delta();
        let fracture = match self.dag.find_fracture(threshold) {
            Some((weak_slot, tip_slots)) => {
                let weak = self.dag.node(weak_slot);
                assert forall|k: int| 0 <= k < tip_slots@.len() implies #[trigger] tip_slots@[k]
                    < self.dag@.nodes.len() by {
                    assert(indices(tip_slots@)[k] == self.dag@.children[weak_slot as int][k]);
                }
                let (tips, scores) = self.describe(&tip_slots);
                let delta = largest_lead(weak.blue_score, &scores);
                let sus = self.engine.sus(delta, bps);
                let stitch = self.engine.should_stitch(delta, bps, now_secs);
                let reward = self.engine.reward(sus);
                let weak_id = weak.hash.clone();
                if stitch {
                    self.engine.record_stitch(now_secs);
                }
                Some(Fracture { weak_slot, tip_slots, weak: weak_id, tips, delta, sus, reward, stitch })
            },
            None => None,
        };
        Cycle { added, is_orphan, bps, fracture }
    }
}


/// The tips from which the window is filled at startup: the last `window`
/// of the ledger's tips, last first.
pub open spec fn bootstrap_order(tips: Seq<Seq<char>>, window: nat) -> Seq<Seq<char>> {
    Seq::new(
        if tips.len() < window {
            tips.len()
        } else {
            window
        },
        |i: int| tips[tips.len() - 1 - i],
    )
}

/// The identifiers of the blocks to fetch at startup, in the order in
/// which to add them.
pub fn bootstrap_targets(tips: &Vec<String>, window: usize) -> (targets: Vec<String>)
    ensures
        ids_of(targets@) == bootstrap_order(ids_of(tips@), window as nat),
{
    let count = if tips.len() < window {
        tips.len()
    } else {
        window
    };
    let mut targets: Vec<String> = Vec::new();
    let mut i: usize = 0;
    while i < count
        invariant
            i <= count,
            count <= tips.len(),
            targets.len() == i,
            forall|j: int| 0 <= j < i ==> targets@[j]@ == tips@[tips.len() - 1 - j]@,
        decreases count - i,
    {
        targets.push(tips[tips.len() - 1 - i].clone());
        i += 1;
    }
    assert(ids_of(targets@) =~= bootstrap_order(ids_of(tips@), window as nat));
    targets
}

} // verus!
