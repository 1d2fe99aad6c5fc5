//! Fractures: which nodes of the window qualify, and which of them is
//! chosen.

use vstd::prelude::*;
use crate::dag::{indices, RollingDag};
use crate::graph::betweenness_bits;
use crate::model::DagView;

verus! {

/// The absolute difference of two consensus weights.
pub open spec fn gap(a: u64, b: u64) -> int {
    if a >= b {
        a - b
    } else {
        b - a
    }
}

/// The score at a node index, zero where there is none.
pub open spec fn score_or_zero(score: Option<u64>) -> u64 {
    match score {
        Some(bits) => bits,
        None => 0,
    }
}

/// The smaller of two numbers.
pub open spec fn least(a: int, b: int) -> int {
    if a <= b {
        a
    } else {
        b
    }
}

impl DagView {
    /// The weight gap between the node at `s` and its `k`-th child.
    pub open spec fn child_gap(self, s: int, k: int) -> int {
        gap(self.nodes[s].blue_score, self.nodes[self.children[s][k]].blue_score)
    }

    /// The smallest weight gap between the node at `s` and any of its first
    /// `k` children; the largest weight there is, if `k` is zero.
    pub open spec fn min_gap_among(self, s: int, k: int) -> int
        decreases k,
    {
        if k <= 0 {
            u64::MAX as int
        } else {
            least(self.min_gap_among(s, k - 1), self.child_gap(s, k - 1))
        }
    }

    /// The smallest weight gap between the node at `s` and any of its
    /// children.
    pub open spec fn min_gap(self, s: int) -> int {
        self.min_gap_among(s, self.children[s].len() as int)
    }

    /// A candidate has at least two outgoing edges, and no child whose
    /// weight is closer to its own than `min_delta`.
    pub open spec fn is_candidate(self, s: int, min_delta: u64) -> bool {
        &&& 0 <= s < self.nodes.len()
        &&& self.children[s].len() >= 2
        &&& self.min_gap(s) >= min_delta
    }

    /// Whether the node at `t` goes before the node at `s`: by the higher
    /// centrality score, and among equal scores by the smaller gap.
    pub open spec fn preferred(self, scores: Seq<u64>, t: int, s: int) -> bool {
        scores[t] > scores[s] || (scores[t] == scores[s] && self.min_gap(t) < self.min_gap(s))
    }

    /// The node at `w` is the fracture: a candidate that no candidate goes
    /// before, and the one with the lowest node index among such.
    pub open spec fn is_fracture(self, scores: Seq<u64>, min_delta: u64, w: int) -> bool {
        &&& self.is_candidate(w, min_delta)
        &&& forall|t: int| #[trigger]
            self.is_candidate(t, min_delta) ==> !self.preferred(scores, t, w) && (t < w ==> self.preferred(
                scores,
                w,
                t,
            ))
    }

    /// The centrality scores of the nodes, by node index. Scores are
    /// compared as whole numbers, which order as the centralities do.
    pub open spec fn centrality(self) -> Seq<u64> {
        Seq::new(self.children.len(), |s: int| score_or_zero(betweenness_bits(self.children)[s]))
    }

    /// What a search for a fracture may return: the chosen node with all of
    /// its children, or nothing where no node is a candidate.
    pub open spec fn fracture_is(
        self,
        scores: Seq<u64>,
        min_delta: u64,
        found: Option<(int, Seq<int>)>,
    ) -> bool {
        match found {
            Some((w, tips)) => self.is_fracture(scores, min_delta, w) && tips == self.children[w],
            None => forall|s: int| !#[trigger] self.is_candidate(s, min_delta),
        }
    }
}


impl DagView {
    /// The smallest gap among the first `k` children is no larger than the
    /// gap to any of them, and is the gap to one of them.
    pub proof fn lemma_min_gap_among(self, s: int, k: int)
        requires
            0 <= k,
        ensures
            forall|j: int| 0 <= j < k ==> self.min_gap_among(s, k) <= #[trigger] self.child_gap(s, j),
            k > 0 ==> exists|j: int| 0 <= j < k && self.min_gap_among(s, k) == #[trigger] self.child_gap(s, j),
        decreases k,
    {
        if k > 0 {
            self.lemma_min_gap_among(s, k - 1);
            if k - 1 > 0 && self.min_gap_among(s, k - 1) <= self.child_gap(s, k - 1) {
                let j = choose|j: int|
                    0 <= j < k - 1 && self.min_gap_among(s, k - 1) == #[trigger] self.child_gap(s, j);
                assert(self.min_gap_among(s, k) == self.child_gap(s, j));
            } else {
                assert(self.min_gap_among(s, k) == self.child_gap(s, k - 1));
            }
        }
    }

    /// The gap of a node is the minimum over all of its children: one child
    /// whose weight is close rules the node out, however far the others are.
    pub proof fn lemma_min_gap_is_minimum(self, s: int)
        ensures
            forall|j: int| 0 <= j < self.children[s].len() ==> self.min_gap(s) <= #[trigger] self.child_gap(s, j),
            self.children[s].len() > 0 ==> exists|j: int|
                0 <= j < self.children[s].len() && self.min_gap(s) == #[trigger] self.child_gap(s, j),
    {
        self.lemma_min_gap_among(s, self.children[s].len() as int);
    }

    /// Where no node has two outgoing edges, or every node with two has a
    /// child closer than `min_delta`, no fracture is found.
    pub proof fn lemma_no_candidate_no_fracture(
        self,
        scores: Seq<u64>,
        min_delta: u64,
        found: Option<(int, Seq<int>)>,
    )
        requires
            forall|s: int|
                0 <= s < self.nodes.len() ==> #[trigger] self.children[s].len() < 2 || self.min_gap(s) < min_delta,
            self.fracture_is(scores, min_delta, found),
        ensures
            found is None,
    {
        if let Some((w, tips)) = found {
            assert(self.is_candidate(w, min_delta));
            assert(self.children[w].len() < 2 || self.min_gap(w) < min_delta);
        }
    }

    /// Where some node is a candidate, a fracture is found.
    pub proof fn lemma_candidate_gives_fracture(
        self,
        scores: Seq<u64>,
        min_delta: u64,
        found: Option<(int, Seq<int>)>,
        s: int,
    )
        requires
            self.is_candidate(s, min_delta),
            self.fracture_is(scores, min_delta, found),
        ensures
            found is Some,
    {
    }

    /// The fracture has the highest centrality score of all candidates, and
    /// of the candidates with that score the smallest gap.
    pub proof fn lemma_fracture_leads(self, scores: Seq<u64>, min_delta: u64, w: int, t: int)
        requires
            self.is_fracture(scores, min_delta, w),
            self.is_candidate(t, min_delta),
        ensures
            scores[t] <= scores[w],
            scores[t] == scores[w] ==> self.min_gap(w) <= self.min_gap(t),
            scores[t] == scores[w] && self.min_gap(w) == self.min_gap(t) ==> w <= t,
    {
        if t < w {
            assert(self.preferred(scores, w, t));
        }
    }

    /// Of two candidates that are equally central, the one with the larger
    /// gap is not the fracture; of two with the same gap, the less central
    /// one is not.
    pub proof fn lemma_fracture_tie_break(self, scores: Seq<u64>, min_delta: u64, a: int, b: int)
        requires
            self.is_candidate(a, min_delta),
            self.is_candidate(b, min_delta),
        ensures
            scores[a] == scores[b] && self.min_gap(a) < self.min_gap(b) ==> !self.is_fracture(scores, min_delta, b),
            self.min_gap(a) == self.min_gap(b) && scores[a] > scores[b] ==> !self.is_fracture(scores, min_delta, b),
    {
        if self.is_fracture(scores, min_delta, b) {
            self.lemma_fracture_leads(scores, min_delta, b, a);
        }
    }

    /// At most one node is the fracture: the search has one answer.
    pub proof fn lemma_fracture_unique(
        self,
        scores: Seq<u64>,
        min_delta: u64,
        first: Option<(int, Seq<int>)>,
        second: Option<(int, Seq<int>)>,
    )
        requires
            self.fracture_is(scores, min_delta, first),
            self.fracture_is(scores, min_delta, second),
        ensures
            first == second,
    {
        match (first, second) {
            (Some((w1, t1)), Some((w2, t2))) => {
                self.lemma_fracture_leads(scores, min_delta, w1, w2);
                self.lemma_fracture_leads(scores, min_delta, w2, w1);
            },
            (Some((w1, t1)), None) => {
                assert(self.is_candidate(w1, min_delta));
            },
            (None, Some((w2, t2))) => {
                assert(self.is_candidate(w2, min_delta));
            },
            (None, None) => {},
        }
    }
}


/// A found fracture as mathematical values.
pub open spec fn found_view(found: Option<(usize, Vec<usize>)>) -> Option<(int, Seq<int>)> {
    match found {
        Some((w, tips)) => Some((w as int, indices(tips@))),
        None => None,
    }
}

impl RollingDag {
    /// The smallest weight gap between the node at `s` and the children
    /// listed, which are all of its children.
    fn min_child_gap(&self, s: usize, children: &Vec<usize>) -> (delta: u64)
        requires
            self.wf(),
            s < self@.nodes.len(),
            indices(children@) == self@.children[s as int],
        ensures
            delta == self@.min_gap(s as int),
    {
        let score = self.node(s).blue_score;
        let mut delta: u64 = u64::MAX;
        let mut k: usize = 0;
        while k < children.len()
            invariant
                k <= children.len(),
                self.wf(),
                s < self@.nodes.len(),
                indices(children@) == self@.children[s as int],
                score == self@.nodes[s as int].blue_score,
                delta == self@.min_gap_among(s as int, k as int),
            decreases children.len() - k,
        {
            let c = children[k];
            assert(c as int == indices(children@)[k as int]);
            assert(0 <= self@.children[s as int][k as int] < self@.nodes.len());
            let child_score = self.node(c).blue_score;
            let d = if score >= child_score {
                score - child_score
            } else {
                child_score - score
            };
            if d < delta {
                delta = d;
            }
            k += 1;
        }
        delta
    }

    /// Chooses the fracture, given the centrality score of every node by
    /// node index.
    ///
    /// Candidates are the nodes with at least two outgoing edges whose
    /// smallest weight gap to a child is at least `min_delta`. Of these the
    /// one with the highest score is chosen, among equal scores the one with
    /// the smallest gap, and among those the one with the lowest node index.
    /// It is returned with all of its children.
    pub fn select_fracture(&self, scores: &Vec<u64>, min_delta: u64) -> (found: Option<
        (usize, Vec<usize>),
    >)
        requires
            self.wf(),
            scores@.len() == self@.nodes.len(),
        ensures
            self@.fracture_is(scores@, min_delta, found_view(found)),
    {
        let n = self.len();
        let mut best: Option<(usize, u64)> = None;
        let mut s: usize = 0;
        while s < n
            invariant
                s <= n,
                self.wf(),
                n == self@.nodes.len(),
                scores@.len() == n,
                match best {
                    Some((w, dw)) => {
                        &&& w < s
                        &&& dw == self@.min_gap(w as int)
                        &&& self@.is_candidate(w as int, min_delta)
                        &&& forall|t: int|
                            0 <= t < s && #[trigger] self@.is_candidate(t, min_delta) ==> !self@.preferred(
                                scores@,
                                t,
                                w as int,
                            ) && (t < w ==> self@.preferred(scores@, w as int, t))
                    },
                    None => forall|t: int| 0 <= t < s ==> !#[trigger] self@.is_candidate(t, min_delta),
                },
            decreases n - s,
        {
            let children = self.kids(s);
            if children.len() >= 2 {
                let delta = self.min_child_gap(s, &children);
                if delta >= min_delta {
                    match best {
                        Some((w, dw)) => {
                            if scores[s] > scores[w] || (scores[s] == scores[w] && delta < dw) {
                                best = Some((s, delta));
                            }
                        },
                        None => {
                            best = Some((s, delta));
                        },
                    }
                }
            }
            s += 1;
        }
        match best {
            Some((w, _)) => {
                let tips = self.kids(w);
                Some((w, tips))
            },
            None => None,
        }
    }

    /// Finds a "fracture" point in the DAG: a node with at least two
    /// children whose blue score differs from that of every child by at
    /// least `min_delta`, chosen by betweenness centrality, which is
    /// computed afresh over the whole window.
    pub fn find_fracture(&self, min_delta: u64) -> (found: Option<(usize, Vec<usize>)>)
        requires
            self.wf(),
        ensures
            self@.fracture_is(self@.centrality(), min_delta, found_view(found)),
    {
        let scores = self.centrality();
        self.select_fracture(&scores, min_delta)
    }
}

} // verus!
