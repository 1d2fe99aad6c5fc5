//! The adaptive controller: from the weight delta of a fracture, the rate at
//! which blocks arrive and the recent share of orphans it derives a
//! suspicion score, the decision to stitch, and the reward.
//!
//! Scores and shares are whole numbers of millionths: `SCALE` stands for
//! one. Block rates are whole numbers of thousandths of a block per second.

use vstd::prelude::*;
use std::collections::VecDeque;
use crate::block::BlockInfo;
use crate::config::Config;

verus! {

/// One, in millionths.
pub const SCALE: u64 = 1_000_000;

/// The number of most recent blocks over which the share of orphans is
/// taken.
pub const ORPHAN_WINDOW: usize = 100;

/// The block rate that counts as normal: one block per second.
pub const BASELINE_RATE: u64 = 1_000;

/// The suspicion score from which on an adaptive controller stitches.
pub const SUS_THRESHOLD: u64 = 250_000;

/// The controller as plain values.
pub struct EngineView {
    pub adaptive: bool,
    pub base_min_delta: u64,
    pub base_rate_limit: u64,
    pub base_reward: u64,
    pub max_reward: u64,
    pub min_rate_limit: u64,
    /// Whether each of the most recent blocks was an orphan, oldest first.
    pub outcomes: Seq<bool>,
    /// The time of the last stitch, in seconds.
    pub last_stitch: Option<i64>,
}

/// How many of the outcomes are orphans.
pub open spec fn orphans_in(outcomes: Seq<bool>) -> nat
    decreases outcomes.len(),
{
    if outcomes.len() == 0 {
        0
    } else {
        orphans_in(outcomes.drop_last()) + if outcomes.last() {
            1nat
        } else {
            0nat
        }
    }
}

/// The last `ORPHAN_WINDOW` of the outcomes.
pub open spec fn recent(outcomes: Seq<bool>) -> Seq<bool> {
    if outcomes.len() > ORPHAN_WINDOW {
        outcomes.skip(outcomes.len() - ORPHAN_WINDOW)
    } else {
        outcomes
    }
}

impl EngineView {
    /// The share of orphans among the recent blocks, in millionths; zero
    /// while no block has been seen.
    pub open spec fn orphan_rate(self) -> int {
        if self.outcomes.len() == 0 {
            0
        } else {
            orphans_in(self.outcomes) * SCALE / (self.outcomes.len() as int)
        }
    }

    /// How far the delta is above the baseline, in millionths: a half at
    /// the baseline, and towards one as the delta grows.
    pub open spec fn delta_term(self, delta: u64) -> int {
        if delta + self.base_min_delta == 0 {
            0
        } else {
            delta * SCALE / (delta + self.base_min_delta)
        }
    }

    /// How far the block rate is from the normal rate, in millionths of the
    /// larger of the two: zero at the normal rate, towards one for a
    /// network that is far faster or far slower.
    pub open spec fn rate_term(self, bps: u64) -> int {
        if bps >= BASELINE_RATE {
            (bps - BASELINE_RATE) * SCALE / (bps as int)
        } else {
            (BASELINE_RATE - bps) * SCALE / (BASELINE_RATE as int)
        }
    }

    /// The suspicion score, in millionths: half of it from the delta, a
    /// quarter each from the block rate and from the share of orphans.
    pub open spec fn sus(self, delta: u64, bps: u64) -> int {
        (2 * self.delta_term(delta) + self.rate_term(bps) + self.orphan_rate()) / 4
    }

    /// The smallest delta that is worth a stitch. An adaptive controller
    /// lowers the baseline with the share of orphans, down to half of it.
    pub open spec fn min_delta(self) -> int {
        if self.adaptive {
            (2 * SCALE - self.orphan_rate()) * self.base_min_delta / (2 * SCALE)
        } else {
            self.base_min_delta as int
        }
    }

    /// The seconds that must pass after a stitch. An adaptive controller
    /// shortens the baseline with the share of orphans; the result is never
    /// below the configured minimum.
    pub open spec fn cooldown(self) -> int {
        let wanted = if self.adaptive {
            (SCALE - self.orphan_rate()) * self.base_rate_limit / (SCALE as int)
        } else {
            self.base_rate_limit as int
        };
        if wanted < self.min_rate_limit {
            self.min_rate_limit as int
        } else {
            wanted
        }
    }

    /// Whether the last stitch, if there was one, lies more than the
    /// cooldown back.
    pub open spec fn cooled_down(self, now: i64) -> bool {
        match self.last_stitch {
            Some(last) => now - last > self.cooldown(),
            None => true,
        }
    }

    /// Whether to stitch: the delta clears the threshold, the cooldown has
    /// passed, and, for an adaptive controller, the suspicion score is high
    /// enough.
    pub open spec fn should_stitch(self, delta: u64, bps: u64, now: i64) -> bool {
        &&& delta >= self.min_delta()
        &&& self.cooled_down(now)
        &&& self.adaptive ==> self.sus(delta, bps) >= SUS_THRESHOLD
    }

    /// The reward for a suspicion score, which counts as one where it is
    /// more: from the base reward at zero in a straight line to the maximum
    /// at one. A controller that does not adapt pays the base reward.
    pub open spec fn reward(self, sus: u64) -> int {
        let share = if sus > SCALE {
            SCALE
        } else {
            sus
        };
        let span = if self.max_reward > self.base_reward {
            self.max_reward - self.base_reward
        } else {
            0
        };
        if self.adaptive {
            self.base_reward + share * span / (SCALE as int)
        } else {
            self.base_reward as int
        }
    }

    /// The controller after one more block has been seen.
    pub open spec fn updated(self, is_orphan: bool) -> EngineView {
        EngineView { outcomes: recent(self.outcomes.push(is_orphan)), ..self }
    }

    /// The controller after a stitch at `now`.
    pub open spec fn stitched(self, now: i64) -> EngineView {
        EngineView { last_stitch: Some(now), ..self }
    }

    /// The controller as it is made from its settings.
    pub open spec fn initial(cfg: Config) -> EngineView {
        EngineView {
            adaptive: cfg.adaptive,
            base_min_delta: cfg.base_min_delta,
            base_rate_limit: cfg.base_rate_limit,
            base_reward: cfg.base_reward_sompi,
            max_reward: cfg.max_reward_sompi,
            min_rate_limit: cfg.min_rate_limit,
            outcomes: Seq::empty(),
            last_stitch: None,
        }
    }
}

/// There are no more orphans than outcomes.
pub proof fn lemma_orphans_bounded(outcomes: Seq<bool>)
    ensures
        orphans_in(outcomes) <= outcomes.len(),
    decreases outcomes.len(),
{
    if outcomes.len() > 0 {
        lemma_orphans_bounded(outcomes.drop_last());
    }
}

/// A share of a whole: `part * whole / total` lies between zero and
/// `whole` where the part is no more than the total.
pub proof fn lemma_share_bounded(part: int, total: int, whole: int)
    requires
        0 <= part <= total,
        0 < total,
        0 <= whole,
    ensures
        0 <= part * whole / total <= whole,
{
    assert(0 <= part * whole <= total * whole) by (nonlinear_arith)
        requires
            0 <= part <= total,
            0 <= whole,
    ;
    assert(part * whole / total <= whole) by (nonlinear_arith)
        requires
            0 <= part * whole <= total * whole,
            0 < total,
    ;
    assert(0 <= part * whole / total) by (nonlinear_arith)
        requires
            0 <= part * whole,
            0 < total,
    ;
}

/// A quotient grows with the fraction it is the whole part of.
pub proof fn lemma_quotient_ordered(a: int, b: int, c: int, d: int)
    requires
        0 <= a,
        0 < b,
        0 < d,
        a * d <= c * b,
    ensures
        a / b <= c / d,
{
    let q = a / b;
    assert(q * b <= a && 0 <= q) by (nonlinear_arith)
        requires
            q == a / b,
            0 <= a,
            0 < b,
    ;
    assert(q * b * d <= a * d) by (nonlinear_arith)
        requires
            q * b <= a,
            0 < d,
    ;
    assert(q * d <= c) by (nonlinear_arith)
        requires
            q * b * d <= c * b,
            0 < b,
    ;
    assert(q <= c / d) by (nonlinear_arith)
        requires
            q * d <= c,
            0 < d,
    ;
}

impl EngineView {
    /// The share of orphans lies between zero and one.
    pub proof fn lemma_orphan_rate_bounded(self)
        ensures
            0 <= self.orphan_rate() <= SCALE,
    {
        lemma_orphans_bounded(self.outcomes);
        if self.outcomes.len() > 0 {
            lemma_share_bounded(orphans_in(self.outcomes) as int, self.outcomes.len() as int, SCALE as int);
        }
    }

    /// Each part of the suspicion score, and the score, lies between zero
    /// and one.
    pub proof fn lemma_sus_bounded(self, delta: u64, bps: u64)
        ensures
            0 <= self.delta_term(delta) <= SCALE,
            0 <= self.rate_term(bps) <= SCALE,
            0 <= self.sus(delta, bps) <= SCALE,
    {
        self.lemma_orphan_rate_bounded();
        if delta + self.base_min_delta != 0 {
            lemma_share_bounded(delta as int, delta + self.base_min_delta, SCALE as int);
        }
        if bps >= BASELINE_RATE {
            lemma_share_bounded(bps - BASELINE_RATE, bps as int, SCALE as int);
        } else {
            lemma_share_bounded(BASELINE_RATE - bps, BASELINE_RATE as int, SCALE as int);
        }
    }
}


/// The adaptive controller. It is owned by the loop that feeds it; nothing
/// else changes it.
pub struct AdaptiveEngine {
    adaptive: bool,
    base_min_delta: u64,
    base_rate_limit: u64,
    base_reward: u64,
    max_reward: u64,
    min_rate_limit: u64,
    outcomes: VecDeque<bool>,
    last_stitch: Option<i64>,
}

impl View for AdaptiveEngine {
    type V = EngineView;

    closed spec fn view(&self) -> EngineView {
        EngineView {
            adaptive: self.adaptive,
            base_min_delta: self.base_min_delta,
            base_rate_limit: self.base_rate_limit,
            base_reward: self.base_reward,
            max_reward: self.max_reward,
            min_rate_limit: self.min_rate_limit,
            outcomes: self.outcomes@,
            last_stitch: self.last_stitch,
        }
    }
}

/// `part * whole / total`, for a part that is no more than the total.
fn share_of(part: u64, total: u64, whole: u64) -> (share: u64)
    requires
        part <= total,
        0 < total,
    ensures
        share == part * whole / (total as int),
        share <= whole,
{
    proof {
        lemma_share_bounded(part as int, total as int, whole as int);
        assert(part * whole <= u64::MAX * u64::MAX) by (nonlinear_arith)
            requires
                0 <= part <= u64::MAX,
                0 <= whole <= u64::MAX,
        ;
    }
    ((part as u128) * (whole as u128) / (total as u128)) as u64
}

impl AdaptiveEngine {
    /// A controller with the given settings that has seen no block and
    /// made no stitch.
    pub fn new(cfg: &Config) -> (engine: Self)
        ensures
            engine@ == EngineView::initial(*cfg),
    {
        AdaptiveEngine {
            adaptive: cfg.adaptive,
            base_min_delta: cfg.base_min_delta,
            base_rate_limit: cfg.base_rate_limit,
            base_reward: cfg.base_reward_sompi,
            max_reward: cfg.max_reward_sompi,
            min_rate_limit: cfg.min_rate_limit,
            outcomes: VecDeque::new(),
            last_stitch: None,
        }
    }

    /// Records whether a block was an orphan. Only the most recent
    /// `ORPHAN_WINDOW` outcomes are kept.
    pub fn update_block(&mut self, block: &BlockInfo, is_orphan: bool)
        ensures
            final(self)@ == old(self)@.updated(is_orphan),
    {
        self.outcomes.push_back(is_orphan);
        let ghost all = self.outcomes@;
        while self.outcomes.len() > ORPHAN_WINDOW
            invariant
                self.outcomes@.len() <= all.len(),
                all.len() > ORPHAN_WINDOW ==> self.outcomes@.len() >= ORPHAN_WINDOW,
                all.len() <= ORPHAN_WINDOW ==> self.outcomes@.len() == all.len(),
                self.outcomes@ == all.skip(all.len() - self.outcomes@.len()),
                self@ == (EngineView { outcomes: self.outcomes@, ..old(self)@ }),
            decreases self.outcomes@.len(),
        {
            let _ = self.outcomes.pop_front();
        }
        assert(self.outcomes@ =~= recent(all));
    }

    /// The number of orphans among the recent blocks.
    fn orphans(&self) -> (count: usize)
        ensures
            count == orphans_in(self@.outcomes),
            count <= self@.outcomes.len(),
    {
        let mut count: usize = 0;
        let mut i: usize = 0;
        while i < self.outcomes.len()
            invariant
                i <= self.outcomes@.len(),
                count <= i,
                count == orphans_in(self.outcomes@.take(i as int)),
            decreases self.outcomes@.len() - i,
        {
            assert(self.outcomes@.take(i + 1).drop_last() =~= self.outcomes@.take(i as int));
            if self.outcomes[i] {
                count += 1;
            }
            i += 1;
        }
        assert(self.outcomes@.take(i as int) =~= self.outcomes@);
        count
    }

    /// The share of orphans among the recent blocks, in millionths.
    pub fn orphan_rate(&self) -> (rate: u64)
        ensures
            rate == self@.orphan_rate(),
            rate <= SCALE,
    {
        let total = self.outcomes.len();
        if total == 0 {
            0
        } else {
            share_of(self.orphans() as u64, total as u64, SCALE)
        }
    }

    /// The suspicion score of a fracture with this weight delta, seen while
    /// blocks arrive at this rate: between zero and one, in millionths.
    pub fn sus(&self, delta: u64, bps: u64) -> (score: u64)
        ensures
            score == self@.sus(delta, bps),
            score <= SCALE,
    {
        proof {
            self@.lemma_sus_bounded(delta, bps);
        }
        let delta_term: u64 = if delta == 0 && self.base_min_delta == 0 {
            0
        } else {
            ((delta as u128) * (SCALE as u128) / (delta as u128 + self.base_min_delta as u128)) as u64
        };
        let rate_term: u64 = if bps >= BASELINE_RATE {
            share_of(bps - BASELINE_RATE, bps, SCALE)
        } else {
            share_of(BASELINE_RATE - bps, BASELINE_RATE, SCALE)
        };
        (2 * delta_term + rate_term + self.orphan_rate()) / 4
    }

    /// The smallest delta that is worth a stitch as things stand.
    pub fn min_delta(&self) -> (threshold: u64)
        ensures
            threshold == self@.min_delta(),
            threshold <= self@.base_min_delta,
    {
        if self.adaptive {
            let rate = self.orphan_rate();
            share_of(2 * SCALE - rate, 2 * SCALE, self.base_min_delta)
        } else {
            self.base_min_delta
        }
    }

    /// The seconds that must pass after a stitch as things stand.
    pub fn cooldown(&self) -> (seconds: u64)
        ensures
            seconds == self@.cooldown(),
            seconds >= self@.min_rate_limit,
    {
        let wanted = if self.adaptive {
            let rate = self.orphan_rate();
            share_of(SCALE - rate, SCALE, self.base_rate_limit)
        } else {
            self.base_rate_limit
        };
        if wanted < self.min_rate_limit {
            self.min_rate_limit
        } else {
            wanted
        }
    }

    /// Whether to stitch a fracture with this weight delta at the time
    /// `now`, in seconds, while blocks arrive at the rate `bps`.
    pub fn should_stitch(&self, delta: u64, bps: u64, now: i64) -> (stitch: bool)
        ensures
            stitch == self@.should_stitch(delta, bps, now),
    {
        if delta < self.min_delta() {
            return false;
        }
        let cooled_down = match self.last_stitch {
            Some(last) => (now as i128) - (last as i128) > (self.cooldown() as i128),
            None => true,
        };
        if !cooled_down {
            return false;
        }
        !self.adaptive || self.sus(delta, bps) >= SUS_THRESHOLD
    }

    /// The reward for a stitch with this suspicion score, in sompi.
    pub fn reward(&self, sus: u64) -> (sompi: u64)
        ensures
            sompi == self@.reward(sus),
            self@.base_reward <= self@.max_reward ==> self@.base_reward <= sompi <= self@.max_reward,
    {
        if !self.adaptive {
            return self.base_reward;
        }
        let share = if sus > SCALE {
            SCALE
        } else {
            sus
        };
        let span = if self.max_reward > self.base_reward {
            self.max_reward - self.base_reward
        } else {
            0
        };
        self.base_reward + share_of(share, SCALE, span)
    }

    /// Marks `now`, in seconds, as the time of the last stitch. No stitch
    /// follows at that same time.
    pub fn record_stitch(&mut self, now: i64)
        ensures
            final(self)@ == old(self)@.stitched(now),
            forall|delta: u64, bps: u64| !final(self)@.should_stitch(delta, bps, now),
    {
        self.last_stitch = Some(now);
        proof {
            self@.lemma_orphan_rate_bounded();
        }
    }
}


impl EngineView {
    /// The reward for any suspicion score lies between the base reward and
    /// the maximum reward, where the settings put the one below the other.
    pub proof fn lemma_reward_bounds(self, sus: u64)
        requires
            self.base_reward <= self.max_reward,
        ensures
            self.base_reward <= self.reward(sus) <= self.max_reward,
    {
        let share: int = if sus > SCALE {
            SCALE as int
        } else {
            sus as int
        };
        lemma_share_bounded(share, SCALE as int, self.max_reward - self.base_reward);
    }

    /// A higher suspicion score never earns less.
    pub proof fn lemma_reward_monotone(self, low: u64, high: u64)
        requires
            low <= high,
        ensures
            self.reward(low) <= self.reward(high),
    {
        let a: int = if low > SCALE {
            SCALE as int
        } else {
            low as int
        };
        let b: int = if high > SCALE {
            SCALE as int
        } else {
            high as int
        };
        let span: int = if self.max_reward > self.base_reward {
            self.max_reward - self.base_reward
        } else {
            0
        };
        assert(a * span * SCALE <= b * span * SCALE) by (nonlinear_arith)
            requires
                0 <= a <= b,
                0 <= span,
        ;
        assert(0 <= a * span) by (nonlinear_arith)
            requires
                0 <= a,
                0 <= span,
        ;
        lemma_quotient_ordered(a * span, SCALE as int, b * span, SCALE as int);
    }

    /// The reward depends on the suspicion score and the settings alone:
    /// neither the blocks seen nor the stitches made change it.
    pub proof fn lemma_reward_ignores_history(self, sus: u64, is_orphan: bool, now: i64)
        ensures
            self.updated(is_orphan).reward(sus) == self.reward(sus),
            self.stitched(now).reward(sus) == self.reward(sus),
    {
    }

    /// A larger delta never lowers the suspicion score.
    pub proof fn lemma_sus_grows_with_delta(self, small: u64, large: u64, bps: u64)
        requires
            small <= large,
        ensures
            self.sus(small, bps) <= self.sus(large, bps),
    {
        let m = self.base_min_delta as int;
        if small + m != 0 {
            assert((small * SCALE) * (large + m) <= (large * SCALE) * (small + m)) by (nonlinear_arith)
                requires
                    0 <= small <= large,
                    0 <= m,
            ;
            lemma_quotient_ordered(small * SCALE, small + m, large * SCALE, large + m);
        } else {
            self.lemma_sus_bounded(large, bps);
        }
    }

    /// The further the block rate is from the normal rate, on either side,
    /// the higher the suspicion score.
    pub proof fn lemma_sus_grows_away_from_normal_rate(self, delta: u64, near: u64, far: u64)
        requires
            BASELINE_RATE <= near <= far || far <= near <= BASELINE_RATE,
        ensures
            self.sus(delta, near) <= self.sus(delta, far),
            self.rate_term(BASELINE_RATE) == 0,
    {
        if BASELINE_RATE <= near && near <= far {
            assert(((near - BASELINE_RATE) * SCALE) * far <= ((far - BASELINE_RATE) * SCALE) * near)
                by (nonlinear_arith)
                requires
                    BASELINE_RATE <= near <= far,
                    BASELINE_RATE == 1_000,
                    SCALE == 1_000_000,
            ;
            lemma_quotient_ordered(
                (near - BASELINE_RATE) * SCALE,
                near as int,
                (far - BASELINE_RATE) * SCALE,
                far as int,
            );
        }
    }

    /// The cooldown is never shorter than the configured minimum.
    pub proof fn lemma_cooldown_at_least_minimum(self)
        ensures
            self.cooldown() >= self.min_rate_limit,
    {
    }

    /// After a stitch no other follows until more than the cooldown has
    /// passed, whatever the delta and the block rate; in particular none
    /// follows at once.
    pub proof fn lemma_no_stitch_within_cooldown(self, now: i64, later: i64, delta: u64, bps: u64)
        requires
            later - now <= self.cooldown(),
        ensures
            !self.stitched(now).should_stitch(delta, bps, later),
            !self.stitched(now).should_stitch(delta, bps, now),
    {
    }

    /// A controller that does not adapt stitches exactly when the delta
    /// is at least the baseline and the cooldown has passed, and pays the
    /// base reward for every score.
    pub proof fn lemma_fixed_controller(self, delta: u64, bps: u64, now: i64, sus: u64)
        requires
            !self.adaptive,
        ensures
            self.should_stitch(delta, bps, now) <==> delta >= self.base_min_delta && self.cooled_down(now),
            self.min_rate_limit <= self.base_rate_limit ==> self.cooldown() == self.base_rate_limit,
            self.reward(sus) == self.base_reward,
    {
    }
}

} // verus!
