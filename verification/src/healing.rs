//! The healing monitor: after a stitch it polls the ledger for the target
//! block until the tips of the fracture show up among the block's parents,
//! and then has the reward paid, once.
//!
//! The monitor decides; it neither waits nor fetches nor pays. Whoever runs
//! it performs the action that it hands out and reports back what came of
//! a poll.

use vstd::prelude::*;
use crate::block::ids_of;

verus! {

/// Seconds to wait before each poll.
pub const HEAL_CHECK_INTERVAL_SECS: u64 = 2;

/// The number of polls after which the monitor gives up.
pub const HEAL_MAX_ATTEMPTS: u32 = 30;

/// What a poll of the ledger came to.
pub enum PollOutcome {
    /// The block could not be fetched this time.
    Failed,
    /// The block as it is now: its parents, and the address that its first
    /// transaction pays to first, if there is one.
    Fetched { parents: Vec<String>, payee: Option<String> },
}

/// What the monitor wants done next.
pub enum HealingAction {
    /// Wait, then fetch the target block and report the outcome.
    Poll { target: String, wait_secs: u64 },
    /// Pay the reward to this address. The monitor is finished.
    Pay { address: String, amount: u64 },
    /// Nothing more. The monitor is finished.
    Stop,
}

/// A poll outcome as plain values.
pub enum OutcomeView {
    Failed,
    Fetched { parents: Seq<Seq<char>>, payee: Option<Seq<char>> },
}

/// An action as plain values.
pub enum ActionView {
    Poll { target: Seq<char>, wait_secs: u64 },
    Pay { address: Seq<char>, amount: u64 },
    Stop,
}

impl View for PollOutcome {
    type V = OutcomeView;

    open spec fn view(&self) -> OutcomeView {
        match self {
            PollOutcome::Failed => OutcomeView::Failed,
            PollOutcome::Fetched { parents, payee } => OutcomeView::Fetched {
                parents: ids_of(parents@),
                payee: match payee {
                    Some(address) => Some(address@),
                    None => None,
                },
            },
        }
    }
}

impl View for HealingAction {
    type V = ActionView;

    open spec fn view(&self) -> ActionView {
        match self {
            HealingAction::Poll { target, wait_secs } => ActionView::Poll { target: target@, wait_secs: *wait_secs },
            HealingAction::Pay { address, amount } => ActionView::Pay { address: address@, amount: *amount },
            HealingAction::Stop => ActionView::Stop,
        }
    }
}

/// Whether every one of the tips is among the parents.
pub open spec fn merged(tips: Seq<Seq<char>>, parents: Seq<Seq<char>>) -> bool {
    forall|i: int| 0 <= i < tips.len() ==> parents.contains(#[trigger] tips[i])
}

/// The monitor as plain values.
pub struct MonitorView {
    pub target: Seq<char>,
    pub tips: Seq<Seq<char>>,
    pub reward: u64,
    /// The number of polls asked for so far.
    pub attempts: nat,
    /// Whether the monitor is finished.
    pub done: bool,
}

impl MonitorView {
    /// A monitor that has not yet asked for anything.
    pub open spec fn fresh(target: Seq<char>, tips: Seq<Seq<char>>, reward: u64) -> MonitorView {
        MonitorView { target, tips, reward, attempts: 0, done: false }
    }

    /// The poll that the monitor asks for.
    pub open spec fn poll(self) -> ActionView {
        ActionView::Poll { target: self.target, wait_secs: HEAL_CHECK_INTERVAL_SECS }
    }

    /// The monitor after it has asked for one more poll, or finished
    /// because none is left.
    pub open spec fn polling(self) -> MonitorView {
        if self.done || self.attempts >= HEAL_MAX_ATTEMPTS {
            MonitorView { done: true, ..self }
        } else {
            MonitorView { attempts: self.attempts + 1, ..self }
        }
    }

    /// What the monitor asks for where it wants to poll: a poll while one
    /// is left.
    pub open spec fn polling_action(self) -> ActionView {
        if self.done || self.attempts >= HEAL_MAX_ATTEMPTS {
            ActionView::Stop
        } else {
            self.poll()
        }
    }

    /// Whether this outcome shows the fracture healed.
    pub open spec fn healed_by(self, outcome: OutcomeView) -> bool {
        outcome matches OutcomeView::Fetched { parents, .. } && merged(self.tips, parents)
    }

    /// The monitor after it has been told the outcome of a poll.
    pub open spec fn told(self, outcome: OutcomeView) -> MonitorView {
        if self.done || self.healed_by(outcome) {
            MonitorView { done: true, ..self }
        } else {
            self.polling()
        }
    }

    /// What the monitor asks for once it has been told the outcome of a
    /// poll. A finished monitor asks for nothing. A healed fracture is
    /// paid for if the block names a payee, and the monitor is finished
    /// either way. Otherwise the monitor polls again while a poll is left.
    pub open spec fn answer(self, outcome: OutcomeView) -> ActionView {
        if self.done {
            ActionView::Stop
        } else if self.healed_by(outcome) {
            match outcome {
                OutcomeView::Fetched { payee: Some(address), .. } => ActionView::Pay {
                    address,
                    amount: self.reward,
                },
                _ => ActionView::Stop,
            }
        } else {
            self.polling_action()
        }
    }
}

/// Whether an identifier is in a list.
pub fn id_in(id: &String, list: &Vec<String>) -> (found: bool)
    ensures
        found == ids_of(list@).contains(id@),
{
    let mut i: usize = 0;
    while i < list.len()
        invariant
            i <= list.len(),
            forall|j: int| 0 <= j < i ==> ids_of(list@)[j] != id@,
        decreases list.len() - i,
    {
        if list[i] == *id {
            assert(ids_of(list@)[i as int] == id@);
            return true;
        }
        i += 1;
    }
    false
}

/// Whether every one of the tips is among the parents.
pub fn tips_merged(tips: &Vec<String>, parents: &Vec<String>) -> (all: bool)
    ensures
        all == merged(ids_of(tips@), ids_of(parents@)),
{
    let mut i: usize = 0;
    while i < tips.len()
        invariant
            i <= tips.len(),
            forall|j: int| 0 <= j < i ==> ids_of(parents@).contains(#[trigger] ids_of(tips@)[j]),
        decreases tips.len() - i,
    {
        if !id_in(&tips[i], parents) {
            assert(ids_of(tips@)[i as int] == tips@[i as int]@);
            return false;
        }
        assert(ids_of(tips@)[i as int] == tips@[i as int]@);
        i += 1;
    }
    true
}

/// The healing monitor of one fracture.
pub struct HealingMonitor {
    target: String,
    tips: Vec<String>,
    reward: u64,
    attempts: u32,
    done: bool,
}

impl View for HealingMonitor {
    type V = MonitorView;

    closed spec fn view(&self) -> MonitorView {
        MonitorView {
            target: self.target@,
            tips: ids_of(self.tips@),
            reward: self.reward,
            attempts: self.attempts as nat,
            done: self.done,
        }
    }
}

impl HealingMonitor {
    /// A monitor for the block `target`, the tips that should become its
    /// parents, and the reward to pay once they have.
    pub fn new(target: String, tips: Vec<String>, reward: u64) -> (monitor: Self)
        ensures
            monitor@ == MonitorView::fresh(target@, ids_of(tips@), reward),
    {
        HealingMonitor { target, tips, reward, attempts: 0, done: false }
    }

    /// Whether the monitor is finished.
    pub fn is_done(&self) -> (done: bool)
        ensures
            done == self@.done,
    {
        self.done
    }

    /// The number of polls asked for so far.
    pub fn attempts(&self) -> (n: u32)
        ensures
            n == self@.attempts,
    {
        self.attempts
    }

    /// Asks for the next poll, or finishes where none is left.
    fn poll_again(&mut self) -> (action: HealingAction)
        ensures
            final(self)@ == old(self)@.polling(),
            action@ == old(self)@.polling_action(),
    {
        if self.done || self.attempts >= HEAL_MAX_ATTEMPTS {
            self.done = true;
            HealingAction::Stop
        } else {
            self.attempts = self.attempts + 1;
            HealingAction::Poll { target: self.target.clone(), wait_secs: HEAL_CHECK_INTERVAL_SECS }
        }
    }

    /// Starts the monitor: it asks for its first poll.
    pub fn start(&mut self) -> (action: HealingAction)
        ensures
            final(self)@ == old(self)@.polling(),
            action@ == old(self)@.polling_action(),
    {
        self.poll_again()
    }

    /// Tells the monitor what the poll it asked for came to, and returns
    /// what it wants done next.
    pub fn on_poll(&mut self, outcome: PollOutcome) -> (action: HealingAction)
        ensures
            final(self)@ == old(self)@.told(outcome@),
            action@ == old(self)@.answer(outcome@),
    {
        if self.done {
            return HealingAction::Stop;
        }
        match outcome {
            PollOutcome::Fetched { parents, payee } => {
                if tips_merged(&self.tips, &parents) {
                    self.done = true;
                    match payee {
                        Some(address) => HealingAction::Pay { address, amount: self.reward },
                        None => HealingAction::Stop,
                    }
                } else {
                    self.poll_again()
                }
            },
            PollOutcome::Failed => self.poll_again(),
        }
    }
}


/// How many of the actions are payments.
pub open spec fn payments(actions: Seq<ActionView>) -> nat
    decreases actions.len(),
{
    if actions.len() == 0 {
        0
    } else {
        payments(actions.drop_first()) + if actions[0] is Pay {
            1nat
        } else {
            0nat
        }
    }
}

/// How many of the actions are polls.
pub open spec fn polls(actions: Seq<ActionView>) -> nat
    decreases actions.len(),
{
    if actions.len() == 0 {
        0
    } else {
        polls(actions.drop_first()) + if actions[0] is Poll {
            1nat
        } else {
            0nat
        }
    }
}

impl MonitorView {
    /// The actions that the monitor hands out when it is told these
    /// outcomes one after the other.
    pub open spec fn answers(self, outcomes: Seq<OutcomeView>) -> Seq<ActionView>
        decreases outcomes.len(),
    {
        if outcomes.len() == 0 {
            Seq::empty()
        } else {
            seq![self.answer(outcomes[0])] + self.told(outcomes[0]).answers(outcomes.drop_first())
        }
    }

    /// A finished monitor stays finished and asks for nothing, whatever it
    /// is told. A monitor that asks for a payment or for nothing is
    /// finished.
    pub proof fn lemma_finished_for_good(self, outcome: OutcomeView)
        ensures
            self.done ==> self.told(outcome).done && self.answer(outcome) is Stop,
            !(self.answer(outcome) is Poll) ==> self.told(outcome).done,
            self.told(outcome).attempts <= self.attempts + 1,
            self.attempts <= HEAL_MAX_ATTEMPTS ==> self.told(outcome).attempts <= HEAL_MAX_ATTEMPTS,
    {
    }

    /// Whatever the monitor is told, and however often, it asks for at most
    /// one payment, and for none once it is finished; and it asks for no
    /// more polls than are left of its budget.
    pub proof fn lemma_one_payment_at_most(self, outcomes: Seq<OutcomeView>)
        requires
            self.attempts <= HEAL_MAX_ATTEMPTS,
        ensures
            payments(self.answers(outcomes)) <= 1,
            self.done ==> payments(self.answers(outcomes)) == 0 && polls(self.answers(outcomes)) == 0,
            polls(self.answers(outcomes)) <= HEAL_MAX_ATTEMPTS - self.attempts,
        decreases outcomes.len(),
    {
        if outcomes.len() > 0 {
            let first = self.answer(outcomes[0]);
            let next = self.told(outcomes[0]);
            let rest = next.answers(outcomes.drop_first());
            self.lemma_finished_for_good(outcomes[0]);
            next.lemma_one_payment_at_most(outcomes.drop_first());
            assert(self.answers(outcomes).drop_first() =~= rest);
            assert(self.answers(outcomes)[0] == first);
        }
    }

    /// A payment goes to the payee that the healed block names, and is the
    /// reward that the monitor was made with.
    pub proof fn lemma_payment_is_the_reward(self, outcome: OutcomeView)
        requires
            self.answer(outcome) is Pay,
        ensures
            !self.done,
            self.healed_by(outcome),
            outcome matches OutcomeView::Fetched { payee: Some(address), .. } && self.answer(outcome) == (
            ActionView::Pay { address, amount: self.reward }),
    {
    }
}

} // verus!
