//! The run of a scenario: deposits and withdrawals, one after the other.

use vstd::prelude::*;
use crate::accounting::{ChangeRules, PendingPayment, Target, payments_in_range};
use crate::models::{Algorithm, DepositError, ScenarioEntry, SimulationEntry};
use crate::pool::{Candidate, values_of};
use crate::selectors::rust_coinselect::RustCoinSelect;
use crate::selectors::{
    TargetSelector, deposited, spends, withdrawn, SEGWIT_V1_TXIN_WEIGHT, SEGWIT_V1_TXOUT_WEIGHT,
};
use crate::summary::{
    SimulationSummary, Tally, lemma_merged_associates, lemma_tally_sound,
};

verus! {

/// Number of withdrawal attempts after which a sample of the summary is taken.
pub const SAMPLE_EVERY: usize = 500;

/// What becomes of the pending payments when a withdrawal fails.
#[derive(Clone, Copy, Debug, PartialEq, Eq, Structural)]
pub enum PaymentPolicy {
    /// They stay pending and are tried again with the next withdrawal.
    RollForward,
    /// They are given up.
    Drop,
}

impl Default for PaymentPolicy {
    fn default() -> (policy: PaymentPolicy)
        ensures
            policy == PaymentPolicy::RollForward,
    {
        PaymentPolicy::RollForward
    }
}

/// Why a run stopped.
#[derive(Clone, Copy, Debug, PartialEq, Eq, Structural)]
pub enum SimulationError {
    /// The pool did not take a deposit.
    Deposit(DepositError),
    /// No further deposit can be counted.
    DepositCount,
    /// No further withdrawal attempt can be counted.
    AttemptCount,
    /// The pending payments together pass the limits of one withdrawal.
    PaymentsOutOfRange,
    /// No creation sequence number is left for a change output.
    SequenceExhausted,
}

/// What one withdrawal attempt puts out.
#[derive(Debug)]
pub struct Withdrawal {
    /// The outcome of the attempt.
    pub entry: SimulationEntry,
    /// The values in the pool before the attempt, oldest first.
    pub utxos: Vec<u64>,
    /// The summary after the attempt, for every 500th attempt.
    pub sample: Option<SimulationSummary>,
}

/// A run: a selector, the payments that are pending, and the summary so far.
pub struct Simulation<S: TargetSelector> {
    /// What becomes of the pending payments when a withdrawal fails.
    pub payment_policy: PaymentPolicy,
    /// The pool and its way of choosing inputs.
    pub selector: S,
    /// The payments that the next withdrawal has to fund.
    pub payments: Vec<PendingPayment>,
    /// Number of withdrawal attempts so far.
    pub withdraw_attempt: usize,
    /// The summary of the attempts so far.
    pub summary: SimulationSummary,
}

/// The payment that a withdrawal record asks for.
pub open spec fn payment_of(record: ScenarioEntry) -> PendingPayment {
    PendingPayment { amount: (-record.amount) as u64, weight: SEGWIT_V1_TXOUT_WEIGHT }
}

/// The magnitude of an amount that is not above zero.
fn magnitude(amount: i64) -> (size: u64)
    requires
        amount <= 0,
    ensures
        size == -amount,
{
    if amount == i64::MIN {
        0x8000_0000_0000_0000
    } else {
        (-amount) as u64
    }
}

/// Nothing that can be seen of the run has changed.
pub open spec fn unchanged<S: TargetSelector>(pre: Simulation<S>, post: Simulation<S>) -> bool {
    &&& post.payment_policy == pre.payment_policy
    &&& post.selector.coins() == pre.selector.coins()
    &&& post.selector.next_id() == pre.selector.next_id()
    &&& post.selector.rules() == pre.selector.rules()
    &&& post.payments@ == pre.payments@
    &&& post.withdraw_attempt == pre.withdraw_attempt
    &&& post.summary == pre.summary
}

/// A deposit record took the run from `pre` to `post`.
pub open spec fn deposit_stepped<S: TargetSelector>(
    pre: Simulation<S>,
    record: ScenarioEntry,
    post: Simulation<S>,
    out: Result<Option<Withdrawal>, SimulationError>,
) -> bool {
    if pre.summary.deposit_count == usize::MAX {
        out == Err::<Option<Withdrawal>, SimulationError>(SimulationError::DepositCount)
            && unchanged(pre, post)
    } else {
        match out {
            Ok(None) => {
                &&& deposited(
                    pre.selector.coins(),
                    pre.selector.next_id(),
                    post.selector.coins(),
                    post.selector.next_id(),
                    record,
                    Ok(()),
                )
                &&& post.selector.rules() == pre.selector.rules()
                &&& post.payment_policy == pre.payment_policy
                &&& post.payments@ == pre.payments@
                &&& post.withdraw_attempt == pre.withdraw_attempt
                &&& post.summary == (SimulationSummary {
                    deposit_count: (pre.summary.deposit_count + 1) as usize,
                    ..pre.summary
                })
            },
            Err(SimulationError::Deposit(error)) => {
                &&& deposited(
                    pre.selector.coins(),
                    pre.selector.next_id(),
                    post.selector.coins(),
                    post.selector.next_id(),
                    record,
                    Err(error),
                )
                &&& unchanged(pre, post)
            },
            _ => false,
        }
    }
}

/// A withdrawal record took the run from `pre` to `post`: its payment joined
/// the pending ones, the selector tried to pay them all, and the policy
/// decided what stays pending.
pub open spec fn withdraw_stepped<S: TargetSelector>(
    pre: Simulation<S>,
    record: ScenarioEntry,
    post: Simulation<S>,
    out: Result<Option<Withdrawal>, SimulationError>,
) -> bool {
    let pending = pre.payments@.push(payment_of(record));
    if pre.withdraw_attempt == usize::MAX {
        out == Err::<Option<Withdrawal>, SimulationError>(SimulationError::AttemptCount)
            && unchanged(pre, post)
    } else if !payments_in_range(pending) {
        out == Err::<Option<Withdrawal>, SimulationError>(SimulationError::PaymentsOutOfRange)
            && unchanged(pre, post)
    } else if pre.selector.next_id() >= u64::MAX {
        out == Err::<Option<Withdrawal>, SimulationError>(SimulationError::SequenceExhausted)
            && unchanged(pre, post)
    } else {
        out matches Ok(Some(w)) && {
            &&& withdrawn(
                pre.selector.coins(),
                pre.selector.next_id(),
                post.selector.coins(),
                w.entry,
                Target::of(pending, record.fee_rate_per_kvb),
                pre.selector.rules(),
            )
            &&& post.selector.rules() == pre.selector.rules()
            &&& post.selector.next_id() == pre.selector.next_id() + if w.entry.change_amount
                is Some {
                1int
            } else {
                0int
            }
            &&& w.entry.id == pre.withdraw_attempt + 1
            &&& w.utxos@ == values_of(pre.selector.coins())
            &&& post.payments@ == if pre.payment_policy == PaymentPolicy::Drop
                || w.entry.algorithm != Algorithm::Failed {
                Seq::<PendingPayment>::empty()
            } else {
                pending
            }
            &&& post.withdraw_attempt == pre.withdraw_attempt + 1
            &&& post.payment_policy == pre.payment_policy
            &&& post.summary.follows(pre.summary, w.entry)
            &&& w.sample is Some <==> (pre.withdraw_attempt + 1) % (SAMPLE_EVERY as int) == 0
            &&& w.sample matches Some(sample) ==> {
                &&& sample.tally() == post.summary.tally()
                &&& sample.algorithm_frequencies == post.summary.algorithm_frequencies
                &&& sample.current_balance == post.summary.current_balance
                &&& sample.current_utxo_set_count == post.summary.current_utxo_set_count
                &&& sample.deposit_count == post.summary.deposit_count
                &&& sample.cost_to_empty_at_long_term_feerate
                    == post.summary.cost_to_empty_at_long_term_feerate
                &&& sample.change_values@ == post.summary.change_values@
                &&& sample.input_set_sizes@ == post.summary.input_set_sizes@
            }
        }
    }
}

/// One record took the run from `pre` to `post` and put out `out`: an amount
/// above zero is deposited, any other is withdrawn.
pub open spec fn stepped<S: TargetSelector>(
    pre: Simulation<S>,
    record: ScenarioEntry,
    post: Simulation<S>,
    out: Result<Option<Withdrawal>, SimulationError>,
) -> bool {
    if record.amount > 0 {
        deposit_stepped(pre, record, post, out)
    } else {
        withdraw_stepped(pre, record, post, out)
    }
}

/// `trace` lists the states of a run that took the records `events` one
/// after the other and put out `outs`.
pub open spec fn traced<S: TargetSelector>(
    trace: Seq<Simulation<S>>,
    events: Seq<ScenarioEntry>,
    outs: Seq<Option<Withdrawal>>,
) -> bool {
    &&& trace.len() == events.len() + 1
    &&& outs.len() == events.len()
    &&& forall|i: int|
        0 <= i < events.len() ==> #[trigger] stepped(
            trace[i],
            events[i],
            trace[i + 1],
            Ok(outs[i]),
        )
}

/// The records `events` took the run from `pre` to `post`, one step each, and
/// put out `outs`.
pub open spec fn ran<S: TargetSelector>(
    pre: Simulation<S>,
    events: Seq<ScenarioEntry>,
    post: Simulation<S>,
    outs: Seq<Option<Withdrawal>>,
) -> bool {
    exists|trace: Seq<Simulation<S>>| #[trigger]
        traced(trace, events, outs) && trace[0] == pre && trace.last() == post
}

/// The outcomes among what a run put out, in their order.
pub open spec fn entries_of(outs: Seq<Option<Withdrawal>>) -> Seq<SimulationEntry>
    decreases outs.len(),
{
    if outs.len() == 0 {
        Seq::empty()
    } else {
        match outs.last() {
            Some(w) => entries_of(outs.drop_last()).push(w.entry),
            None => entries_of(outs.drop_last()),
        }
    }
}

/// Number of deposits among the records.
pub open spec fn deposits_in(events: Seq<ScenarioEntry>) -> int
    decreases events.len(),
{
    if events.len() == 0 {
        0
    } else {
        deposits_in(events.drop_last()) + if events.last().amount > 0 {
            1int
        } else {
            0int
        }
    }
}

/// Every attempt of a run is counted, the failed ones too: the summary after
/// the run holds the summary before it merged with the tally of all outcomes
/// that the run put out, one outcome for each record that is no deposit, and
/// every deposit is counted.
pub proof fn lemma_run_is_counted<S: TargetSelector>(
    trace: Seq<Simulation<S>>,
    events: Seq<ScenarioEntry>,
    outs: Seq<Option<Withdrawal>>,
)
    requires
        traced(trace, events, outs),
    ensures
        trace.last().summary.tally() == trace[0].summary.tally().merged(
            Tally::of(entries_of(outs)),
        ),
        entries_of(outs).len() + deposits_in(events) == events.len(),
        trace.last().summary.deposit_count == trace[0].summary.deposit_count + deposits_in(events),
        trace.last().withdraw_attempt == trace[0].withdraw_attempt + entries_of(outs).len(),
        trace.last().payment_policy == trace[0].payment_policy,
        trace.last().selector.rules() == trace[0].selector.rules(),
    decreases events.len(),
{
    let first = trace[0].summary.tally();
    if events.len() == 0 {
        assert(first.merged(Tally::zero()) == first);
    } else {
        let n = events.len() as int;
        let shorter = trace.drop_last();
        let earlier = events.drop_last();
        let fewer = outs.drop_last();
        assert forall|i: int| 0 <= i < earlier.len() implies #[trigger] stepped(
            shorter[i],
            earlier[i],
            shorter[i + 1],
            Ok(fewer[i]),
        ) by {
            assert(stepped(trace[i], events[i], trace[i + 1], Ok(outs[i])));
        }
        lemma_run_is_counted(shorter, earlier, fewer);
        let pre = trace[n - 1];
        let post = trace[n];
        assert(stepped(pre, events[n - 1], post, Ok(outs[n - 1])));
        assert(shorter.last() == pre);
        assert(shorter[0] == trace[0]);
        lemma_tally_sound(entries_of(fewer));
        match outs.last() {
            Some(w) => {
                lemma_merged_associates(
                    first,
                    Tally::of(entries_of(fewer)),
                    Tally::single(w.entry),
                );
                assert(entries_of(outs).drop_last() =~= entries_of(fewer));
            },
            None => {},
        }
    }
}

/// The record of a withdrawal stays one when it gets its number.
pub proof fn lemma_withdrawn_numbered(
    before: Seq<Candidate>,
    next_id: int,
    after: Seq<Candidate>,
    plain: SimulationEntry,
    numbered: SimulationEntry,
    target: Target,
    rules: ChangeRules,
)
    requires
        withdrawn(before, next_id, after, plain, target, rules),
        numbered == (SimulationEntry { id: numbered.id, ..plain }),
    ensures
        withdrawn(before, next_id, after, numbered, target, rules),
{
    if plain.algorithm != Algorithm::Failed {
        let mask = choose|mask: Seq<bool>| #[trigger]
            spends(before, next_id, after, plain, mask, target, rules);
        assert(spends(before, next_id, after, numbered, mask, target, rules));
    }
}

impl<S: TargetSelector> Simulation<S> {
    /// The selector and the summary are in order, and the summary has
    /// counted every attempt.
    pub open spec fn wf(&self) -> bool {
        &&& self.selector.wf()
        &&& self.summary.wf()
        &&& self.summary.tally().attempts() == self.withdraw_attempt
    }

    /// A run that has not begun: nothing is pending and nothing is counted.
    pub fn new(payment_policy: PaymentPolicy, selector: S) -> (simulation: Self)
        requires
            selector.wf(),
        ensures
            simulation.wf(),
            simulation.payment_policy == payment_policy,
            simulation.selector == selector,
            simulation.payments@ == Seq::<PendingPayment>::empty(),
            simulation.withdraw_attempt == 0,
            simulation.summary.tally() == Tally::zero(),
            simulation.summary.deposit_count == 0,
    {
        Simulation {
            payment_policy,
            selector,
            payments: Vec::new(),
            withdraw_attempt: 0,
            summary: SimulationSummary::new(),
        }
    }

    /// Takes one record of the scenario: deposits its amount, or tries to
    /// withdraw it together with what is pending.
    pub fn step(&mut self, record: ScenarioEntry) -> (out: Result<
        Option<Withdrawal>,
        SimulationError,
    >)
        requires
            old(self).wf(),
        ensures
            final(self).wf(),
            stepped(*old(self), record, *final(self), out),
    {
        if record.amount > 0 {
            if self.summary.deposit_count == usize::MAX {
                return Err(SimulationError::DepositCount);
            }
            match self.selector.deposit(record) {
                Ok(_) => {
                    self.summary.deposit_count = self.summary.deposit_count + 1;
                    Ok(None)
                },
                Err(error) => Err(SimulationError::Deposit(error)),
            }
        } else {
            if self.withdraw_attempt == usize::MAX {
                return Err(SimulationError::AttemptCount);
            }
            let amount: u64 = magnitude(record.amount);
            self.payments.push(PendingPayment { amount, weight: SEGWIT_V1_TXOUT_WEIGHT });
            let ghost pending = self.payments@;
            let fits: bool = Target::from_payments(&self.payments, record.fee_rate_per_kvb).is_some();
            if !fits {
                self.payments.pop();
                assert(self.payments@ =~= old(self).payments@);
                return Err(SimulationError::PaymentsOutOfRange);
            }
            if !self.selector.has_sequence_left() {
                self.payments.pop();
                assert(self.payments@ =~= old(self).payments@);
                return Err(SimulationError::SequenceExhausted);
            }
            let utxos: Vec<u64> = self.selector.values();
            let mut entry = self.selector.withdraw(&self.payments, record.fee_rate_per_kvb);
            let ghost plain = entry;
            entry.id = self.withdraw_attempt + 1;
            proof {
                lemma_withdrawn_numbered(
                    old(self).selector.coins(),
                    old(self).selector.next_id(),
                    self.selector.coins(),
                    plain,
                    entry,
                    Target::of(pending, record.fee_rate_per_kvb),
                    old(self).selector.rules(),
                );
            }
            let clear: bool = match self.payment_policy {
                PaymentPolicy::Drop => true,
                PaymentPolicy::RollForward => !matches!(entry.algorithm, Algorithm::Failed),
            };
            if clear {
                self.payments.clear();
            }
            self.withdraw_attempt = self.withdraw_attempt + 1;
            let counted = self.summary.update(&entry);
            assert(counted is Ok);
            let sample: Option<SimulationSummary> = if self.withdraw_attempt % SAMPLE_EVERY == 0 {
                Some(self.summary.summarize())
            } else {
                None
            };
            Ok(Some(Withdrawal { entry, utxos, sample }))
        }
    }

    /// Takes the records of a scenario in their order, and stops at the
    /// first that cannot be taken. Returns what each record put out: nothing
    /// for a deposit, the outcome for a withdrawal.
    pub fn run(&mut self, scenario: &Vec<ScenarioEntry>) -> (out: Result<
        Vec<Option<Withdrawal>>,
        SimulationError,
    >)
        requires
            old(self).wf(),
        ensures
            final(self).wf(),
            match out {
                Ok(steps) => ran(*old(self), scenario@, *final(self), steps@),
                Err(error) => exists|k: int, mid: Simulation<S>, steps: Seq<Option<Withdrawal>>|
                    0 <= k < scenario@.len() && #[trigger] ran(
                        *old(self),
                        scenario@.take(k),
                        mid,
                        steps,
                    ) && stepped(mid, scenario@[k], *final(self), Err(error)),
            },
            out matches Ok(steps) ==> {
                &&& steps@.len() == scenario@.len()
                &&& final(self).summary.tally() == old(self).summary.tally().merged(
                    Tally::of(entries_of(steps@)),
                )
                &&& final(self).summary.deposit_count == old(self).summary.deposit_count
                    + deposits_in(scenario@)
            },
    {
        let ghost start = *self;
        let ghost mut trace: Seq<Simulation<S>> = seq![start];
        let mut steps: Vec<Option<Withdrawal>> = Vec::new();
        let mut i: usize = 0;
        while i < scenario.len()
            invariant
                i <= scenario@.len(),
                start == *old(self),
                self.wf(),
                traced(trace, scenario@.take(i as int), steps@),
                trace[0] == start,
                trace.last() == *self,
            decreases scenario@.len() - i,
        {
            let ghost mid = *self;
            let ghost before = steps@;
            let ghost path = trace;
            let record = scenario[i];
            match self.step(record) {
                Ok(output) => {
                    steps.push(output);
                    proof {
                        trace = path.push(*self);
                        let events = scenario@.take(i + 1);
                        assert forall|j: int| 0 <= j < events.len() implies #[trigger] stepped(
                            trace[j],
                            events[j],
                            trace[j + 1],
                            Ok(steps@[j]),
                        ) by {
                            if j < i {
                                assert(stepped(
                                    path[j],
                                    scenario@.take(i as int)[j],
                                    path[j + 1],
                                    Ok(before[j]),
                                ));
                            }
                        }
                    }
                },
                Err(error) => {
                    proof {
                        let k = i as int;
                        assert(0 <= k < scenario@.len() && ran(start, scenario@.take(k), mid, before)
                            && stepped(mid, scenario@[k], *self, Err(error)));
                    }
                    return Err(error);
                },
            }
            i = i + 1;
        }
        proof {
            assert(scenario@.take(i as int) =~= scenario@);
            lemma_run_is_counted(trace, scenario@, steps@);
        }
        Ok(steps)
    }
}

/// Fee rate that the standard run expects in the long run: 10 satoshi per virtual byte.
pub const STANDARD_LONG_TERM_FEERATE: u64 = 10_000;

/// Least change value of the standard run.
pub const STANDARD_DUST_LIMIT: u64 = 526;

/// The rules of the standard run.
pub open spec fn standard_rules() -> ChangeRules {
    ChangeRules {
        long_term_feerate: STANDARD_LONG_TERM_FEERATE,
        dust_limit: STANDARD_DUST_LIMIT,
        input_drain_weight: SEGWIT_V1_TXIN_WEIGHT,
        output_drain_weight: SEGWIT_V1_TXOUT_WEIGHT,
    }
}

/// `start` is a run that has not begun, with an empty pool.
pub open spec fn fresh<S: TargetSelector>(
    start: Simulation<S>,
    policy: PaymentPolicy,
    rules: ChangeRules,
) -> bool {
    &&& start.wf()
    &&& start.payment_policy == policy
    &&& start.selector.coins() == Seq::<Candidate>::empty()
    &&& start.selector.next_id() == 0
    &&& start.selector.rules() == rules
    &&& start.payments@ == Seq::<PendingPayment>::empty()
    &&& start.withdraw_attempt == 0
    &&& start.summary.tally() == Tally::zero()
    &&& start.summary.deposit_count == 0
}

/// Runs a scenario in the standard way: oldest candidates first, failed
/// payments given up, segwit v1 weights. Returns the run as it ended and
/// what each record put out.
pub fn simulate(scenario: &Vec<ScenarioEntry>) -> (out: (
    Simulation<RustCoinSelect>,
    Result<Vec<Option<Withdrawal>>, SimulationError>,
))
    ensures
        out.0.wf(),
        exists|start: Simulation<RustCoinSelect>| #[trigger]
            fresh(start, PaymentPolicy::Drop, standard_rules()) && match out.1 {
                Ok(steps) => ran(start, scenario@, out.0, steps@),
                Err(error) => exists|
                    k: int,
                    mid: Simulation<RustCoinSelect>,
                    steps: Seq<Option<Withdrawal>>,
                |
                    0 <= k < scenario@.len() && #[trigger] ran(start, scenario@.take(k), mid, steps)
                        && stepped(mid, scenario@[k], out.0, Err(error)),
            },
{
    let selector = RustCoinSelect::new(
        STANDARD_LONG_TERM_FEERATE,
        STANDARD_DUST_LIMIT,
        SEGWIT_V1_TXIN_WEIGHT,
        SEGWIT_V1_TXOUT_WEIGHT,
    );
    let mut simulation = Simulation::new(PaymentPolicy::Drop, selector);
    let ghost start = simulation;
    assert(fresh(start, PaymentPolicy::Drop, standard_rules()));
    let result = simulation.run(scenario);
    (simulation, result)
}

} // verus!
