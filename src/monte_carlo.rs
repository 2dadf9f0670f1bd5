use vstd::prelude::*;
use crate::asset::{Asset, copy_assets, total_value, portfolio_value, value_fits};
use crate::contribution::MonthlyContribution;
use crate::criterion::SafeWithdrawalRate;
use crate::outcome::{ConfigError, FailureReason, RunState};
use crate::price_model::{PriceModel, valid_matrix, valid_row, same_rows};
use crate::simulation::{Parameters, SimulationRun, replay_ends_within, replay_exhausted_at, config_error, first_factor_error};
use vstd::relations::{sorted_by, total_ordering};

verus! {

/// The starting point shared by all trials of a batch; each trial runs on its
/// own copy.
pub struct RunTemplate {
    pub assets: Vec<Asset>,
    pub price_model: PriceModel,
    pub factors: Vec<MonthlyContribution>,
    pub criterion: SafeWithdrawalRate,
    pub inflation_rate: u64,
    pub parameters: Parameters,
}

/// How one trial ended.
#[derive(Clone, Copy, Debug, PartialEq, Eq)]
pub struct TrialOutcome {
    pub state: RunState,
    /// Periods simulated.
    pub periods: u64,
    /// Portfolio value at the end, or `None` when it does not fit in an `i128`.
    pub final_value: Option<i128>,
}

proof fn lemma_same_rows_valid(a: Seq<Vec<u64>>, b: Seq<Vec<u64>>)
    requires
        same_rows(a, b),
    ensures
        valid_matrix(a) == valid_matrix(b),
{
    assert forall|i: int| 0 <= i < a.len() implies valid_row(#[trigger] a[i]@, a.len() as int) == valid_row(b[i]@,
        b.len() as int) by {
        assert(a[i]@ == b[i]@);
    }
    if valid_matrix(a) {
        assert forall|i: int| 0 <= i < b.len() implies valid_row(#[trigger] b[i]@, b.len() as int) by {
            assert(valid_row(a[i]@, a.len() as int));
        }
    }
    if valid_matrix(b) {
        assert forall|i: int| 0 <= i < a.len() implies valid_row(#[trigger] a[i]@, a.len() as int) by {
            assert(valid_row(b[i]@, b.len() as int));
        }
    }
}

proof fn lemma_same_config(a: PriceModel, b: PriceModel, n: nat)
    requires
        b.same_config(&a),
    ensures
        a.wf(n) == b.wf(n),
        a.model_error(n) == b.model_error(n),
        forall|k: nat| #![trigger replay_ends_within(a, k)] #![trigger replay_ends_within(b, k)] replay_ends_within(a, k)
            == replay_ends_within(b, k),
        forall|d: nat| #![trigger replay_exhausted_at(a, d)] #![trigger replay_exhausted_at(b, d)] replay_exhausted_at(a, d)
            == replay_exhausted_at(b, d),
{
    match (a, b) {
        (PriceModel::Markov(x), PriceModel::Markov(y)) => {
            lemma_same_rows_valid(y.transition@, x.transition@);
        },
        (PriceModel::Historical(x), PriceModel::Historical(y)) => {
            assert forall|k: nat| replay_ends_within(a, k) == #[trigger] replay_ends_within(b, k) by {
                if replay_ends_within(a, k) {
                    let i = choose|i: int| 0 <= i < x.series@.len() && #[trigger] x.series@[i]@.len() <= x.next + k;
                    assert(y.series@[i]@ == x.series@[i]@);
                }
                if replay_ends_within(b, k) {
                    let i = choose|i: int| 0 <= i < y.series@.len() && #[trigger] y.series@[i]@.len() <= y.next + k;
                    assert(y.series@[i]@ == x.series@[i]@);
                }
            }
            assert forall|d: nat| #[trigger] replay_exhausted_at(a, d) == replay_exhausted_at(b, d) by {
                if x.next + d < usize::MAX {
                    if exists|i: int| 0 <= i < x.series@.len() && #[trigger] x.series@[i]@.len() <= x.next + d {
                        let i = choose|i: int| 0 <= i < x.series@.len() && #[trigger] x.series@[i]@.len() <= x.next + d;
                        assert(y.series@[i]@ == x.series@[i]@);
                    }
                    if exists|i: int| 0 <= i < y.series@.len() && #[trigger] y.series@[i]@.len() <= y.next + d {
                        let i = choose|i: int| 0 <= i < y.series@.len() && #[trigger] y.series@[i]@.len() <= y.next + d;
                        assert(y.series@[i]@ == x.series@[i]@);
                    }
                }
                assert((forall|i: int| 0 <= i < x.series@.len() ==> x.next + d <= (#[trigger] x.series@[i])@.len())
                    == (forall|i: int| 0 <= i < y.series@.len() ==> y.next + d <= (#[trigger] y.series@[i])@.len())) by {
                    assert forall|i: int| 0 <= i < x.series@.len() implies (#[trigger] x.series@[i])@ == y.series@[i]@ by {}
                }
            }
        },
        _ => {},
    }
}

proof fn lemma_same_factor_errors(a: Seq<MonthlyContribution>, b: Seq<MonthlyContribution>, n: nat, k: int)
    requires
        a.len() == b.len(),
        forall|j: int| 0 <= j < a.len() ==> (#[trigger] a[j]).weights@ == b[j].weights@,
    ensures
        first_factor_error(a, n, k) == first_factor_error(b, n, k),
    decreases a.len() - k,
{
    if 0 <= k < a.len() {
        assert(a[k].weights@ == b[k].weights@);
        lemma_same_factor_errors(a, b, n, k + 1);
    }
}

/// What `total_value` reports for a portfolio.
pub open spec fn value_result(assets: Seq<Asset>) -> Option<i128> {
    if value_fits(assets) {
        Some(portfolio_value(assets) as i128)
    } else {
        None
    }
}

/// `o` reports `run`, a finished run of `template`: its state, its periods,
/// and the value of its holdings; a failure has its cause in the run.
pub open spec fn trial_end(template: &RunTemplate, o: TrialOutcome, run: SimulationRun) -> bool {
    &&& o.state == run.state
    &&& o.periods == run.periods
    &&& o.final_value == value_result(run.assets@)
    &&& run.state.is_terminal_spec()
    &&& run.parameters == template.parameters
    &&& SimulationRun::histories_grown(template.assets@, run.assets@, run.periods as nat)
    &&& (run.state == RunState::Failed(FailureReason::NumericalOverflow) ==> run.at_overflow())
    &&& (run.state == RunState::Failed(FailureReason::ExhaustedData) ==> replay_exhausted_at(template.price_model,
        run.periods as nat))
}

/// `o` reports some finished run of `template`.
pub open spec fn reported_trial(template: &RunTemplate, o: TrialOutcome) -> bool {
    exists|run: SimulationRun| #[trigger] trial_end(template, o, run)
}

proof fn lemma_grown_from_copy(a: Seq<Asset>, b: Seq<Asset>, c: Seq<Asset>, k: nat)
    requires
        a.len() == b.len(),
        forall|i: int| 0 <= i < a.len() ==> (#[trigger] a[i]).price_history@ == b[i].price_history@,
        SimulationRun::histories_grown(b, c, k),
    ensures
        SimulationRun::histories_grown(a, c, k),
{
    assert forall|i: int| 0 <= i < a.len() implies (#[trigger] c[i]).price_history@.len() == a[i].price_history@.len() + k
        && c[i].price_history@.subrange(0, a[i].price_history@.len() as int) == a[i].price_history@ by {
        assert(a[i].price_history@ == b[i].price_history@);
    }
}

impl RunTemplate {
    /// The first problem `SimulationRun::new` finds with the template, if any.
    pub open spec fn config_error_spec(&self) -> Option<ConfigError> {
        config_error(self.assets@.len(), self.price_model, self.factors@, self.criterion, self.inflation_rate,
            self.parameters)
    }

    /// The template is accepted by `SimulationRun::new`.
    pub open spec fn wf(&self) -> bool {
        &&& self.price_model.wf(self.assets@.len())
        &&& self.factors@.len() > 0
        &&& forall|k: int| 0 <= k < self.factors@.len() ==> (#[trigger] self.factors@[k]).wf()
            && self.factors@[k].weights@.len() == self.assets@.len()
        &&& self.criterion.wf()
        &&& self.parameters.wf()
    }

    /// A fresh run of the template: copies of the assets and strategies, no
    /// leftover cash, and a random source seeded by `seed`.
    pub fn instantiate(&self, seed: u64) -> (r: Result<SimulationRun, ConfigError>)
        ensures
            r is Ok <==> self.wf(),
            r is Err ==> r == Err::<SimulationRun, ConfigError>(self.config_error_spec().unwrap()),
            r is Ok ==> r.unwrap().wf() && r.unwrap().state is Running && r.unwrap().periods == 0
                && r.unwrap().events@.len() == 0 && r.unwrap().parameters == self.parameters
                && r.unwrap().price_model.same_config(&self.price_model) && r.unwrap().criterion == self.criterion
                && r.unwrap().inflation_rate == self.inflation_rate,
            r is Ok ==> r.unwrap().assets@.len() == self.assets@.len() && forall|i: int| 0 <= i < self.assets@.len()
                ==> (#[trigger] r.unwrap().assets@[i]).ticker@ == self.assets@[i].ticker@
                && r.unwrap().assets@[i].shares_held == self.assets@[i].shares_held
                && r.unwrap().assets@[i].price_history@ == self.assets@[i].price_history@,
            r is Ok ==> r.unwrap().factors@.len() == self.factors@.len() && forall|k: int| 0 <= k < self.factors@.len()
                ==> (#[trigger] r.unwrap().factors@[k]).weights@ == self.factors@[k].weights@
                && r.unwrap().factors@[k].monthly_amount == self.factors@[k].monthly_amount
                && r.unwrap().factors@[k].leftover == 0,
    {
        let assets = copy_assets(&self.assets);
        let model = self.price_model.duplicate();
        let mut factors: Vec<MonthlyContribution> = Vec::new();
        let mut k: usize = 0;
        while k < self.factors.len()
            invariant
                0 <= k <= self.factors@.len(),
                factors@.len() == k,
                forall|j: int| 0 <= j < k ==> (#[trigger] factors@[j]).weights@ == self.factors@[j].weights@
                    && factors@[j].monthly_amount == self.factors@[j].monthly_amount && factors@[j].leftover == 0,
            decreases self.factors@.len() - k,
        {
            factors.push(self.factors[k].fresh_copy());
            k += 1;
        }
        proof {
            lemma_same_config(self.price_model, model, assets@.len());
            lemma_same_factor_errors(factors@, self.factors@, assets@.len(), 0);
            assert forall|j: int| 0 <= j < factors@.len() implies (#[trigger] factors@[j]).wf() == self.factors@[j].wf() by {
                assert(factors@[j].weights@ == self.factors@[j].weights@);
            }
            if self.wf() {
                assert forall|j: int| 0 <= j < factors@.len() implies (#[trigger] factors@[j]).wf()
                    && factors@[j].weights@.len() == assets@.len() by {
                    assert(self.factors@[j].wf());
                }
            }
            if !self.wf() && factors@.len() > 0 {
                if forall|j: int| 0 <= j < factors@.len() ==> (#[trigger] factors@[j]).wf() && factors@[j].weights@.len()
                    == assets@.len() {
                    assert forall|j: int| 0 <= j < self.factors@.len() implies (#[trigger] self.factors@[j]).wf()
                        && self.factors@[j].weights@.len() == self.assets@.len() by {
                        assert(factors@[j].wf());
                    }
                }
            }
        }
        SimulationRun::new(assets, model, factors, self.criterion, self.inflation_rate, self.parameters, seed)
    }
}

/// Runs one independent trial per seed, in order, each on a fresh copy of the
/// template with its own random source.
pub fn run_monte_carlo(template: &RunTemplate, seeds: &Vec<u64>) -> (r: Result<Vec<TrialOutcome>, ConfigError>)
    ensures
        seeds@.len() == 0 ==> r == Err::<Vec<TrialOutcome>, ConfigError>(ConfigError::InvalidTrialCount),
        seeds@.len() > 0 ==> (r is Ok <==> template.wf()),
        seeds@.len() > 0 && r is Err ==> r == Err::<Vec<TrialOutcome>, ConfigError>(template.config_error_spec().unwrap()),
        r is Ok ==> r.unwrap()@.len() == seeds@.len(),
        r is Ok ==> forall|i: int| 0 <= i < seeds@.len() ==> {
            let o = #[trigger] r.unwrap()@[i];
            &&& o.state.is_terminal_spec()
            &&& o.periods <= template.parameters.max_iterations
            &&& (o.state is BudgetExhausted ==> template.parameters.budget_reached(o.periods as nat))
            &&& forall|k: nat| #[trigger] replay_ends_within(template.price_model, k)
                && !template.parameters.budget_reached(k) ==> o.state is Complete || o.state is Failed
        },
        r is Ok ==> forall|i: int| 0 <= i < seeds@.len() ==> #[trigger] reported_trial(template, r.unwrap()@[i]),
{
    if seeds.len() == 0 {
        return Err(ConfigError::InvalidTrialCount);
    }
    let mut outcomes: Vec<TrialOutcome> = Vec::new();
    let mut i: usize = 0;
    while i < seeds.len()
        invariant
            0 <= i <= seeds@.len(),
            outcomes@.len() == i,
            i > 0 ==> template.wf(),
            forall|j: int| 0 <= j < i ==> {
                let o = #[trigger] outcomes@[j];
                &&& o.state.is_terminal_spec()
                &&& o.periods <= template.parameters.max_iterations
                &&& (o.state is BudgetExhausted ==> template.parameters.budget_reached(o.periods as nat))
                &&& forall|k: nat| #[trigger] replay_ends_within(template.price_model, k)
                    && !template.parameters.budget_reached(k) ==> o.state is Complete || o.state is Failed
            },
            forall|j: int| 0 <= j < i ==> #[trigger] reported_trial(template, outcomes@[j]),
        decreases seeds@.len() - i,
    {
        let mut run = match template.instantiate(seeds[i]) {
            Ok(run) => run,
            Err(e) => {
                return Err(e);
            },
        };
        proof {
            lemma_same_config(template.price_model, run.price_model, run.assets@.len());
        }
        let ghost start = run;
        let state = run.run();
        let value = total_value(&run.assets);
        let outcome = TrialOutcome { state, periods: run.periods, final_value: value };
        proof {
            lemma_grown_from_copy(template.assets@, start.assets@, run.assets@, run.periods as nat);
            assert(trial_end(template, outcome, run));
        }
        let ghost earlier = outcomes@;
        outcomes.push(outcome);
        proof {
            assert(reported_trial(template, outcome));
            assert forall|j: int| 0 <= j < outcomes@.len() implies #[trigger] reported_trial(template, outcomes@[j]) by {
                if j < outcomes@.len() - 1 {
                    assert(outcomes@[j] == earlier[j]);
                }
            }
        }
        i += 1;
    }
    Ok(outcomes)
}

/// Periods of the trials that ended `Complete`, in trial order.
pub open spec fn completed_periods(o: Seq<TrialOutcome>) -> Seq<u64>
    decreases o.len(),
{
    if o.len() == 0 {
        Seq::empty()
    } else if o.last().state is Complete {
        completed_periods(o.drop_last()).push(o.last().periods)
    } else {
        completed_periods(o.drop_last())
    }
}

/// Number of trials that ended `Failed`.
pub open spec fn count_failed(o: Seq<TrialOutcome>) -> nat
    decreases o.len(),
{
    if o.len() == 0 {
        0
    } else {
        count_failed(o.drop_last()) + if o.last().state is Failed { 1nat } else { 0nat }
    }
}

/// Number of trials that ended `BudgetExhausted`.
pub open spec fn count_exhausted(o: Seq<TrialOutcome>) -> nat
    decreases o.len(),
{
    if o.len() == 0 {
        0
    } else {
        count_exhausted(o.drop_last()) + if o.last().state is BudgetExhausted { 1nat } else { 0nat }
    }
}

pub open spec fn period_leq() -> spec_fn(u64, u64) -> bool {
    |a: u64, b: u64| a <= b
}

/// Nearest-rank `p`-th percentile of an ascending sequence: the element of
/// rank `ceil(p * len / 100)`; `None` when the sequence is empty.
pub open spec fn nearest_rank(sorted: Seq<u64>, p: nat) -> Option<u64> {
    if sorted.len() == 0 {
        None
    } else {
        Some(sorted[((p * sorted.len() + 99) / 100 - 1) as int])
    }
}

/// Percentile of the periods to completion, over the completed trials.
pub open spec fn completion_percentile(o: Seq<TrialOutcome>, p: nat) -> Option<u64> {
    nearest_rank(completed_periods(o).sort_by(period_leq()), p)
}

/// Aggregate of a Monte Carlo batch.
#[derive(Clone, Copy, Debug, PartialEq, Eq)]
pub struct Summary {
    pub trials: usize,
    pub completed: usize,
    pub failed: usize,
    pub budget_exhausted: usize,
    /// Percentiles of the periods to completion, over the completed trials.
    pub p10: Option<u64>,
    pub median: Option<u64>,
    pub p90: Option<u64>,
}

/// Counts the trials by terminal state and takes the 10th, 50th and 90th
/// nearest-rank percentiles of the periods to completion.
pub fn summarize(outcomes: &Vec<TrialOutcome>) -> (r: Summary)
    ensures
        r.trials == outcomes@.len(),
        r.completed == completed_periods(outcomes@).len(),
        r.failed == count_failed(outcomes@),
        r.budget_exhausted == count_exhausted(outcomes@),
        r.p10 == completion_percentile(outcomes@, 10),
        r.median == completion_percentile(outcomes@, 50),
        r.p90 == completion_percentile(outcomes@, 90),
{
    let mut done: Vec<u64> = Vec::new();
    let mut failed: usize = 0;
    let mut exhausted: usize = 0;
    let mut i: usize = 0;
    while i < outcomes.len()
        invariant
            0 <= i <= outcomes@.len(),
            done@ == completed_periods(outcomes@.subrange(0, i as int)),
            failed == count_failed(outcomes@.subrange(0, i as int)),
            exhausted == count_exhausted(outcomes@.subrange(0, i as int)),
            failed <= i,
            exhausted <= i,
        decreases outcomes@.len() - i,
    {
        let ghost prefix = outcomes@.subrange(0, i as int);
        assert(outcomes@.subrange(0, i + 1).drop_last() =~= prefix);
        match outcomes[i].state {
            RunState::Complete => {
                done.push(outcomes[i].periods);
            },
            RunState::Failed(_) => {
                failed += 1;
            },
            RunState::BudgetExhausted => {
                exhausted += 1;
            },
            RunState::Running => {},
        }
        i += 1;
    }
    assert(outcomes@.subrange(0, outcomes@.len() as int) =~= outcomes@);
    let completed = done.len();
    let sorted = sort_periods(&done);
    Summary {
        trials: outcomes.len(),
        completed,
        failed,
        budget_exhausted: exhausted,
        p10: percentile(&sorted, 10),
        median: percentile(&sorted, 50),
        p90: percentile(&sorted, 90),
    }
}

/// The nearest-rank `p`-th percentile of an ascending list.
fn percentile(sorted: &Vec<u64>, p: u64) -> (r: Option<u64>)
    requires
        1 <= p <= 100,
    ensures
        r == nearest_rank(sorted@, p as nat),
{
    let m = sorted.len();
    if m == 0 {
        return None;
    }
    proof {
        assert(p * m <= 100 * 0xffff_ffff_ffff_ffff) by (nonlinear_arith)
            requires p <= 100, m <= 0xffff_ffff_ffff_ffff;
    }
    let pm = (p as u128) * (m as u128);
    proof {
        assert(pm <= 100 * m) by (nonlinear_arith)
            requires pm == p * m, p <= 100;
        assert(pm >= m) by (nonlinear_arith)
            requires pm == p * m, p >= 1;
        assert((pm + 99) / 100 <= m) by (nonlinear_arith)
            requires pm <= 100 * m;
        assert((pm + 99) / 100 >= 1) by (nonlinear_arith)
            requires pm >= m, m >= 1;
    }
    let rank = ((pm + 99) / 100) as usize;
    Some(sorted[rank - 1])
}

proof fn lemma_period_leq_total()
    ensures
        total_ordering(period_leq()),
{
}

/// The values of `v` in ascending order.
fn sort_periods(v: &Vec<u64>) -> (r: Vec<u64>)
    ensures
        r@ == v@.sort_by(period_leq()),
{
    let mut out: Vec<u64> = Vec::new();
    let mut i: usize = 0;
    assert(out@ =~= v@.subrange(0, 0));
    while i < v.len()
        invariant
            0 <= i <= v@.len(),
            sorted_by(out@, period_leq()),
            out@.to_multiset() == v@.subrange(0, i as int).to_multiset(),
            out@.len() == i,
        decreases v@.len() - i,
    {
        let x = v[i];
        let mut p: usize = 0;
        while p < out.len() && out[p] <= x
            invariant
                0 <= p <= out@.len(),
                forall|j: int| 0 <= j < p ==> out@[j] <= x,
            decreases out@.len() - p,
        {
            p += 1;
        }
        let ghost before = out@;
        out.insert(p, x);
        proof {
            broadcast use vstd::seq_lib::group_to_multiset_ensures;
            assert(forall|j: int| p <= j < before.len() ==> before[j] > x) by {
                assert forall|j: int| p <= j < before.len() implies before[j] > x by {
                    if p < before.len() {
                        assert(before[p as int] > x);
                        assert(period_leq()(before[p as int], before[j]));
                    }
                }
            }
            assert forall|a: int, b: int| 0 <= a < b < out@.len() implies #[trigger] period_leq()(out@[a], out@[b]) by {
                if b < p {
                    assert(period_leq()(before[a], before[b]));
                } else if b == p {
                } else if a < p {
                    assert(out@[b] == before[b - 1]);
                } else if a == p {
                    assert(out@[b] == before[b - 1]);
                } else {
                    assert(period_leq()(before[a - 1], before[b - 1]));
                }
            }
            assert(out@.remove(p as int) =~= before);
            assert(v@.subrange(0, i + 1) =~= v@.subrange(0, i as int).push(x));
            assert(out@.to_multiset() =~= before.to_multiset().insert(x)) by {
                assert(out@.remove(p as int).to_multiset() =~= out@.to_multiset().remove(out@[p as int]));
                assert(out@.contains(x)) by {
                    assert(out@[p as int] == x);
                }
            }
        }
        i += 1;
    }
    proof {
        assert(v@.subrange(0, v@.len() as int) =~= v@);
        lemma_period_leq_total();
        v@.lemma_sort_by_ensures(period_leq());
        vstd::seq_lib::lemma_sorted_unique(out@, v@.sort_by(period_leq()), period_leq());
    }
    out
}

} // verus!
