use vstd::prelude::*;
use rand::rngs::StdRng;
use crate::asset::{Asset, value_fits};
use crate::contribution::{MonthlyContribution, shares_to_buy, total_spent, spent_prefix, cost_of};
use crate::criterion::{SafeWithdrawalRate, inflated};
use crate::outcome::{ConfigError, FailureReason, RunState};
use crate::price_model::{PriceModel, moved_price, lemma_pick_state_bound};
use crate::random::{draw_below, seeded_rng, shuffle_in_place};
use crate::units::SCALE;

verus! {

broadcast use vstd::seq_lib::group_to_multiset_ensures;

/// Bounds of a run: at most `max_iterations` periods, and simulated time
/// (periods times `period_length`) below `max_period_budget`.
#[derive(Clone, Copy, Debug, PartialEq, Eq, Structural)]
pub struct Parameters {
    pub max_iterations: u64,
    pub max_period_budget: u64,
    pub period_length: u64,
}

impl Parameters {
    pub open spec fn wf(&self) -> bool {
        self.max_iterations > 0 && self.period_length > 0
    }

    /// After `periods` periods the run may go no further.
    pub open spec fn budget_reached(&self, periods: nat) -> bool {
        periods >= self.max_iterations || periods * self.period_length >= self.max_period_budget
    }

    /// Rejects a zero iteration cap or a zero period length.
    pub fn new(max_iterations: u64, max_period_budget: u64, period_length: u64) -> (r: Result<Parameters, ConfigError>)
        ensures
            r is Err <==> max_iterations == 0 || period_length == 0,
            r is Err ==> r == Err::<Parameters, ConfigError>(ConfigError::InvalidBudget),
            r is Ok ==> r.unwrap() == (Parameters { max_iterations, max_period_budget, period_length }),
    {
        if max_iterations == 0 || period_length == 0 {
            Err(ConfigError::InvalidBudget)
        } else {
            Ok(Parameters { max_iterations, max_period_budget, period_length })
        }
    }

    pub fn is_budget_reached(&self, periods: u64) -> (r: bool)
        ensures
            r == self.budget_reached(periods as nat),
    {
        let p = periods as u128;
        let l = self.period_length as u128;
        proof {
            assert(p * l <= 0xffff_ffff_ffff_ffff * 0xffff_ffff_ffff_ffff) by (nonlinear_arith)
                requires p <= 0xffff_ffff_ffff_ffff, l <= 0xffff_ffff_ffff_ffff;
        }
        periods >= self.max_iterations || p * l >= self.max_period_budget as u128
    }
}

proof fn lemma_budget_monotone(p: Parameters, a: nat, b: nat)
    requires
        a <= b,
        p.budget_reached(a),
    ensures
        p.budget_reached(b),
{
    assert(a * p.period_length <= b * p.period_length) by (nonlinear_arith)
        requires a <= b;
}

/// Shares of one asset at price `price` that `factors[0..k]` buy in one
/// period, each factor spending its own available cash.
pub open spec fn bought_at(factors: Seq<MonthlyContribution>, i: int, price: nat, k: int) -> int
    decreases k,
{
    if k <= 0 {
        0
    } else {
        bought_at(factors, i, price, k - 1) + shares_to_buy(factors[k - 1].available_spec(), factors[k - 1].weights@[i],
            price)
    }
}

/// Shares of asset `i` that `factors[0..k]` buy in one period at the latest
/// prices of `assets`.
pub open spec fn factors_bought(factors: Seq<MonthlyContribution>, assets: Seq<Asset>, i: int, k: int) -> int {
    bought_at(factors, i, assets[i].latest_spec(), k)
}

/// Two portfolios of the same size with the same latest prices.
pub open spec fn same_prices(a: Seq<Asset>, b: Seq<Asset>) -> bool {
    a.len() == b.len() && forall|i: int| 0 <= i < a.len() ==> (#[trigger] a[i]).latest_spec() == b[i].latest_spec()
}

proof fn lemma_bought_same_prices(factors: Seq<MonthlyContribution>, a: Seq<Asset>, b: Seq<Asset>, i: int, k: int)
    requires
        same_prices(a, b),
        0 <= i < a.len(),
    ensures
        factors_bought(factors, a, i, k) == factors_bought(factors, b, i, k),
    decreases k,
{
    if k > 0 {
        lemma_bought_same_prices(factors, a, b, i, k - 1);
        assert(a[i].latest_spec() == b[i].latest_spec());
    }
}

proof fn lemma_spent_same_prices(available: nat, weights: Seq<Option<u64>>, a: Seq<Asset>, b: Seq<Asset>, k: int)
    requires
        same_prices(a, b),
        k <= a.len(),
    ensures
        spent_prefix(available, weights, a, k) == spent_prefix(available, weights, b, k),
    decreases k,
{
    if k > 0 {
        lemma_spent_same_prices(available, weights, a, b, k - 1);
        assert(a[k - 1].latest_spec() == b[k - 1].latest_spec());
        assert(cost_of(available, weights, a, k - 1) == cost_of(available, weights, b, k - 1));
    }
}

proof fn lemma_same_histories(start: Seq<Asset>, a: Seq<Asset>, b: Seq<Asset>)
    requires
        SimulationRun::histories_grown(start, a, 1),
        b.len() == a.len(),
        forall|i: int| 0 <= i < a.len() ==> (#[trigger] b[i]).price_history@ == a[i].price_history@,
    ensures
        SimulationRun::histories_grown(start, b, 1),
{
    assert forall|i: int| 0 <= i < start.len() implies (#[trigger] b[i]).price_history@.len()
        == start[i].price_history@.len() + 1 && b[i].price_history@.subrange(0,
        start[i].price_history@.len() as int) == start[i].price_history@ by {
        assert(b[i].price_history@ == a[i].price_history@);
    }
}

/// `order` lists every index below `n`, and nothing else.
pub open spec fn covers(order: Seq<usize>, n: nat) -> bool {
    &&& forall|k: int| 0 <= k < order.len() ==> order[k] < n
    &&& forall|i: usize| i < n ==> #[trigger] order.contains(i)
}

/// Report of one step of a running run: the periods simulated after it and
/// the state it left the run in. State transitions and per-period summaries
/// are read from these.
#[derive(Clone, Copy, Debug, PartialEq, Eq, Structural)]
pub struct StepEvent {
    pub periods: u64,
    pub state: RunState,
}

/// The first problem with `factors[k..]` for `n` assets, if any.
pub open spec fn first_factor_error(factors: Seq<MonthlyContribution>, n: nat, k: int) -> Option<ConfigError>
    decreases factors.len() - k,
{
    if k < 0 || k >= factors.len() {
        None
    } else if factors[k].factor_error(n) is Some {
        factors[k].factor_error(n)
    } else {
        first_factor_error(factors, n, k + 1)
    }
}

/// The first problem `SimulationRun::new` finds with its arguments, in the
/// order it checks them, if any.
pub open spec fn config_error(
    n: nat,
    price_model: PriceModel,
    factors: Seq<MonthlyContribution>,
    criterion: SafeWithdrawalRate,
    inflation_rate: u64,
    parameters: Parameters,
) -> Option<ConfigError> {
    if factors.len() == 0 {
        Some(ConfigError::NoCashFlowFactor)
    } else if price_model.model_error(n) is Some {
        price_model.model_error(n)
    } else if first_factor_error(factors, n, 0) is Some {
        first_factor_error(factors, n, 0)
    } else if !criterion.wf() {
        Some(ConfigError::InvalidWithdrawalRate)
    } else if !parameters.wf() {
        Some(ConfigError::InvalidBudget)
    } else {
        None
    }
}

/// One simulated portfolio with its strategies, stepped period by period.
pub struct SimulationRun {
    pub assets: Vec<Asset>,
    pub price_model: PriceModel,
    /// Cash-flow factors, applied in this order every period.
    pub factors: Vec<MonthlyContribution>,
    pub criterion: SafeWithdrawalRate,
    /// Inflation per period, in parts per million.
    pub inflation_rate: u64,
    pub parameters: Parameters,
    pub state: RunState,
    /// Periods simulated so far; each added one price to every asset.
    pub periods: u64,
    /// The run's own random source.
    pub rng: StdRng,
    /// One event per step taken while running, oldest first.
    pub events: Vec<StepEvent>,
}

impl SimulationRun {
    pub open spec fn wf(&self) -> bool {
        &&& self.price_model.wf(self.assets@.len())
        &&& self.factors@.len() > 0
        &&& forall|k: int| 0 <= k < self.factors@.len() ==> (#[trigger] self.factors@[k]).wf()
            && self.factors@[k].weights@.len() == self.assets@.len()
        &&& self.criterion.wf()
        &&& self.parameters.wf()
        &&& self.periods <= self.parameters.max_iterations
        &&& (self.state is BudgetExhausted ==> self.parameters.budget_reached(self.periods as nat))
    }

    /// Price of asset `i` in the next period, for the uniform values `draws`.
    pub open spec fn next_price_of(&self, i: int, draws: Seq<u64>) -> nat {
        self.price_model.period_price(self.assets@, i, draws[i] as nat)
    }

    /// Every factor's cash fits in a `u64`, and every share count stays
    /// within `i64` as the factors buy in turn at the next period's prices.
    pub open spec fn purchases_fit(&self, draws: Seq<u64>) -> bool {
        &&& forall|k: int| 0 <= k < self.factors@.len() ==> (#[trigger] self.factors@[k]).available_spec() <= u64::MAX
        &&& forall|k: int, i: int| 1 <= k <= self.factors@.len() && 0 <= i < self.assets@.len() ==> self.assets@[i].shares_held
            + #[trigger] bought_at(self.factors@, i, self.next_price_of(i, draws), k) <= i64::MAX
    }

    /// Some value of the run does not fit its integer type: the portfolio
    /// value, the inflated expenses, a factor's next purchases, or a Markov
    /// move of some asset into some state.
    pub open spec fn at_overflow(&self) -> bool {
        ||| !value_fits(self.assets@)
        ||| !self.inflation_fits()
        ||| exists|k: int| 0 <= k < self.factors@.len() && !(#[trigger] self.factors@[k]).contribution_fits(self.assets@)
        ||| match self.price_model {
            PriceModel::Markov(c) => exists|i: int, t: int| 0 <= i < self.assets@.len() && 0 <= t < c.factors@.len()
                && #[trigger] moved_price(self.assets@[i].latest_spec(), c.factors@[t] as nat) > u64::MAX,
            PriceModel::Historical(_) => false,
        }
    }

    /// One period of inflation keeps the expenses within `u64`.
    pub open spec fn inflation_fits(&self) -> bool {
        inflated(self.criterion.annual_expenses as int, self.inflation_rate as int) <= u64::MAX
    }

    /// The price histories of `later` extend those of `earlier` by `k` entries each.
    pub open spec fn histories_grown(earlier: Seq<Asset>, later: Seq<Asset>, k: nat) -> bool {
        &&& later.len() == earlier.len()
        &&& forall|i: int| 0 <= i < earlier.len() ==> (#[trigger] later[i]).price_history@.len()
            == earlier[i].price_history@.len() + k && later[i].price_history@.subrange(0,
            earlier[i].price_history@.len() as int) == earlier[i].price_history@
    }

    /// The run's state and counters, unchanged.
    pub open spec fn same_progress(a: &SimulationRun, b: &SimulationRun) -> bool {
        a.state == b.state && a.periods == b.periods && a.assets@ == b.assets@
    }

    /// Checks that the strategies fit the assets and each other, and starts a
    /// run in `Running` with a random source seeded by `seed`.
    pub fn new(
        assets: Vec<Asset>,
        price_model: PriceModel,
        factors: Vec<MonthlyContribution>,
        criterion: SafeWithdrawalRate,
        inflation_rate: u64,
        parameters: Parameters,
        seed: u64,
    ) -> (r: Result<SimulationRun, ConfigError>)
        ensures
            r is Ok <==> (price_model.wf(assets@.len()) && factors@.len() > 0 && (forall|k: int|
                0 <= k < factors@.len() ==> (#[trigger] factors@[k]).wf() && factors@[k].weights@.len()
                == assets@.len()) && criterion.wf() && parameters.wf()),
            r is Ok ==> r.unwrap().wf() && r.unwrap().state is Running && r.unwrap().periods == 0
                && r.unwrap().events@.len() == 0
                && r.unwrap().assets@ == assets@ && r.unwrap().price_model == price_model
                && r.unwrap().factors@ == factors@ && r.unwrap().criterion == criterion
                && r.unwrap().inflation_rate == inflation_rate && r.unwrap().parameters == parameters,
            r is Err ==> r == Err::<SimulationRun, ConfigError>(config_error(assets@.len(), price_model, factors@,
                criterion, inflation_rate, parameters).unwrap()),
            r is Ok <==> config_error(assets@.len(), price_model, factors@, criterion, inflation_rate, parameters) is None,
    {
        if factors.len() == 0 {
            return Err(ConfigError::NoCashFlowFactor);
        }
        let n = assets.len();
        let fits = match &price_model {
            PriceModel::Historical(h) => h.series.len() == n,
            PriceModel::Markov(c) => c.states.len() == n,
        };
        if !fits {
            return Err(ConfigError::AssetCountMismatch);
        }
        match &price_model {
            PriceModel::Markov(c) => {
                match c.check() {
                    Err(e) => {
                        return Err(e);
                    },
                    Ok(()) => {},
                }
            },
            PriceModel::Historical(_) => {},
        }
        let mut k: usize = 0;
        while k < factors.len()
            invariant
                0 <= k <= factors@.len(),
                n == assets@.len(),
                forall|j: int| 0 <= j < k ==> (#[trigger] factors@[j]).wf() && factors@[j].weights@.len() == n,
                first_factor_error(factors@, n as nat, 0) == first_factor_error(factors@, n as nat, k as int),
                factors@.len() > 0,
                price_model.model_error(n as nat) is None,
                price_model.wf(n as nat),
            decreases factors@.len() - k,
        {
            if factors[k].weights.len() != n {
                return Err(ConfigError::AssetCountMismatch);
            }
            if !factors[k].is_well_formed() {
                return Err(ConfigError::InvalidAllocation);
            }
            k += 1;
        }
        if criterion.withdrawal_rate > SCALE {
            return Err(ConfigError::InvalidWithdrawalRate);
        }
        if parameters.max_iterations == 0 || parameters.period_length == 0 {
            return Err(ConfigError::InvalidBudget);
        }
        Ok(SimulationRun {
            assets,
            price_model,
            factors,
            criterion,
            inflation_rate,
            parameters,
            state: RunState::Running,
            periods: 0,
            rng: seeded_rng(seed),
            events: Vec::new(),
        })
    }

    /// One period of the state machine. A terminal run is left as it is; a
    /// running run whose budget is spent becomes `BudgetExhausted`. Otherwise
    /// the price model appends one price per asset (with `draws` as its
    /// uniform values), the cash-flow factors are applied in order (visiting
    /// assets in the order `order` gives), the expenses are inflated, and the
    /// criterion decides the new state. An error on the way ends the run in
    /// `Failed` with its reason.
    pub fn step_with(&mut self, order: &Vec<usize>, draws: &Vec<u64>)
        requires
            old(self).wf(),
            covers(order@, old(self).assets@.len()),
            draws@.len() == old(self).assets@.len(),
        ensures
            final(self).wf(),
            final(self).parameters == old(self).parameters,
            final(self).inflation_rate == old(self).inflation_rate,
            final(self).criterion.withdrawal_rate == old(self).criterion.withdrawal_rate,
            final(self).factors@.len() == old(self).factors@.len(),
            old(self).state.is_terminal_spec() ==> *final(self) == *old(self),
            old(self).state is Running && !old(self).parameters.budget_reached(old(self).periods as nat)
                && old(self).price_model.can_advance(old(self).assets@, draws@) && old(self).purchases_fit(draws@)
                && old(self).inflation_fits() ==> final(self).periods == old(self).periods + 1 && final(self).state
                == final(self).criterion.evaluate_spec(final(self).assets@),
            !old(self).state.is_terminal_spec() && final(self).state == RunState::Failed(FailureReason::ExhaustedData)
                ==> old(self).price_model is Historical && !old(self).price_model.can_advance(old(self).assets@, draws@)
                && !old(self).parameters.budget_reached(old(self).periods as nat) && final(self).periods
                == old(self).periods && final(self).assets@ == old(self).assets@,
            !old(self).state.is_terminal_spec() && final(self).state == RunState::Failed(FailureReason::NumericalOverflow)
                ==> final(self).at_overflow(),
            !old(self).state.is_terminal_spec() && final(self).state == RunState::Failed(FailureReason::NumericalOverflow)
                ==> !old(self).parameters.budget_reached(old(self).periods as nat) && (!old(self).price_model.can_advance(
                old(self).assets@, draws@) || !old(self).purchases_fit(draws@) || !old(self).inflation_fits()
                || !value_fits(final(self).assets@)),
            !old(self).state.is_terminal_spec() ==> final(self).events@ == old(self).events@.push(
                StepEvent { periods: final(self).periods, state: final(self).state }),
            old(self).state is Running && !old(self).parameters.budget_reached(old(self).periods as nat) ==> match old(
                self).price_model {
                PriceModel::Historical(h0) => !h0.has_next() ==> final(self).state == RunState::Failed(
                    FailureReason::ExhaustedData) && final(self).periods == old(self).periods,
                PriceModel::Markov(_) => true,
            },
            old(self).state is Running && old(self).parameters.budget_reached(old(self).periods as nat) ==> final(
                self).state is BudgetExhausted && final(self).periods == old(self).periods && final(self).assets@
                == old(self).assets@,
            final(self).periods == old(self).periods || final(self).periods == old(self).periods + 1,
            final(self).periods == old(self).periods ==> final(self).assets@ == old(self).assets@,
            final(self).periods == old(self).periods + 1 ==> old(self).state is Running && Self::histories_grown(
                old(self).assets@, final(self).assets@, 1),
            final(self).state is Running ==> final(self).periods == old(self).periods + 1,
            final(self).periods == old(self).periods + 1 ==> forall|i: int| 0 <= i < old(self).assets@.len()
                ==> (#[trigger] final(self).assets@[i]).latest_spec() == old(self).price_model.period_price(
                old(self).assets@, i, draws@[i] as nat) && final(self).assets@[i].ticker == old(self).assets@[i].ticker,
            (final(self).state is Running || final(self).state is Complete) && !old(self).state.is_terminal_spec()
                ==> forall|i: int| 0 <= i < old(self).assets@.len() ==> (#[trigger] final(self).assets@[i]).shares_held
                == old(self).assets@[i].shares_held + factors_bought(old(self).factors@, final(self).assets@, i,
                old(self).factors@.len() as int),
            (final(self).state is Running || final(self).state is Complete) && !old(self).state.is_terminal_spec()
                ==> forall|k: int| 0 <= k < old(self).factors@.len() ==> (#[trigger] final(self).factors@[k]).leftover
                == old(self).factors@[k].available_spec() - total_spent(old(self).factors@[k].available_spec(),
                old(self).factors@[k].weights@, final(self).assets@) && final(self).factors@[k].weights@
                == old(self).factors@[k].weights@ && final(self).factors@[k].monthly_amount
                == old(self).factors@[k].monthly_amount,
            (final(self).state is Running || final(self).state is Complete) && !old(self).state.is_terminal_spec()
                ==> final(self).state == final(self).criterion.evaluate_spec(final(self).assets@)
                && final(self).criterion.annual_expenses == inflated(old(self).criterion.annual_expenses as int,
                old(self).inflation_rate as int),
            match (old(self).price_model, final(self).price_model) {
                (PriceModel::Historical(h0), PriceModel::Historical(h1)) => h1.series@ == h0.series@ && h1.next
                    == h0.next + (final(self).periods - old(self).periods) && (final(self).periods
                    == old(self).periods + 1 ==> forall|i: int| 0 <= i < h1.series@.len() ==> h1.next <= (
                    #[trigger] h1.series@[i])@.len()),
                (PriceModel::Markov(_), PriceModel::Markov(_)) => true,
                _ => false,
            },
    {
        if self.state.is_terminal() {
            return;
        }
        if self.parameters.is_budget_reached(self.periods) {
            self.state = RunState::BudgetExhausted;
            self.events.push(StepEvent { periods: self.periods, state: self.state });
            return;
        }
        let ghost start = self.assets@;
        let ghost model0 = self.price_model;
        match self.price_model.advance(&mut self.assets, draws) {
            Err(e) => {
                self.state = RunState::Failed(e);
                proof {
                    if let PriceModel::Markov(c) = model0 {
                        let i = choose|i: int| 0 <= i < start.len() && !(#[trigger] c.next_price(start, i,
                            draws@[i] as nat) <= u64::MAX);
                        let row = c.transition@[c.states@[i] as int]@;
                        lemma_pick_state_bound(row, draws@[i] as nat, 0);
                        let t = c.next_state(i, draws@[i] as nat) as int;
                        if let PriceModel::Markov(c1) = &self.price_model {
                            assert(c1.factors@ == c.factors@);
                            assert(moved_price(self.assets@[i].latest_spec(), c1.factors@[t] as nat) > u64::MAX);
                        }
                    }
                }
                self.events.push(StepEvent { periods: self.periods, state: self.state });
                return;
            },
            Ok(()) => {},
        }
        self.periods = self.periods + 1;
        let ghost priced = self.assets@;
        assert(Self::histories_grown(start, priced, 1)) by {
            assert forall|i: int| 0 <= i < start.len() implies (#[trigger] priced[i]).price_history@.subrange(0,
                start[i].price_history@.len() as int) == start[i].price_history@ by {
                assert(priced[i].price_history@.drop_last() == start[i].price_history@);
            }
        }
        let n = self.assets.len();
        let ghost model = self.price_model;
        let ghost periods = self.periods;
        let mut k: usize = 0;
        while k < self.factors.len()
            invariant
                0 <= k <= self.factors@.len(),
                self.factors@.len() == old(self).factors@.len(),
                self.criterion == old(self).criterion,
                self.inflation_rate == old(self).inflation_rate,
                self.parameters == old(self).parameters,
                self.price_model == model,
                model.wf(n as nat),
                self.periods == periods,
                periods == old(self).periods + 1,
                self.state is Running,
                old(self).wf(),
                old(self).state is Running,
                !old(self).parameters.budget_reached(old(self).periods as nat),
                start == old(self).assets@,
                match (old(self).price_model, model) {
                    (PriceModel::Historical(h0), PriceModel::Historical(h1)) => h1.series@ == h0.series@
                        && h1.next == h0.next + 1 && forall|i: int| 0 <= i < h1.series@.len() ==> h1.next <= (
                        #[trigger] h1.series@[i])@.len(),
                    (PriceModel::Markov(_), PriceModel::Markov(_)) => true,
                    _ => false,
                },
                Self::histories_grown(start, priced, 1),
                self.factors@.len() > 0,
                n == self.assets@.len(),
                n == priced.len(),
                covers(order@, n as nat),
                forall|j: int| 0 <= j < self.factors@.len() ==> (#[trigger] self.factors@[j]).wf()
                    && self.factors@[j].weights@.len() == n,
                forall|i: int| 0 <= i < n ==> (#[trigger] self.assets@[i]).price_history@
                    == priced[i].price_history@ && self.assets@[i].ticker == priced[i].ticker,
                forall|i: int| 0 <= i < n ==> (#[trigger] self.assets@[i]).shares_held == priced[i].shares_held
                    + factors_bought(old(self).factors@, priced, i, k as int),
                forall|j: int| 0 <= j < k ==> (#[trigger] self.factors@[j]).leftover == old(self).factors@[j].available_spec()
                    - total_spent(old(self).factors@[j].available_spec(), old(self).factors@[j].weights@, priced)
                    && self.factors@[j].weights@ == old(self).factors@[j].weights@ && self.factors@[j].monthly_amount
                    == old(self).factors@[j].monthly_amount,
                forall|j: int| k <= j < self.factors@.len() ==> #[trigger] self.factors@[j] == old(self).factors@[j],
                forall|i: int| 0 <= i < n ==> (#[trigger] priced[i]).latest_spec() == old(self).price_model.period_price(
                    old(self).assets@, i, draws@[i] as nat) && priced[i].ticker == old(self).assets@[i].ticker
                    && priced[i].shares_held == old(self).assets@[i].shares_held,
                old(self).assets@.len() == n,
                draws@.len() == n,
                self.events@ == old(self).events@,
            decreases self.factors@.len() - k,
        {
            let ghost assets_before = self.assets@;
            let ghost factor_before = self.factors@[k as int];
            match self.factors[k].apply(&mut self.assets, order) {
                Err(e) => {
                    self.state = RunState::Failed(e);
                    proof {
                        lemma_same_histories(start, priced, self.assets@);
                        assert(same_prices(self.assets@, priced));
                        if old(self).purchases_fit(draws@) {
                            assert(factor_before.available_spec() <= u64::MAX);
                            assert forall|i: int| 0 <= i < assets_before.len() implies assets_before[i].shares_held
                                + #[trigger] shares_to_buy(factor_before.available_spec(), factor_before.weights@[i],
                                assets_before[i].latest_spec()) <= i64::MAX by {
                                assert(bought_at(old(self).factors@, i, old(self).next_price_of(i, draws@), k + 1)
                                    == bought_at(old(self).factors@, i, old(self).next_price_of(i, draws@), k as int)
                                    + shares_to_buy(factor_before.available_spec(), factor_before.weights@[i],
                                    assets_before[i].latest_spec()));
                            }
                            assert(false);
                        }
                        assert(!self.factors@[k as int].contribution_fits(self.assets@));
                    }
                    self.events.push(StepEvent { periods: self.periods, state: self.state });
                    return;
                },
                Ok(()) => {},
            }
            proof {
                assert(same_prices(assets_before, priced));
                lemma_spent_same_prices(factor_before.available_spec(), factor_before.weights@, assets_before, priced,
                    n as int);
                assert forall|i: int| 0 <= i < n implies (#[trigger] self.assets@[i]).shares_held == priced[i].shares_held
                    + factors_bought(old(self).factors@, priced, i, k + 1) by {
                    assert(assets_before[i].latest_spec() == priced[i].latest_spec());
                }
            }
            k += 1;
        }
        proof {
            lemma_same_histories(start, priced, self.assets@);
            assert(same_prices(self.assets@, priced));
            assert forall|i: int| 0 <= i < n implies factors_bought(old(self).factors@, self.assets@, i,
                self.factors@.len() as int) == factors_bought(old(self).factors@, priced, i, self.factors@.len() as int) by {
                lemma_bought_same_prices(old(self).factors@, self.assets@, priced, i, self.factors@.len() as int);
            }
            assert forall|j: int| 0 <= j < self.factors@.len() implies total_spent(old(self).factors@[j].available_spec(),
                old(self).factors@[j].weights@, self.assets@) == total_spent(old(self).factors@[j].available_spec(),
                old(self).factors@[j].weights@, priced) by {
                lemma_spent_same_prices(old(self).factors@[j].available_spec(), old(self).factors@[j].weights@,
                    self.assets@, priced, n as int);
            }
        }
        match self.criterion.adjust_for_inflation(self.inflation_rate) {
            Err(e) => {
                self.state = RunState::Failed(e);
                self.events.push(StepEvent { periods: self.periods, state: self.state });
                return;
            },
            Ok(()) => {},
        }
        self.state = self.criterion.evaluate(&self.assets);
        self.events.push(StepEvent { periods: self.periods, state: self.state });
    }

    /// Steps the run until it reaches a terminal state, and returns that state.
    /// Each period visits the assets in a freshly shuffled order and draws one
    /// uniform value per asset, both from the run's own random source.
    pub fn run(&mut self) -> (r: RunState)
        requires
            old(self).wf(),
        ensures
            final(self).wf(),
            r == final(self).state,
            final(self).state.is_terminal_spec(),
            final(self).parameters == old(self).parameters,
            final(self).periods <= final(self).parameters.max_iterations,
            old(self).periods <= final(self).periods,
            old(self).state.is_terminal_spec() ==> Self::same_progress(final(self), old(self)),
            Self::histories_grown(old(self).assets@, final(self).assets@, (final(self).periods - old(self).periods) as nat),
            final(self).state is BudgetExhausted ==> final(self).parameters.budget_reached(final(self).periods as nat),
            final(self).periods > old(self).periods ==> !final(self).parameters.budget_reached(
                (final(self).periods - 1) as nat),
            final(self).state is Complete && !old(self).state.is_terminal_spec() ==> final(self).state == final(
                self).criterion.evaluate_spec(final(self).assets@),
            forall|k: nat| #[trigger] replay_ends_within(old(self).price_model, k) && !old(self).parameters.budget_reached(
                (old(self).periods + k) as nat) ==> final(self).state is Complete || final(self).state is Failed,
            !old(self).state.is_terminal_spec() ==> final(self).events@.len() > old(self).events@.len()
                && final(self).events@.subrange(0, old(self).events@.len() as int) == old(self).events@
                && final(self).events@.last().state == final(self).state && forall|j: int| old(self).events@.len() <= j
                < final(self).events@.len() - 1 ==> (#[trigger] final(self).events@[j]).state is Running,
            !old(self).state.is_terminal_spec() && final(self).state == RunState::Failed(FailureReason::NumericalOverflow)
                ==> final(self).at_overflow(),
            !old(self).state.is_terminal_spec() && final(self).state == RunState::Failed(FailureReason::ExhaustedData)
                ==> replay_exhausted_at(old(self).price_model, (final(self).periods - old(self).periods) as nat),
    {
        let ghost first = *self;
        assert forall|i: int| 0 <= i < first.assets@.len() implies (#[trigger] first.assets@[i]).price_history@.subrange(
            0, first.assets@[i].price_history@.len() as int) == first.assets@[i].price_history@ by {
            assert(first.assets@[i].price_history@.subrange(0, first.assets@[i].price_history@.len() as int)
                =~= first.assets@[i].price_history@);
        }
        while !self.state.is_terminal()
            invariant
                self.wf(),
                self.parameters == first.parameters,
                first.periods <= self.periods,
                self.periods > first.periods ==> !self.parameters.budget_reached((self.periods - 1) as nat),
                first.state.is_terminal_spec() ==> Self::same_progress(self, &first),
                Self::histories_grown(first.assets@, self.assets@, (self.periods - first.periods) as nat),
                self.state is Complete && !first.state.is_terminal_spec() ==> self.state
                    == self.criterion.evaluate_spec(self.assets@),
                match (first.price_model, self.price_model) {
                    (PriceModel::Historical(h0), PriceModel::Historical(h)) => h.series@ == h0.series@ && h.next
                        == h0.next + (self.periods - first.periods) && (self.periods > first.periods ==> forall|i: int|
                        0 <= i < h.series@.len() ==> h.next <= (#[trigger] h.series@[i])@.len()),
                    (PriceModel::Markov(_), PriceModel::Markov(_)) => true,
                    _ => false,
                },
                !first.state.is_terminal_spec() ==> self.events@.len() >= first.events@.len()
                    && self.events@.subrange(0, first.events@.len() as int) == first.events@
                    && (self.events@.len() > first.events@.len() || self.state is Running)
                    && (self.events@.len() > first.events@.len() ==> self.events@.last().state == self.state)
                    && forall|j: int| first.events@.len() <= j < self.events@.len() - 1 ==> (
                    #[trigger] self.events@[j]).state is Running,
                !first.state.is_terminal_spec() && self.state == RunState::Failed(FailureReason::NumericalOverflow)
                    ==> self.at_overflow(),
                !first.state.is_terminal_spec() && self.state == RunState::Failed(FailureReason::ExhaustedData)
                    ==> replay_exhausted_at(first.price_model, (self.periods - first.periods) as nat),
            decreases (self.parameters.max_iterations - self.periods) * 2 + (if self.state is Running { 1int } else { 0int }),
        {
            let n = self.assets.len();
            let order = shuffled_indices(&mut self.rng, n);
            let draws = uniform_draws(&mut self.rng, n);
            let ghost before = *self;
            self.step_with(&order, &draws);
            proof {
                assert(self.events@.subrange(0, first.events@.len() as int) =~= first.events@) by {
                    assert(self.events@ == before.events@.push(StepEvent { periods: self.periods, state: self.state }));
                    assert forall|j: int| 0 <= j < first.events@.len() implies self.events@[j] == first.events@[j] by {
                        assert(before.events@.subrange(0, first.events@.len() as int)[j] == first.events@[j]);
                    }
                }
                assert forall|j: int| first.events@.len() <= j < self.events@.len() - 1 implies (
                    #[trigger] self.events@[j]).state is Running by {
                    assert(self.events@[j] == before.events@[j]);
                    if j == before.events@.len() - 1 {
                        assert(before.events@.last().state == before.state);
                    }
                }
                if self.state == RunState::Failed(FailureReason::ExhaustedData) {
                    if let PriceModel::Historical(h0) = first.price_model {
                        if let PriceModel::Historical(h) = before.price_model {
                            let d = (self.periods - first.periods) as nat;
                            assert(h.next == h0.next + d);
                            assert(!h.has_next());
                            if h.next < usize::MAX {
                                let i = choose|i: int| 0 <= i < h.series@.len() && !(h.next < (
                                    #[trigger] h.series@[i])@.len());
                                assert(h0.series@[i]@.len() <= h0.next + d);
                            }
                        }
                    }
                }
                if self.periods == before.periods + 1 {
                    lemma_histories_chain(first.assets@, before.assets@, self.assets@,
                        (before.periods - first.periods) as nat);
                }
            }
        }
        proof {
            assert forall|k: nat| #[trigger] replay_ends_within(first.price_model, k) && !first.parameters.budget_reached(
                (first.periods + k) as nat) implies self.state is Complete || self.state is Failed by {
                if let PriceModel::Historical(h0) = first.price_model {
                    let i = choose|i: int| 0 <= i < h0.series@.len() && #[trigger] h0.series@[i]@.len() <= h0.next + k;
                    if self.periods > first.periods {
                        if let PriceModel::Historical(h) = self.price_model {
                            assert(h.next <= h.series@[i]@.len());
                        }
                    }
                    assert(self.periods <= first.periods + k);
                    if self.parameters.budget_reached(self.periods as nat) {
                        lemma_budget_monotone(self.parameters, self.periods as nat, (first.periods + k) as nat);
                    }
                }
            }
        }
        self.state
    }
}

/// The run's price model is a replay that runs out after exactly `d` more
/// periods: its cursor cannot advance `d` steps further, or some series has at
/// most `d` entries left, while (for `d > 0`) every series has at least `d`.
pub open spec fn replay_exhausted_at(model: PriceModel, d: nat) -> bool {
    match model {
        PriceModel::Historical(h) => (h.next + d >= usize::MAX || exists|i: int| 0 <= i < h.series@.len()
            && #[trigger] h.series@[i]@.len() <= h.next + d) && (d == 0 || forall|i: int| 0 <= i < h.series@.len()
            ==> h.next + d <= (#[trigger] h.series@[i])@.len()),
        PriceModel::Markov(_) => false,
    }
}

/// The run's price model is a replay in which some series has at most `k`
/// entries left.
pub open spec fn replay_ends_within(model: PriceModel, k: nat) -> bool {
    match model {
        PriceModel::Historical(h) => exists|i: int| 0 <= i < h.series@.len() && #[trigger] h.series@[i]@.len() <= h.next + k,
        PriceModel::Markov(_) => false,
    }
}

proof fn lemma_histories_chain(a: Seq<Asset>, b: Seq<Asset>, c: Seq<Asset>, k: nat)
    requires
        SimulationRun::histories_grown(a, b, k),
        SimulationRun::histories_grown(b, c, 1),
    ensures
        SimulationRun::histories_grown(a, c, k + 1),
{
    assert forall|i: int| 0 <= i < a.len() implies (#[trigger] c[i]).price_history@.len() == a[i].price_history@.len()
        + k + 1 && c[i].price_history@.subrange(0, a[i].price_history@.len() as int) == a[i].price_history@ by {
        let ha = a[i].price_history@;
        let hb = b[i].price_history@;
        let hc = c[i].price_history@;
        assert(hc.subrange(0, hb.len() as int) == hb);
        assert(hb.subrange(0, ha.len() as int) == ha);
        assert(hc.subrange(0, ha.len() as int) =~= hc.subrange(0, hb.len() as int).subrange(0, ha.len() as int));
    }
}

/// The indices `0..n` in an order drawn from `rng`.
fn shuffled_indices(rng: &mut StdRng, n: usize) -> (r: Vec<usize>)
    ensures
        covers(r@, n as nat),
{
    let mut order: Vec<usize> = Vec::new();
    let mut i: usize = 0;
    while i < n
        invariant
            0 <= i <= n,
            order@.len() == i,
            forall|j: int| 0 <= j < i ==> order@[j] == j,
        decreases n - i,
    {
        order.push(i);
        i += 1;
    }
    let ghost plain = order@;
    shuffle_in_place(rng, &mut order);
    proof {
        assert forall|k: int| 0 <= k < order@.len() implies order@[k] < n by {
            assert(order@.contains(order@[k]));
            assert(order@.to_multiset().count(order@[k]) > 0);
            assert(plain.contains(order@[k]));
        }
        assert forall|i: usize| i < n implies #[trigger] order@.contains(i) by {
            assert(plain[i as int] == i);
            assert(plain.contains(i));
            assert(plain.to_multiset().count(i) > 0);
        }
    }
    order
}

/// `n` values drawn uniformly from `[0, SCALE)`.
fn uniform_draws(rng: &mut StdRng, n: usize) -> (r: Vec<u64>)
    ensures
        r@.len() == n,
        forall|j: int| 0 <= j < n ==> r@[j] < SCALE,
{
    let mut draws: Vec<u64> = Vec::new();
    let mut i: usize = 0;
    while i < n
        invariant
            0 <= i <= n,
            draws@.len() == i,
            forall|j: int| 0 <= j < i ==> draws@[j] < SCALE,
        decreases n - i,
    {
        let d = draw_below(rng, SCALE);
        draws.push(d);
        i += 1;
    }
    draws
}

} // verus!
