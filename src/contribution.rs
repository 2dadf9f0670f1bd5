use vstd::prelude::*;
use crate::asset::{Asset, copy_vec};
use crate::outcome::{ConfigError, FailureReason};
use crate::units::SCALE;

verus! {

/// Cash to spend on one asset: `available * weight / SCALE`, rounded down.
pub open spec fn desired_spend(available: nat, weight: nat) -> nat {
    (available * weight / (SCALE as nat)) as nat
}

/// Whole shares bought for one asset in a period. Nothing is bought for an
/// asset without a weight, or whose latest price is zero.
pub open spec fn shares_to_buy(available: nat, weight: Option<u64>, price: nat) -> nat {
    match weight {
        Some(w) => if price == 0 {
            0
        } else {
            desired_spend(available, w as nat) / price
        },
        None => 0,
    }
}

pub open spec fn weight_value(weight: Option<u64>) -> nat {
    match weight {
        Some(w) => w as nat,
        None => 0,
    }
}

/// Sum of the weights `weights[0..k]`.
pub open spec fn weight_prefix(weights: Seq<Option<u64>>, k: int) -> nat
    decreases k,
{
    if k <= 0 {
        0
    } else {
        weight_prefix(weights, k - 1) + weight_value(weights[k - 1])
    }
}

pub open spec fn weight_total(weights: Seq<Option<u64>>) -> nat {
    weight_prefix(weights, weights.len() as int)
}

/// Cash spent on asset `i` in a period with `available` cash.
pub open spec fn cost_of(available: nat, weights: Seq<Option<u64>>, assets: Seq<Asset>, i: int) -> nat {
    shares_to_buy(available, weights[i], assets[i].latest_spec()) * assets[i].latest_spec()
}

/// Cash spent on `assets[0..k]` in a period with `available` cash.
pub open spec fn spent_prefix(available: nat, weights: Seq<Option<u64>>, assets: Seq<Asset>, k: int) -> nat
    decreases k,
{
    if k <= 0 {
        0
    } else {
        spent_prefix(available, weights, assets, k - 1) + cost_of(available, weights, assets, k - 1)
    }
}

/// Cash spent on the whole portfolio in a period with `available` cash.
pub open spec fn total_spent(available: nat, weights: Seq<Option<u64>>, assets: Seq<Asset>) -> nat {
    spent_prefix(available, weights, assets, assets.len() as int)
}

proof fn lemma_cost_within_share(available: nat, weight: Option<u64>, price: nat)
    ensures
        shares_to_buy(available, weight, price) * price * SCALE <= available * weight_value(weight),
{
    match weight {
        Some(w) => {
            if price != 0 {
                let d = desired_spend(available, w as nat);
                let s = d / price;
                assert(s * price <= d) by (nonlinear_arith)
                    requires price > 0, s == d / price;
                assert(d * SCALE <= available * w) by (nonlinear_arith)
                    requires d == desired_spend(available, w as nat);
                assert(s * price * SCALE <= available * w) by (nonlinear_arith)
                    requires s * price <= d, d * SCALE <= available * w;
            } else {
                assert(0 * price * SCALE == 0) by (nonlinear_arith);
                assert(available * w >= 0) by (nonlinear_arith);
            }
        },
        None => {
            assert(0 * price * SCALE == 0) by (nonlinear_arith);
            assert(available * 0 == 0) by (nonlinear_arith);
        },
    }
}

proof fn lemma_spent_prefix_bound(available: nat, weights: Seq<Option<u64>>, assets: Seq<Asset>, k: int)
    requires
        0 <= k <= assets.len(),
        weights.len() == assets.len(),
    ensures
        spent_prefix(available, weights, assets, k) * SCALE <= available * weight_prefix(weights, k),
    decreases k,
{
    if k > 0 {
        lemma_spent_prefix_bound(available, weights, assets, k - 1);
        lemma_cost_within_share(available, weights[k - 1], assets[k - 1].latest_spec());
        let a = spent_prefix(available, weights, assets, k - 1);
        let c = cost_of(available, weights, assets, k - 1);
        let wa = weight_prefix(weights, k - 1);
        let wc = weight_value(weights[k - 1]);
        assert((a + c) * SCALE <= available * (wa + wc)) by (nonlinear_arith)
            requires a * SCALE <= available * wa, c * SCALE <= available * wc;
    }
}

/// Conservation of cash: when the weights sum to at most one, a period spends
/// no more than the cash available.
pub proof fn lemma_spent_within_available(available: nat, weights: Seq<Option<u64>>, assets: Seq<Asset>)
    requires
        weights.len() == assets.len(),
        weight_total(weights) <= SCALE,
    ensures
        total_spent(available, weights, assets) <= available,
{
    lemma_spent_prefix_bound(available, weights, assets, assets.len() as int);
    let s = total_spent(available, weights, assets);
    let w = weight_total(weights);
    assert(s <= available) by (nonlinear_arith)
        requires s * SCALE <= available * w, w <= SCALE;
}

/// The weight that `allocation` gives `ticker`: its first entry for it, if any.
pub open spec fn weight_for(allocation: Seq<(String, u64)>, ticker: Seq<char>) -> Option<u64>
    decreases allocation.len(),
{
    if allocation.len() == 0 {
        None
    } else if allocation[0].0@ == ticker {
        Some(allocation[0].1)
    } else {
        weight_for(allocation.drop_first(), ticker)
    }
}

/// Looks up each asset's weight by ticker; assets that `allocation` does not
/// name get none.
pub fn allocation_weights(assets: &Vec<Asset>, allocation: &Vec<(String, u64)>) -> (r: Vec<Option<u64>>)
    ensures
        r@.len() == assets@.len(),
        forall|i: int| 0 <= i < assets@.len() ==> #[trigger] r@[i] == weight_for(allocation@, assets@[i].ticker@),
{
    let mut out: Vec<Option<u64>> = Vec::new();
    let mut i: usize = 0;
    while i < assets.len()
        invariant
            0 <= i <= assets@.len(),
            out@.len() == i,
            forall|k: int| 0 <= k < i ==> #[trigger] out@[k] == weight_for(allocation@, assets@[k].ticker@),
        decreases assets@.len() - i,
    {
        let mut found: Option<u64> = None;
        let mut j: usize = 0;
        assert(allocation@.subrange(0, allocation@.len() as int) =~= allocation@);
        while j < allocation.len()
            invariant_except_break
                found is None,
            invariant
                0 <= j <= allocation@.len(),
                i < assets@.len(),
                weight_for(allocation@, assets@[i as int].ticker@) == weight_for(allocation@.subrange(j as int,
                    allocation@.len() as int), assets@[i as int].ticker@),
            ensures
                found == weight_for(allocation@, assets@[i as int].ticker@),
            decreases allocation@.len() - j,
        {
            assert(allocation@.subrange(j as int, allocation@.len() as int).drop_first() =~= allocation@.subrange(
                j + 1, allocation@.len() as int));
            if allocation[j].0 == assets[i].ticker {
                found = Some(allocation[j].1);
                break;
            }
            j += 1;
            if j == allocation.len() {
                assert(allocation@.subrange(j as int, allocation@.len() as int).len() == 0);
            }
        }
        out.push(found);
        i += 1;
    }
    out
}

/// Invests a fixed amount each period, plus what was left over, split among
/// the assets by target weight.
pub struct MonthlyContribution {
    pub monthly_amount: u64,
    /// Cash not invested so far, carried into the next period.
    pub leftover: u64,
    /// Target weight of each asset, by position; `None` leaves it uninvested.
    pub weights: Vec<Option<u64>>,
}

impl MonthlyContribution {
    pub open spec fn wf(&self) -> bool {
        weight_total(self.weights@) <= SCALE
    }

    /// Cash at hand at the start of a period.
    pub open spec fn available_spec(&self) -> nat {
        (self.monthly_amount + self.leftover) as nat
    }

    /// Rejects weights that sum to more than one.
    pub fn new(monthly_amount: u64, weights: Vec<Option<u64>>) -> (r: Result<MonthlyContribution, ConfigError>)
        ensures
            r is Err <==> weight_total(weights@) > SCALE,
            r is Err ==> r == Err::<MonthlyContribution, ConfigError>(ConfigError::InvalidAllocation),
            r is Ok ==> r.unwrap().monthly_amount == monthly_amount && r.unwrap().leftover == 0
                && r.unwrap().weights@ == weights@ && r.unwrap().wf(),
    {
        if !weights_fit(&weights) {
            return Err(ConfigError::InvalidAllocation);
        }
        Ok(MonthlyContribution { monthly_amount, leftover: 0, weights })
    }

    /// A copy of the factor's configuration with nothing left over.
    pub fn fresh_copy(&self) -> (r: MonthlyContribution)
        ensures
            r.monthly_amount == self.monthly_amount,
            r.leftover == 0,
            r.weights@ == self.weights@,
    {
        let weights = copy_vec(&self.weights);
        MonthlyContribution { monthly_amount: self.monthly_amount, leftover: 0, weights }
    }

    /// The problem `SimulationRun::new` finds with the factor for `n` assets,
    /// if any.
    pub open spec fn factor_error(&self, n: nat) -> Option<ConfigError> {
        if self.weights@.len() != n {
            Some(ConfigError::AssetCountMismatch)
        } else if !self.wf() {
            Some(ConfigError::InvalidAllocation)
        } else {
            None
        }
    }

    pub fn is_well_formed(&self) -> (r: bool)
        ensures
            r == self.wf(),
    {
        weights_fit(&self.weights)
    }

    /// Every purchase of a period with `available` cash keeps the share count
    /// within `i64`.
    pub open spec fn purchases_fit(&self, available: nat, assets: Seq<Asset>) -> bool {
        forall|i: int| 0 <= i < assets.len() ==> assets[i].shares_held + #[trigger] shares_to_buy(available,
            self.weights@[i], assets[i].latest_spec()) <= i64::MAX
    }

    /// The period can be carried out without leaving the integer types.
    pub open spec fn contribution_fits(&self, assets: Seq<Asset>) -> bool {
        self.available_spec() <= u64::MAX && self.purchases_fit(self.available_spec(), assets)
    }

    /// Invests one period's cash. Each asset with a weight and a non-zero
    /// price gets `floor(available * weight / price)` more shares, where
    /// `available` is the monthly amount plus the leftover; what is not spent
    /// becomes the new leftover. Assets are visited in the order `order` gives,
    /// which changes nothing in the result. On overflow nothing changes.
    pub fn apply(&mut self, assets: &mut Vec<Asset>, order: &Vec<usize>) -> (r: Result<(), FailureReason>)
        requires
            old(self).wf(),
            old(self).weights@.len() == old(assets)@.len(),
            forall|k: int| 0 <= k < order@.len() ==> order@[k] < old(assets)@.len(),
            forall|i: usize| i < old(assets)@.len() ==> #[trigger] order@.contains(i),
        ensures
            final(self).monthly_amount == old(self).monthly_amount,
            final(self).weights@ == old(self).weights@,
            final(self).wf(),
            final(assets)@.len() == old(assets)@.len(),
            forall|i: int| 0 <= i < old(assets)@.len() ==> (#[trigger] final(assets)@[i]).ticker == old(assets)@[i].ticker
                && final(assets)@[i].price_history@ == old(assets)@[i].price_history@,
            r is Ok <==> old(self).contribution_fits(old(assets)@),
            r is Ok ==> final(self).leftover == old(self).available_spec() - total_spent(old(self).available_spec(),
                old(self).weights@, old(assets)@),
            r is Ok ==> forall|i: int| 0 <= i < old(assets)@.len() ==> (#[trigger] final(assets)@[i]).shares_held
                == old(assets)@[i].shares_held + shares_to_buy(old(self).available_spec(), old(self).weights@[i],
                old(assets)@[i].latest_spec()),
            r is Err ==> r == Err::<(), FailureReason>(FailureReason::NumericalOverflow) && final(self).leftover
                == old(self).leftover && final(assets)@ == old(assets)@,
    {
        let available = match self.monthly_amount.checked_add(self.leftover) {
            Some(a) => a,
            None => {
                return Err(FailureReason::NumericalOverflow);
            },
        };
        let plan = self.plan_purchases(available, assets, order);
        let n = assets.len();
        let mut i: usize = 0;
        while i < n
            invariant
                0 <= i <= n,
                n == assets@.len(),
                self.wf(),
                self.weights@.len() == n,
                available == self.available_spec(),
                plan@.len() == n,
                forall|j: int| 0 <= j < n ==> plan@[j] == shares_to_buy(available as nat,
                    self.weights@[j], assets@[j].latest_spec()),
                forall|j: int| 0 <= j < i ==> assets@[j].shares_held + #[trigger] shares_to_buy(available as nat,
                    self.weights@[j], assets@[j].latest_spec()) <= i64::MAX,
            decreases n - i,
        {
            if assets[i].shares_held.checked_add_unsigned(plan[i]).is_none() {
                return Err(FailureReason::NumericalOverflow);
            }
            i += 1;
        }
        let ghost before = assets@;
        let ghost weights = self.weights@;
        proof {
            lemma_spent_within_available(available as nat, weights, before);
        }
        let mut spent: u64 = 0;
        i = 0;
        while i < n
            invariant
                0 <= i <= n,
                n == assets@.len(),
                n == before.len(),
                weights.len() == n,
                weight_total(weights) <= SCALE,
                plan@.len() == n,
                forall|j: int| 0 <= j < n ==> plan@[j] == shares_to_buy(available as nat,
                    weights[j], before[j].latest_spec()),
                forall|j: int| 0 <= j < n ==> before[j].shares_held + #[trigger] shares_to_buy(available as nat,
                    weights[j], before[j].latest_spec()) <= i64::MAX,
                total_spent(available as nat, weights, before) <= available,
                spent == spent_prefix(available as nat, weights, before, i as int),
                forall|j: int| 0 <= j < n ==> (#[trigger] assets@[j]).ticker == before[j].ticker
                    && assets@[j].price_history@ == before[j].price_history@,
                forall|j: int| 0 <= j < i ==> (#[trigger] assets@[j]).shares_held == before[j].shares_held
                    + shares_to_buy(available as nat, weights[j], before[j].latest_spec()),
                forall|j: int| i <= j < n ==> (#[trigger] assets@[j]).shares_held == before[j].shares_held,
            decreases n - i,
        {
            let price = assets[i].latest_price();
            proof {
                lemma_spent_prefix_monotone(available as nat, weights, before, i + 1, n as int);
                assert(price == before[i as int].latest_spec());
            }
            let cost = plan[i] * price;
            spent = spent + cost;
            let held = ((assets[i].shares_held as i128) + (plan[i] as i128)) as i64;
            assets[i].shares_held = held;
            assert(assets@[i as int].shares_held == before[i as int].shares_held + shares_to_buy(available as nat,
                weights[i as int], before[i as int].latest_spec()));
            i += 1;
        }
        self.leftover = available - spent;
        Ok(())
    }

    /// Shares to buy for each asset this period, worked out in the order
    /// `order` gives; the result does not depend on that order.
    fn plan_purchases(&self, available: u64, assets: &Vec<Asset>, order: &Vec<usize>) -> (r: Vec<u64>)
        requires
            self.wf(),
            self.weights@.len() == assets@.len(),
            forall|k: int| 0 <= k < order@.len() ==> order@[k] < assets@.len(),
            forall|i: usize| i < assets@.len() ==> #[trigger] order@.contains(i),
        ensures
            r@.len() == assets@.len(),
            forall|i: int| 0 <= i < assets@.len() ==> r@[i] == shares_to_buy(available as nat,
                self.weights@[i], assets@[i].latest_spec()),
    {
        let n = assets.len();
        let mut plan: Vec<u64> = Vec::new();
        let mut i: usize = 0;
        while i < n
            invariant
                0 <= i <= n,
                n == assets@.len(),
                plan@.len() == i,
                forall|j: int| 0 <= j < i ==> plan@[j] == 0,
            decreases n - i,
        {
            plan.push(0);
            i += 1;
        }
        let mut k: usize = 0;
        while k < order.len()
            invariant
                0 <= k <= order@.len(),
                n == assets@.len(),
                self.wf(),
                self.weights@.len() == n,
                plan@.len() == n,
                forall|j: int| 0 <= j < order@.len() ==> order@[j] < n,
                forall|j: int| 0 <= j < n ==> plan@[j] == 0 || plan@[j] == shares_to_buy(available as nat,
                    self.weights@[j], assets@[j].latest_spec()),
                forall|j: int| 0 <= j < k ==> plan@[order@[j] as int] == #[trigger] shares_to_buy(available as nat,
                    self.weights@[order@[j] as int], assets@[order@[j] as int].latest_spec()),
            decreases order@.len() - k,
        {
            let a = order[k];
            proof {
                lemma_weight_at_most_total(self.weights@, a as int);
            }
            let price = assets[a].latest_price();
            let buy: u64 = match self.weights[a] {
                Some(w) => {
                    if price == 0 {
                        0
                    } else {
                        let desired = buy_budget(available, w);
                        desired / price
                    }
                },
                None => 0,
            };
            assert(buy == shares_to_buy(available as nat, self.weights@[a as int], assets@[a as int].latest_spec()));
            plan.set(a, buy);
            k += 1;
        }
        proof {
            assert forall|i: int| 0 <= i < n implies plan@[i] == shares_to_buy(available as nat,
                self.weights@[i], assets@[i].latest_spec()) by {
                assert(order@.contains(i as usize));
                let j = choose|j: int| 0 <= j < order@.len() && order@[j] == i as usize;
                assert(plan@[order@[j] as int] == shares_to_buy(available as nat,
                    self.weights@[order@[j] as int], assets@[order@[j] as int].latest_spec()));
            }
        }
        plan
    }
}

/// Whether the weights sum to at most one.
fn weights_fit(weights: &Vec<Option<u64>>) -> (r: bool)
    ensures
        r == (weight_total(weights@) <= SCALE),
{
    let mut total: u64 = 0;
    let mut i: usize = 0;
    while i < weights.len()
        invariant
            0 <= i <= weights@.len(),
            total == weight_prefix(weights@, i as int),
            total <= SCALE,
        decreases weights@.len() - i,
    {
        let w = match weights[i] {
            Some(w) => w,
            None => 0,
        };
        if w > SCALE - total {
            proof {
                lemma_weight_prefix_monotone(weights@, i + 1, weights@.len() as int);
            }
            return false;
        }
        total = total + w;
        i += 1;
    }
    true
}

/// `available * weight / SCALE`, rounded down; it fits since the weight is at
/// most one when it matters, and is capped at `available` otherwise.
fn buy_budget(available: u64, weight: u64) -> (r: u64)
    ensures
        weight <= SCALE ==> r == desired_spend(available as nat, weight as nat),
{
    let w = if weight > SCALE { SCALE } else { weight };
    proof {
        assert(available * w <= available * SCALE) by (nonlinear_arith)
            requires w <= SCALE;
    }
    let p = (available as u128) * (w as u128);
    proof {
        assert(p <= available * SCALE) by (nonlinear_arith)
            requires p == available * w, w <= SCALE;
        assert(p / (SCALE as u128) <= available) by (nonlinear_arith)
            requires p <= available * SCALE;
    }
    (p / (SCALE as u128)) as u64
}

proof fn lemma_spent_prefix_monotone(available: nat, weights: Seq<Option<u64>>, assets: Seq<Asset>, j: int, k: int)
    requires
        0 <= j <= k,
    ensures
        spent_prefix(available, weights, assets, j) <= spent_prefix(available, weights, assets, k),
    decreases k - j,
{
    if j < k {
        lemma_spent_prefix_monotone(available, weights, assets, j, k - 1);
    }
}

proof fn lemma_weight_at_most_total(weights: Seq<Option<u64>>, i: int)
    requires
        0 <= i < weights.len(),
    ensures
        weight_value(weights[i]) <= weight_total(weights),
{
    lemma_weight_prefix_monotone(weights, i + 1, weights.len() as int);
}

proof fn lemma_weight_prefix_monotone(weights: Seq<Option<u64>>, j: int, k: int)
    requires
        0 <= j <= k <= weights.len(),
    ensures
        weight_prefix(weights, j) <= weight_prefix(weights, k),
    decreases k - j,
{
    if j < k {
        lemma_weight_prefix_monotone(weights, j, k - 1);
    }
}

} // verus!
