use vstd::prelude::*;
use crate::asset::{Asset, copy_vec};
use crate::outcome::{ConfigError, FailureReason};
use crate::units::SCALE;

verus! {

/// Replays a recorded price series per asset, one entry per period.
pub struct HistoricalReplay {
    /// `series[i]` holds the prices of asset `i`, oldest first.
    pub series: Vec<Vec<u64>>,
    /// Index of the entry that the next period reads.
    pub next: usize,
}

impl HistoricalReplay {
    /// Every series still has an entry for the next period.
    pub open spec fn has_next(&self) -> bool {
        self.next < usize::MAX && forall|i: int| 0 <= i < self.series@.len() ==> self.next < (
        #[trigger] self.series@[i])@.len()
    }

    pub fn new(series: Vec<Vec<u64>>) -> (r: HistoricalReplay)
        ensures
            r.series@ == series@,
            r.next == 0,
    {
        HistoricalReplay { series, next: 0 }
    }

    /// Appends the next recorded price to each asset; fails with
    /// `ExhaustedData`, changing nothing, once a series has run out.
    pub fn advance(&mut self, assets: &mut Vec<Asset>) -> (r: Result<(), FailureReason>)
        requires
            old(self).series@.len() == old(assets)@.len(),
        ensures
            final(self).series@ == old(self).series@,
            final(assets)@.len() == old(assets)@.len(),
            r is Ok <==> old(self).has_next(),
            r is Ok ==> final(self).next == old(self).next + 1,
            r is Ok ==> forall|i: int| 0 <= i < old(assets)@.len() ==> (#[trigger] final(assets)@[i]).ticker
                == old(assets)@[i].ticker && final(assets)@[i].shares_held == old(assets)@[i].shares_held
                && final(assets)@[i].price_history@ == old(assets)@[i].price_history@.push(
                old(self).series@[i]@[old(self).next as int]),
            r is Err ==> r == Err::<(), FailureReason>(FailureReason::ExhaustedData) && final(self).next
                == old(self).next && final(assets)@ == old(assets)@,
    {
        if self.next == usize::MAX {
            return Err(FailureReason::ExhaustedData);
        }
        let n = assets.len();
        let mut i: usize = 0;
        while i < n
            invariant
                0 <= i <= n,
                n == assets@.len(),
                n == self.series@.len(),
                self.next < usize::MAX,
                forall|j: int| 0 <= j < i ==> self.next < (#[trigger] self.series@[j])@.len(),
            decreases n - i,
        {
            if self.next >= self.series[i].len() {
                return Err(FailureReason::ExhaustedData);
            }
            i += 1;
        }
        let ghost before = assets@;
        i = 0;
        while i < n
            invariant
                0 <= i <= n,
                n == assets@.len(),
                n == before.len(),
                n == self.series@.len(),
                self.has_next(),
                forall|j: int| 0 <= j < n ==> (#[trigger] assets@[j]).ticker == before[j].ticker
                    && assets@[j].shares_held == before[j].shares_held,
                forall|j: int| 0 <= j < i ==> (#[trigger] assets@[j]).price_history@
                    == before[j].price_history@.push(self.series@[j]@[self.next as int]),
                forall|j: int| i <= j < n ==> (#[trigger] assets@[j]).price_history@ == before[j].price_history@,
            decreases n - i,
        {
            assert(self.next < self.series@[i as int]@.len());
            let p = self.series[i][self.next];
            assets[i].push_price(p);
            i += 1;
        }
        self.next = self.next + 1;
        Ok(())
    }
}

/// A copy of a list of price series or matrix rows.
fn copy_rows(v: &Vec<Vec<u64>>) -> (r: Vec<Vec<u64>>)
    ensures
        r@.len() == v@.len(),
        forall|i: int| 0 <= i < v@.len() ==> (#[trigger] r@[i])@ == v@[i]@,
{
    let mut out: Vec<Vec<u64>> = Vec::new();
    let mut i: usize = 0;
    while i < v.len()
        invariant
            0 <= i <= v@.len(),
            out@.len() == i,
            forall|j: int| 0 <= j < i ==> (#[trigger] out@[j])@ == v@[j]@,
        decreases v@.len() - i,
    {
        out.push(copy_vec(&v[i]));
        i += 1;
    }
    out
}

/// Sum of `row[0..k]`.
pub open spec fn row_prefix(row: Seq<u64>, k: int) -> nat
    decreases k,
{
    if k <= 0 {
        0
    } else {
        row_prefix(row, k - 1) + (row[k - 1] as nat)
    }
}

/// A transition row over `m` states whose weights sum to one, within one part
/// per million.
pub open spec fn valid_row(row: Seq<u64>, m: int) -> bool {
    row.len() == m && SCALE - 1 <= row_prefix(row, m) <= SCALE + 1
}

/// A non-empty square matrix of valid rows.
pub open spec fn valid_matrix(t: Seq<Vec<u64>>) -> bool {
    t.len() > 0 && forall|i: int| 0 <= i < t.len() ==> valid_row(#[trigger] t[i]@, t.len() as int)
}

/// The state drawn from `row` by a uniform value `draw` in `[0, SCALE)`: the
/// first state, from `j` on, whose cumulative weight exceeds the draw; the
/// last state when none does.
pub open spec fn pick_state(row: Seq<u64>, draw: nat, j: int) -> nat
    decreases row.len() - j,
{
    if j + 1 >= row.len() {
        if row.len() == 0 {
            0
        } else {
            (row.len() - 1) as nat
        }
    } else if draw < row_prefix(row, j + 1) {
        j as nat
    } else {
        pick_state(row, draw, j + 1)
    }
}

/// Price after a move by a factor of `factor / SCALE`, rounded to the nearest
/// unit (halves up). A positive price moved by a positive factor stays
/// positive: it does not round below one unit.
pub open spec fn moved_price(price: nat, factor: nat) -> nat {
    let rounded = ((price * factor + (SCALE / 2) as int) / (SCALE as int)) as nat;
    if price > 0 && factor > 0 && rounded == 0 {
        1
    } else {
        rounded
    }
}

/// A discrete Markov model of price moves: each asset sits in one of `m`
/// states; every period it moves to a state drawn from the row of its current
/// state, and its price is multiplied by that state's factor.
pub struct MarkovChain {
    /// `transition[s][t]`: chance, in parts per million, of going from `s` to `t`.
    pub transition: Vec<Vec<u64>>,
    /// Price factor of each state, in parts per million (`SCALE` is no move).
    pub factors: Vec<u64>,
    /// Current state of each asset.
    pub states: Vec<usize>,
}

impl MarkovChain {
    pub open spec fn wf(&self) -> bool {
        valid_matrix(self.transition@) && self.factors@.len() == self.transition@.len() && forall|i: int|
            0 <= i < self.states@.len() ==> #[trigger] self.states@[i] < self.transition@.len()
    }

    /// State of asset `i` after a period with draw `draw`.
    pub open spec fn next_state(&self, i: int, draw: nat) -> nat {
        pick_state(self.transition@[self.states@[i] as int]@, draw, 0)
    }

    /// Price of asset `i` after a period with draw `draw`.
    pub open spec fn next_price(&self, assets: Seq<Asset>, i: int, draw: nat) -> nat {
        moved_price(assets[i].latest_spec(), self.factors@[self.next_state(i, draw) as int] as nat)
    }

    /// The checks of `new` on the chain as it stands.
    pub fn check(&self) -> (r: Result<(), ConfigError>)
        ensures
            r is Ok <==> self.wf(),
            r is Ok <==> chain_error(self.transition@, self.factors@, self.states@) is None,
            r is Err ==> r == Err::<(), ConfigError>(chain_error(self.transition@, self.factors@, self.states@).unwrap()),
    {
        check_chain(&self.transition, &self.factors, &self.states)
    }

    /// Moves every asset one period: asset `i` goes to the state that
    /// `draws[i]` picks from the row of its current state, and its price is
    /// scaled by that state's factor. Fails with `NumericalOverflow`, changing
    /// nothing, when a new price does not fit in a `u64`.
    pub fn advance(&mut self, assets: &mut Vec<Asset>, draws: &Vec<u64>) -> (r: Result<(), FailureReason>)
        requires
            old(self).wf(),
            old(self).states@.len() == old(assets)@.len(),
            draws@.len() == old(assets)@.len(),
        ensures
            final(self).transition@ == old(self).transition@,
            final(self).factors@ == old(self).factors@,
            final(self).states@.len() == old(self).states@.len(),
            final(self).wf(),
            final(assets)@.len() == old(assets)@.len(),
            r is Ok <==> forall|i: int| 0 <= i < old(assets)@.len() ==> #[trigger] old(self).next_price(old(assets)@,
                i, draws@[i] as nat) <= u64::MAX,
            r is Ok ==> forall|i: int| 0 <= i < old(assets)@.len() ==> #[trigger] final(self).states@[i]
                == old(self).next_state(i, draws@[i] as nat),
            r is Ok ==> forall|i: int| 0 <= i < old(assets)@.len() ==> (#[trigger] final(assets)@[i]).ticker
                == old(assets)@[i].ticker && final(assets)@[i].shares_held == old(assets)@[i].shares_held
                && final(assets)@[i].price_history@ == old(assets)@[i].price_history@.push(
                old(self).next_price(old(assets)@, i, draws@[i] as nat) as u64),
            r is Ok ==> forall|i: int| 0 <= i < old(assets)@.len() && old(assets)@[i].latest_spec() > 0
                && old(self).factors@[old(self).next_state(i, draws@[i] as nat) as int] > 0 ==> (
                #[trigger] final(assets)@[i]).latest_spec() > 0,
            r is Err ==> r == Err::<(), FailureReason>(FailureReason::NumericalOverflow) && final(self).states@
                == old(self).states@ && final(assets)@ == old(assets)@,
    {
        let n = assets.len();
        let m = self.transition.len();
        let mut new_states: Vec<usize> = Vec::new();
        let mut new_prices: Vec<u64> = Vec::new();
        let mut i: usize = 0;
        while i < n
            invariant
                0 <= i <= n,
                n == assets@.len(),
                n == draws@.len(),
                n == self.states@.len(),
                m == self.transition@.len(),
                self.wf(),
                new_states@.len() == i,
                new_prices@.len() == i,
                forall|j: int| 0 <= j < i ==> #[trigger] new_states@[j] == self.next_state(j, draws@[j] as nat),
                forall|j: int| 0 <= j < i ==> new_states@[j] < m,
                forall|j: int| 0 <= j < i ==> #[trigger] new_prices@[j] == self.next_price(assets@, j, draws@[j] as nat),
            decreases n - i,
        {
            let cur = self.states[i];
            assert(valid_row(self.transition@[cur as int]@, m as int));
            let next = sample_state(&self.transition[cur], draws[i]);
            let factor = self.factors[next];
            let price = assets[i].latest_price();
            proof {
                assert(price * factor <= 0xffff_ffff_ffff_ffff * 0xffff_ffff_ffff_ffff) by (nonlinear_arith)
                    requires price <= 0xffff_ffff_ffff_ffff, factor <= 0xffff_ffff_ffff_ffff;
            }
            let rounded = ((price as u128) * (factor as u128) + (SCALE / 2) as u128) / (SCALE as u128);
            let moved = if price > 0 && factor > 0 && rounded == 0 { 1 } else { rounded };
            assert(moved == self.next_price(assets@, i as int, draws@[i as int] as nat));
            if moved > u64::MAX as u128 {
                return Err(FailureReason::NumericalOverflow);
            }
            new_states.push(next);
            new_prices.push(moved as u64);
            i += 1;
        }
        assert forall|j: int| 0 <= j < n implies #[trigger] self.next_price(assets@, j, draws@[j] as nat)
            <= u64::MAX by {
            assert(new_prices@[j] == self.next_price(assets@, j, draws@[j] as nat));
        }
        let ghost before = assets@;
        i = 0;
        while i < n
            invariant
                0 <= i <= n,
                n == assets@.len(),
                n == before.len(),
                new_prices@.len() == n,
                forall|j: int| 0 <= j < n ==> (#[trigger] assets@[j]).ticker == before[j].ticker
                    && assets@[j].shares_held == before[j].shares_held,
                forall|j: int| 0 <= j < i ==> (#[trigger] assets@[j]).price_history@
                    == before[j].price_history@.push(new_prices@[j]),
                forall|j: int| i <= j < n ==> (#[trigger] assets@[j]).price_history@ == before[j].price_history@,
            decreases n - i,
        {
            assets[i].push_price(new_prices[i]);
            i += 1;
        }
        self.states = new_states;
        Ok(())
    }

    /// Checks the matrix, then the factors, then the starting states; a row
    /// that does not sum to one is refused here, before any sampling.
    pub fn new(transition: Vec<Vec<u64>>, factors: Vec<u64>, states: Vec<usize>) -> (r: Result<MarkovChain, ConfigError>)
        ensures
            !valid_matrix(transition@) ==> r == Err::<MarkovChain, ConfigError>(ConfigError::InvalidTransitionMatrix),
            valid_matrix(transition@) && factors@.len() != transition@.len() ==> r == Err::<MarkovChain, ConfigError>(
                ConfigError::InvalidPriceFactors),
            valid_matrix(transition@) && factors@.len() == transition@.len() && !(forall|i: int|
                0 <= i < states@.len() ==> #[trigger] states@[i] < transition@.len()) ==> r == Err::<
                MarkovChain, ConfigError>(ConfigError::InvalidStartingState),
            r is Ok ==> r.unwrap().wf() && r.unwrap().transition@ == transition@ && r.unwrap().factors@ == factors@
                && r.unwrap().states@ == states@,
            r is Ok <==> (valid_matrix(transition@) && factors@.len() == transition@.len() && forall|i: int|
                0 <= i < states@.len() ==> #[trigger] states@[i] < transition@.len()),
    {
        match check_chain(&transition, &factors, &states) {
            Err(e) => Err(e),
            Ok(()) => Ok(MarkovChain { transition, factors, states }),
        }
    }
}

/// The first check of `MarkovChain::new` that its arguments fail, if any.
pub open spec fn chain_error(transition: Seq<Vec<u64>>, factors: Seq<u64>, states: Seq<usize>) -> Option<ConfigError> {
    if !valid_matrix(transition) {
        Some(ConfigError::InvalidTransitionMatrix)
    } else if factors.len() != transition.len() {
        Some(ConfigError::InvalidPriceFactors)
    } else if !(forall|i: int| 0 <= i < states.len() ==> #[trigger] states[i] < transition.len()) {
        Some(ConfigError::InvalidStartingState)
    } else {
        None
    }
}

/// The checks of `MarkovChain::new`, in its order.
fn check_chain(transition: &Vec<Vec<u64>>, factors: &Vec<u64>, states: &Vec<usize>) -> (r: Result<(), ConfigError>)
    ensures
        !valid_matrix(transition@) ==> r == Err::<(), ConfigError>(ConfigError::InvalidTransitionMatrix),
        valid_matrix(transition@) && factors@.len() != transition@.len() ==> r == Err::<(), ConfigError>(
            ConfigError::InvalidPriceFactors),
        valid_matrix(transition@) && factors@.len() == transition@.len() && !(forall|i: int|
            0 <= i < states@.len() ==> #[trigger] states@[i] < transition@.len()) ==> r == Err::<(), ConfigError>(
            ConfigError::InvalidStartingState),
        r is Ok <==> (valid_matrix(transition@) && factors@.len() == transition@.len() && forall|i: int|
            0 <= i < states@.len() ==> #[trigger] states@[i] < transition@.len()),
        r is Ok <==> chain_error(transition@, factors@, states@) is None,
        r is Err ==> r == Err::<(), ConfigError>(chain_error(transition@, factors@, states@).unwrap()),
{
    let m = transition.len();
    if m == 0 {
        return Err(ConfigError::InvalidTransitionMatrix);
    }
    let mut s: usize = 0;
    while s < m
        invariant
            0 <= s <= m,
            m == transition@.len(),
            forall|i: int| 0 <= i < s ==> valid_row(#[trigger] transition@[i]@, m as int),
        decreases m - s,
    {
        if !row_is_valid(&transition[s], m) {
            return Err(ConfigError::InvalidTransitionMatrix);
        }
        s += 1;
    }
    assert(valid_matrix(transition@));
    if factors.len() != m {
        return Err(ConfigError::InvalidPriceFactors);
    }
    let mut i: usize = 0;
    while i < states.len()
        invariant
            0 <= i <= states@.len(),
            m == transition@.len(),
            valid_matrix(transition@),
            factors@.len() == m,
            forall|j: int| 0 <= j < i ==> #[trigger] states@[j] < m,
        decreases states@.len() - i,
    {
        if states[i] >= m {
            return Err(ConfigError::InvalidStartingState);
        }
        i += 1;
    }
    Ok(())
}

/// A drawn state is a state of the row.
pub proof fn lemma_pick_state_bound(row: Seq<u64>, draw: nat, j: int)
    requires
        row.len() >= 1,
        0 <= j,
    ensures
        pick_state(row, draw, j) < row.len(),
    decreases row.len() - j,
{
    if j + 1 < row.len() && draw >= row_prefix(row, j + 1) {
        lemma_pick_state_bound(row, draw, j + 1);
    }
}

proof fn lemma_row_prefix_monotone(row: Seq<u64>, j: int, k: int)
    requires
        0 <= j <= k,
    ensures
        row_prefix(row, j) <= row_prefix(row, k),
    decreases k - j,
{
    if j < k {
        lemma_row_prefix_monotone(row, j, k - 1);
    }
}

/// Whether `row` is a valid transition row over `m` states.
fn row_is_valid(row: &Vec<u64>, m: usize) -> (r: bool)
    ensures
        r == valid_row(row@, m as int),
{
    if row.len() != m {
        return false;
    }
    let mut sum: u64 = 0;
    let mut j: usize = 0;
    while j < m
        invariant
            0 <= j <= m,
            m == row@.len(),
            sum == row_prefix(row@, j as int),
            sum <= SCALE + 1,
        decreases m - j,
    {
        if row[j] > SCALE + 1 - sum {
            proof {
                lemma_row_prefix_monotone(row@, j + 1, m as int);
            }
            return false;
        }
        sum = sum + row[j];
        j += 1;
    }
    SCALE - 1 <= sum
}

/// Draws the next state from `row` with a uniform value `draw`.
fn sample_state(row: &Vec<u64>, draw: u64) -> (r: usize)
    requires
        row@.len() >= 1,
        row_prefix(row@, row@.len() as int) <= SCALE + 1,
    ensures
        r == pick_state(row@, draw as nat, 0),
        r < row@.len(),
{
    let mut acc: u64 = 0;
    let mut j: usize = 0;
    while j < row.len() - 1
        invariant
            j + 1 <= row@.len(),
            acc == row_prefix(row@, j as int),
            row_prefix(row@, row@.len() as int) <= SCALE + 1,
            pick_state(row@, draw as nat, 0) == pick_state(row@, draw as nat, j as int),
        decreases row@.len() - j,
    {
        proof {
            lemma_row_prefix_monotone(row@, j + 1, row@.len() as int);
        }
        acc = acc + row[j];
        if draw < acc {
            return j;
        }
        j += 1;
    }
    j
}

} // verus!

verus! {

/// The price model of a run.
pub enum PriceModel {
    Historical(HistoricalReplay),
    Markov(MarkovChain),
}

/// Matrix rows, or series, with equal contents.
pub open spec fn same_rows(a: Seq<Vec<u64>>, b: Seq<Vec<u64>>) -> bool {
    a.len() == b.len() && forall|i: int| 0 <= i < a.len() ==> (#[trigger] a[i])@ == b[i]@
}

impl PriceModel {
    /// The first problem `SimulationRun::new` finds with the model for `n`
    /// assets, if any.
    pub open spec fn model_error(&self, n: nat) -> Option<ConfigError> {
        match self {
            PriceModel::Historical(h) => if h.series@.len() != n {
                Some(ConfigError::AssetCountMismatch)
            } else {
                None
            },
            PriceModel::Markov(c) => if c.states@.len() != n {
                Some(ConfigError::AssetCountMismatch)
            } else {
                chain_error(c.transition@, c.factors@, c.states@)
            },
        }
    }

    /// The next period's prices can be produced: the replay has an entry left
    /// for every asset, or every Markov move fits in a `u64`.
    pub open spec fn can_advance(&self, assets: Seq<Asset>, draws: Seq<u64>) -> bool {
        match self {
            PriceModel::Historical(h) => h.has_next(),
            PriceModel::Markov(c) => forall|i: int| 0 <= i < assets.len() ==> #[trigger] c.next_price(assets, i,
                draws[i] as nat) <= u64::MAX,
        }
    }

    /// Price of asset `i` in the next period: the next replayed entry, or the
    /// Markov move that `draw` picks.
    pub open spec fn period_price(&self, assets: Seq<Asset>, i: int, draw: nat) -> nat {
        match self {
            PriceModel::Historical(h) => h.series@[i]@[h.next as int] as nat,
            PriceModel::Markov(c) => c.next_price(assets, i, draw),
        }
    }

    /// The same configuration in fresh storage, for another run.
    pub open spec fn same_config(&self, other: &PriceModel) -> bool {
        match (self, other) {
            (PriceModel::Historical(a), PriceModel::Historical(b)) => same_rows(a.series@, b.series@) && a.next == b.next,
            (PriceModel::Markov(a), PriceModel::Markov(b)) => same_rows(a.transition@, b.transition@) && a.factors@
                == b.factors@ && a.states@ == b.states@,
            _ => false,
        }
    }

    pub fn duplicate(&self) -> (r: PriceModel)
        ensures
            r.same_config(self),
    {
        match self {
            PriceModel::Historical(h) => PriceModel::Historical(HistoricalReplay { series: copy_rows(&h.series), next: h.next }),
            PriceModel::Markov(c) => PriceModel::Markov(MarkovChain {
                transition: copy_rows(&c.transition),
                factors: copy_vec(&c.factors),
                states: copy_vec(&c.states),
            }),
        }
    }

    /// The model fits a portfolio of `n` assets.
    pub open spec fn wf(&self, n: nat) -> bool {
        match self {
            PriceModel::Historical(h) => h.series@.len() == n,
            PriceModel::Markov(c) => c.wf() && c.states@.len() == n,
        }
    }

    /// Appends one price per asset; `draws` feeds the Markov model and is
    /// ignored by the replay.
    pub fn advance(&mut self, assets: &mut Vec<Asset>, draws: &Vec<u64>) -> (r: Result<(), FailureReason>)
        requires
            old(self).wf(old(assets)@.len()),
            draws@.len() == old(assets)@.len(),
        ensures
            final(self).wf(old(assets)@.len()),
            final(assets)@.len() == old(assets)@.len(),
            r is Ok ==> forall|i: int| 0 <= i < old(assets)@.len() ==> (#[trigger] final(assets)@[i]).ticker
                == old(assets)@[i].ticker && final(assets)@[i].shares_held == old(assets)@[i].shares_held
                && final(assets)@[i].price_history@.drop_last() == old(assets)@[i].price_history@
                && final(assets)@[i].price_history@.len() == old(assets)@[i].price_history@.len() + 1,
            r is Err ==> final(assets)@ == old(assets)@,
            match (*old(self), *final(self)) {
                (PriceModel::Historical(h0), PriceModel::Historical(h1)) => h1.series@ == h0.series@ && (r is Ok
                    <==> h0.has_next()) && (r is Ok ==> h1.next == h0.next + 1) && (r is Err ==> r == Err::<
                    (), FailureReason>(FailureReason::ExhaustedData) && h1.next == h0.next),
                (PriceModel::Markov(c0), PriceModel::Markov(c1)) => c1.transition@ == c0.transition@
                    && c1.factors@ == c0.factors@ && (r is Err ==> r == Err::<(), FailureReason>(
                    FailureReason::NumericalOverflow)) && (r is Ok ==> forall|i: int| 0 <= i < old(assets)@.len()
                    ==> #[trigger] c1.states@[i] == c0.next_state(i, draws@[i] as nat)),
                _ => false,
            },
            r is Ok <==> old(self).can_advance(old(assets)@, draws@),
            r is Ok ==> forall|i: int| 0 <= i < old(assets)@.len() ==> (#[trigger] final(assets)@[i]).latest_spec()
                == old(self).period_price(old(assets)@, i, draws@[i] as nat),
    {
        match self {
            PriceModel::Historical(h) => h.advance(assets),
            PriceModel::Markov(c) => c.advance(assets, draws),
        }
    }
}

} // verus!
