use vstd::prelude::*;
use crate::asset::{Asset, total_value, portfolio_value, value_fits};
use crate::outcome::{ConfigError, FailureReason, RunState};
use crate::units::SCALE;

verus! {

/// The "FIRE" criterion: done once the portfolio can pay the annual expenses at
/// the safe withdrawal rate.
#[derive(Clone, Copy, Debug, PartialEq, Eq, Structural)]
pub struct SafeWithdrawalRate {
    /// Fraction of the portfolio spendable per year, in parts per million.
    pub withdrawal_rate: u64,
    /// Expenses to cover, raised by inflation each period.
    pub annual_expenses: u64,
}

/// The withdrawal covers the expenses: `value * rate / SCALE >= expenses`.
pub open spec fn withdrawal_covers(value: int, rate: int, expenses: int) -> bool {
    value * rate >= expenses * SCALE
}

/// Expenses after one period of inflation at `rate` parts per million.
pub open spec fn inflated(expenses: int, rate: int) -> int {
    expenses * (SCALE + rate) / (SCALE as int)
}

impl SafeWithdrawalRate {
    pub open spec fn wf(&self) -> bool {
        self.withdrawal_rate <= SCALE
    }

    /// Outcome of `evaluate` on a portfolio.
    pub open spec fn evaluate_spec(&self, assets: Seq<Asset>) -> RunState {
        if !value_fits(assets) {
            RunState::Failed(FailureReason::NumericalOverflow)
        } else if withdrawal_covers(portfolio_value(assets), self.withdrawal_rate as int, self.annual_expenses as int) {
            RunState::Complete
        } else {
            RunState::Running
        }
    }

    /// Rejects a withdrawal rate above one.
    pub fn new(withdrawal_rate: u64, annual_expenses: u64) -> (r: Result<SafeWithdrawalRate, ConfigError>)
        ensures
            r is Err <==> withdrawal_rate > SCALE,
            r is Err ==> r == Err::<SafeWithdrawalRate, ConfigError>(ConfigError::InvalidWithdrawalRate),
            r is Ok ==> r.unwrap().withdrawal_rate == withdrawal_rate && r.unwrap().annual_expenses
                == annual_expenses && r.unwrap().wf(),
    {
        if withdrawal_rate > SCALE {
            Err(ConfigError::InvalidWithdrawalRate)
        } else {
            Ok(SafeWithdrawalRate { withdrawal_rate, annual_expenses })
        }
    }

    /// `Complete` when the total value times the withdrawal rate reaches the
    /// expenses (equality counts), else `Running`; `Failed` when the total value
    /// cannot be represented.
    pub fn evaluate(&self, assets: &Vec<Asset>) -> (r: RunState)
        requires
            self.wf(),
        ensures
            r == self.evaluate_spec(assets@),
    {
        match total_value(assets) {
            None => RunState::Failed(FailureReason::NumericalOverflow),
            Some(total) => {
                let rate = self.withdrawal_rate as i128;
                let need = (self.annual_expenses as i128) * (SCALE as i128);
                // total * rate >= need, without forming the product when it is out of range
                let covered = if total <= 0 {
                    proof {
                        assert(total * rate <= 0) by (nonlinear_arith)
                            requires total <= 0, rate >= 0;
                    }
                    need == 0 && (total == 0 || rate == 0)
                } else if rate == 0 {
                    need == 0
                } else {
                    let q = need / rate;
                    proof {
                        assert(total * rate >= need <==> total > q || (total == q && need % rate == 0)) by (nonlinear_arith)
                            requires rate > 0, total > 0, need >= 0, q == need / rate;
                    }
                    total > q || (total == q && need % rate == 0)
                };
                proof {
                    if total <= 0 {
                        assert(total * rate >= need <==> (need == 0 && (total == 0 || rate == 0))) by (nonlinear_arith)
                            requires total <= 0, rate >= 0, need >= 0, total * rate <= 0;
                    }
                }
                if covered {
                    RunState::Complete
                } else {
                    RunState::Running
                }
            },
        }
    }

    /// Raises the expenses by one period of inflation (`rate` parts per
    /// million, rounded down); fails, leaving them unchanged, when the result
    /// does not fit.
    pub fn adjust_for_inflation(&mut self, rate: u64) -> (r: Result<(), FailureReason>)
        ensures
            final(self).withdrawal_rate == old(self).withdrawal_rate,
            r is Ok <==> inflated(old(self).annual_expenses as int, rate as int) <= u64::MAX,
            r is Ok ==> final(self).annual_expenses == inflated(old(self).annual_expenses as int, rate as int),
            r is Err ==> r == Err::<(), FailureReason>(FailureReason::NumericalOverflow)
                && final(self).annual_expenses == old(self).annual_expenses,
    {
        let e = self.annual_expenses as u128;
        let f = (SCALE as u128) + (rate as u128);
        match e.checked_mul(f) {
            None => {
                proof {
                    assert(e * f / (SCALE as int) > u64::MAX) by (nonlinear_arith)
                        requires e * f > u128::MAX;
                }
                Err(FailureReason::NumericalOverflow)
            },
            Some(p) => {
                let n = p / (SCALE as u128);
                if n > u64::MAX as u128 {
                    Err(FailureReason::NumericalOverflow)
                } else {
                    self.annual_expenses = n as u64;
                    Ok(())
                }
            },
        }
    }
}

} // verus!
