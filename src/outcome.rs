use vstd::prelude::*;

verus! {

/// Why a run stopped in the `Failed` state.
#[derive(Clone, Copy, Debug, PartialEq, Eq, Structural)]
pub enum FailureReason {
    /// A historical price series ran out before the criterion was met.
    ExhaustedData,
    /// A value left the range of its integer type.
    NumericalOverflow,
}

/// State of a simulation run; every state but `Running` is terminal.
#[derive(Clone, Copy, Debug, PartialEq, Eq, Structural)]
pub enum RunState {
    Running,
    Complete,
    Failed(FailureReason),
    BudgetExhausted,
}

impl RunState {
    pub open spec fn is_terminal_spec(&self) -> bool {
        !(*self is Running)
    }

    pub fn is_terminal(&self) -> (r: bool)
        ensures
            r == self.is_terminal_spec(),
    {
        match self {
            RunState::Running => false,
            _ => true,
        }
    }
}

/// Invalid strategy or run parameters, rejected before any run starts.
#[derive(Clone, Copy, Debug, PartialEq, Eq, Structural)]
pub enum ConfigError {
    /// The withdrawal rate is above one.
    InvalidWithdrawalRate,
    /// An allocation weight, or the sum of the weights, is above one.
    InvalidAllocation,
    /// A transition matrix is empty, not square, or a row does not sum to one.
    InvalidTransitionMatrix,
    /// The price factors do not match the states of the transition matrix.
    InvalidPriceFactors,
    /// A starting state is outside the transition matrix.
    InvalidStartingState,
    /// An asset has no starting price where the price model needs one.
    MissingStartingPrice,
    /// The price model or a cash-flow factor does not cover every asset.
    AssetCountMismatch,
    /// No cash-flow factor was given.
    NoCashFlowFactor,
    /// The iteration cap or the period length is zero.
    InvalidBudget,
    /// A Monte Carlo batch asks for no trials.
    InvalidTrialCount,
}

} // verus!
