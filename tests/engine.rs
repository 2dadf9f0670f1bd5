use fire_engine::asset::{total_value, Asset};
use fire_engine::contribution::{allocation_weights, MonthlyContribution};
use fire_engine::criterion::SafeWithdrawalRate;
use fire_engine::monte_carlo::{run_monte_carlo, summarize, RunTemplate, TrialOutcome};
use fire_engine::outcome::{ConfigError, FailureReason, RunState};
use fire_engine::price_model::{HistoricalReplay, MarkovChain, PriceModel};
use fire_engine::simulation::{Parameters, SimulationRun, StepEvent};

fn asset(ticker: &str, shares: i64, prices: Vec<u64>) -> Asset {
    Asset::new(ticker.to_string(), shares, prices)
}

fn flat_chain(n: usize) -> MarkovChain {
    MarkovChain::new(vec![vec![1_000_000]], vec![1_000_000], vec![0; n]).unwrap()
}

#[test]
fn contribution_two_assets_half_each() {
    let mut assets = vec![asset("A", 0, vec![100]), asset("B", 0, vec![300])];
    let mut factor = MonthlyContribution::new(1000, vec![Some(500_000), Some(500_000)]).unwrap();
    assert_eq!(factor.apply(&mut assets, &vec![1, 0]), Ok(()));
    assert_eq!(assets[0].shares_held, 5);
    assert_eq!(assets[1].shares_held, 1);
    assert_eq!(factor.leftover, 200);
}

#[test]
fn contribution_leftover_carries_into_next_period() {
    let mut assets = vec![asset("A", 0, vec![100]), asset("B", 0, vec![300])];
    let mut factor = MonthlyContribution::new(1000, vec![Some(500_000), Some(500_000)]).unwrap();
    factor.apply(&mut assets, &vec![0, 1]).unwrap();
    // 1200 available: 600 each, 6 shares of A and 2 of B, 0 left
    factor.apply(&mut assets, &vec![0, 1]).unwrap();
    assert_eq!(assets[0].shares_held, 11);
    assert_eq!(assets[1].shares_held, 3);
    assert_eq!(factor.leftover, 0);
}

#[test]
fn contribution_order_does_not_change_result() {
    let mut a1 = vec![asset("A", 0, vec![70]), asset("B", 0, vec![30]), asset("C", 0, vec![11])];
    let mut a2 = vec![asset("A", 0, vec![70]), asset("B", 0, vec![30]), asset("C", 0, vec![11])];
    let weights = vec![Some(300_000), Some(300_000), Some(400_000)];
    let mut f1 = MonthlyContribution::new(1000, weights.clone()).unwrap();
    let mut f2 = MonthlyContribution::new(1000, weights).unwrap();
    f1.apply(&mut a1, &vec![0, 1, 2]).unwrap();
    f2.apply(&mut a2, &vec![2, 0, 1]).unwrap();
    for i in 0..3 {
        assert_eq!(a1[i].shares_held, a2[i].shares_held);
    }
    assert_eq!(f1.leftover, f2.leftover);
    // 300/70 = 4 (280), 300/30 = 10 (300), 400/11 = 36 (396): 976 spent
    assert_eq!(f1.leftover, 24);
}

#[test]
fn contribution_skips_unweighted_and_zero_price() {
    let mut assets = vec![asset("A", 2, vec![0]), asset("B", 3, vec![]), asset("C", 4, vec![50])];
    let mut factor = MonthlyContribution::new(1000, vec![Some(500_000), Some(250_000), None]).unwrap();
    factor.apply(&mut assets, &vec![0, 1, 2]).unwrap();
    assert_eq!(assets[0].shares_held, 2);
    assert_eq!(assets[1].shares_held, 3);
    assert_eq!(assets[2].shares_held, 4);
    assert_eq!(factor.leftover, 1000);
}

#[test]
fn contribution_rejects_weights_above_one() {
    let r = MonthlyContribution::new(1000, vec![Some(600_000), Some(400_001)]);
    assert_eq!(r.err(), Some(ConfigError::InvalidAllocation));
    assert!(MonthlyContribution::new(1000, vec![Some(600_000), Some(400_000)]).is_ok());
}

#[test]
fn contribution_overflow_changes_nothing() {
    let mut assets = vec![asset("A", i64::MAX, vec![1])];
    let mut factor = MonthlyContribution::new(10, vec![Some(1_000_000)]).unwrap();
    assert_eq!(factor.apply(&mut assets, &vec![0]), Err(FailureReason::NumericalOverflow));
    assert_eq!(assets[0].shares_held, i64::MAX);
    assert_eq!(factor.leftover, 0);
}

#[test]
fn allocation_weights_by_ticker() {
    let assets = vec![asset("VTI", 0, vec![1]), asset("BND", 0, vec![1]), asset("GLD", 0, vec![1])];
    let allocation = vec![("BND".to_string(), 200_000), ("VTI".to_string(), 800_000), ("BND".to_string(), 5)];
    let w = allocation_weights(&assets, &allocation);
    assert_eq!(w, vec![Some(800_000), Some(200_000), None]);
}

#[test]
fn fire_boundary_equality_is_complete() {
    let assets = vec![asset("A", 1, vec![1_000_000])];
    let met = SafeWithdrawalRate::new(40_000, 40_000).unwrap();
    assert_eq!(met.evaluate(&assets), RunState::Complete);
    let unmet = SafeWithdrawalRate::new(40_000, 40_001).unwrap();
    assert_eq!(unmet.evaluate(&assets), RunState::Running);
}

#[test]
fn fire_value_summed_over_assets() {
    let assets = vec![asset("A", 10, vec![5, 50_000]), asset("B", 2, vec![250_000])];
    assert_eq!(total_value(&assets), Some(1_000_000));
    assert_eq!(assets[0].calculate_value(), 500_000);
    assert_eq!(assets[0].latest_price(), 50_000);
    assert_eq!(SafeWithdrawalRate::new(40_000, 39_999).unwrap().evaluate(&assets), RunState::Complete);
}

#[test]
fn fire_rejects_rate_above_one() {
    assert_eq!(SafeWithdrawalRate::new(1_000_001, 1).err(), Some(ConfigError::InvalidWithdrawalRate));
    assert!(SafeWithdrawalRate::new(1_000_000, 1).is_ok());
    assert!(SafeWithdrawalRate::new(0, 1).is_ok());
}

#[test]
fn fire_value_overflow_fails() {
    let assets = vec![asset("A", i64::MAX, vec![u64::MAX]), asset("B", i64::MAX, vec![u64::MAX])];
    let c = SafeWithdrawalRate::new(40_000, 1).unwrap();
    assert_eq!(c.evaluate(&assets), RunState::Failed(FailureReason::NumericalOverflow));
    assert_eq!(total_value(&assets), None);
}

#[test]
fn inflation_compounds_expenses() {
    let mut c = SafeWithdrawalRate::new(40_000, 40_000).unwrap();
    assert_eq!(c.adjust_for_inflation(25_000), Ok(()));
    assert_eq!(c.annual_expenses, 41_000);
    assert_eq!(c.adjust_for_inflation(25_000), Ok(()));
    assert_eq!(c.annual_expenses, 42_025);
    let mut big = SafeWithdrawalRate::new(40_000, u64::MAX).unwrap();
    assert_eq!(big.adjust_for_inflation(1), Err(FailureReason::NumericalOverflow));
    assert_eq!(big.annual_expenses, u64::MAX);
}

#[test]
fn markov_rejects_rows_not_summing_to_one() {
    let bad = MarkovChain::new(vec![vec![500_000, 499_998], vec![0, 1_000_000]], vec![1, 1], vec![0]);
    assert_eq!(bad.err(), Some(ConfigError::InvalidTransitionMatrix));
    let over = MarkovChain::new(vec![vec![500_000, 500_002], vec![0, 1_000_000]], vec![1, 1], vec![0]);
    assert_eq!(over.err(), Some(ConfigError::InvalidTransitionMatrix));
    let within = MarkovChain::new(vec![vec![500_000, 499_999], vec![0, 1_000_000]], vec![1, 1], vec![0]);
    assert!(within.is_ok());
}

#[test]
fn markov_rejects_other_bad_configurations() {
    assert_eq!(MarkovChain::new(vec![], vec![], vec![]).err(), Some(ConfigError::InvalidTransitionMatrix));
    assert_eq!(
        MarkovChain::new(vec![vec![1_000_000, 0]], vec![1], vec![0]).err(),
        Some(ConfigError::InvalidTransitionMatrix)
    );
    assert_eq!(
        MarkovChain::new(vec![vec![1_000_000]], vec![1, 2], vec![0]).err(),
        Some(ConfigError::InvalidPriceFactors)
    );
    assert_eq!(
        MarkovChain::new(vec![vec![1_000_000]], vec![1], vec![0, 1]).err(),
        Some(ConfigError::InvalidStartingState)
    );
}

#[test]
fn markov_samples_by_cumulative_row() {
    let matrix = vec![vec![500_000, 500_000], vec![0, 1_000_000]];
    let mut chain = MarkovChain::new(matrix.clone(), vec![1_100_000, 900_000], vec![0]).unwrap();
    let mut assets = vec![asset("A", 0, vec![1000])];
    assert_eq!(chain.advance(&mut assets, &vec![499_999]), Ok(()));
    assert_eq!(chain.states, vec![0]);
    assert_eq!(assets[0].price_history, vec![1000, 1100]);
    assert_eq!(chain.advance(&mut assets, &vec![500_000]), Ok(()));
    assert_eq!(chain.states, vec![1]);
    assert_eq!(assets[0].price_history, vec![1000, 1100, 990]);
    assert_eq!(chain.advance(&mut assets, &vec![0]), Ok(()));
    assert_eq!(chain.states, vec![1]);
    assert_eq!(assets[0].price_history, vec![1000, 1100, 990, 891]);
}

#[test]
fn markov_overflow_changes_nothing() {
    let mut chain = MarkovChain::new(vec![vec![1_000_000]], vec![2_000_000], vec![0]).unwrap();
    let mut assets = vec![asset("A", 0, vec![u64::MAX])];
    assert_eq!(chain.advance(&mut assets, &vec![0]), Err(FailureReason::NumericalOverflow));
    assert_eq!(assets[0].price_history, vec![u64::MAX]);
}

#[test]
fn replay_appends_next_entry() {
    let mut replay = HistoricalReplay::new(vec![vec![10, 11], vec![20, 21]]);
    let mut assets = vec![asset("A", 0, vec![]), asset("B", 0, vec![19])];
    assert_eq!(replay.advance(&mut assets), Ok(()));
    assert_eq!(assets[0].price_history, vec![10]);
    assert_eq!(assets[1].price_history, vec![19, 20]);
    assert_eq!(replay.advance(&mut assets), Ok(()));
    assert_eq!(replay.advance(&mut assets), Err(FailureReason::ExhaustedData));
    assert_eq!(assets[0].price_history, vec![10, 11]);
    assert_eq!(replay.next, 2);
}

fn unreachable_criterion() -> SafeWithdrawalRate {
    SafeWithdrawalRate::new(40_000, u64::MAX / 4).unwrap()
}

#[test]
fn replay_run_fails_when_series_runs_out() {
    let assets = vec![asset("A", 1, vec![]), asset("B", 1, vec![])];
    let replay = HistoricalReplay::new(vec![vec![100, 101, 102], vec![50, 51, 52, 53]]);
    let factors = vec![MonthlyContribution::new(100, vec![Some(500_000), Some(500_000)]).unwrap()];
    let params = Parameters::new(100, u64::MAX, 30).unwrap();
    let mut run = SimulationRun::new(
        assets,
        PriceModel::Historical(replay),
        factors,
        unreachable_criterion(),
        0,
        params,
        7,
    )
    .unwrap();
    assert_eq!(run.run(), RunState::Failed(FailureReason::ExhaustedData));
    assert_eq!(run.periods, 3);
    assert_eq!(
        run.events.last(),
        Some(&StepEvent { periods: 3, state: RunState::Failed(FailureReason::ExhaustedData) })
    );
    assert_eq!(run.assets[0].price_history, vec![100, 101, 102]);
    assert_eq!(run.assets[1].price_history, vec![50, 51, 52]);
}

#[test]
fn run_stops_at_iteration_cap() {
    let assets = vec![asset("A", 0, vec![100]), asset("B", 0, vec![7, 8])];
    let factors = vec![MonthlyContribution::new(1000, vec![Some(500_000), Some(500_000)]).unwrap()];
    let params = Parameters::new(5, u64::MAX, 30).unwrap();
    let mut run =
        SimulationRun::new(assets, PriceModel::Markov(flat_chain(2)), factors, unreachable_criterion(), 0, params, 1)
            .unwrap();
    assert_eq!(run.run(), RunState::BudgetExhausted);
    assert_eq!(run.periods, 5);
    assert_eq!(run.assets[0].price_history, vec![100; 6]);
    assert_eq!(run.assets[1].price_history, vec![7, 8, 8, 8, 8, 8, 8]);
    // 500 a period: 5 shares of A at 100 and 62 of B at 8 (4 left), leftover compounding
    assert_eq!(run.assets[0].shares_held, 25);
    let mut expected: Vec<StepEvent> = (1..=5).map(|p| StepEvent { periods: p, state: RunState::Running }).collect();
    expected.push(StepEvent { periods: 5, state: RunState::BudgetExhausted });
    assert_eq!(run.events, expected);
    // a terminal run does not move
    run.step_with(&vec![0, 1], &vec![0, 0]);
    assert_eq!(run.periods, 5);
    assert_eq!(run.state, RunState::BudgetExhausted);
    assert_eq!(run.events.len(), 6);
}

#[test]
fn run_stops_at_time_budget() {
    let assets = vec![asset("A", 0, vec![100])];
    let factors = vec![MonthlyContribution::new(1000, vec![Some(1_000_000)]).unwrap()];
    let params = Parameters::new(100, 60, 30).unwrap();
    let mut run =
        SimulationRun::new(assets, PriceModel::Markov(flat_chain(1)), factors, unreachable_criterion(), 0, params, 1)
            .unwrap();
    assert_eq!(run.run(), RunState::BudgetExhausted);
    assert_eq!(run.periods, 2);
    assert_eq!(run.assets[0].shares_held, 20);
}

#[test]
fn run_completes_when_criterion_met() {
    // 10 000 a period into one asset at 100; expenses 4 000 at 4% need 100 000
    let assets = vec![asset("A", 0, vec![100])];
    let factors = vec![MonthlyContribution::new(10_000, vec![Some(1_000_000)]).unwrap()];
    let criterion = SafeWithdrawalRate::new(40_000, 4_000).unwrap();
    let params = Parameters::new(100, u64::MAX, 30).unwrap();
    let mut run =
        SimulationRun::new(assets, PriceModel::Markov(flat_chain(1)), factors, criterion, 0, params, 3).unwrap();
    assert_eq!(run.run(), RunState::Complete);
    assert_eq!(run.periods, 10);
    assert_eq!(run.assets[0].shares_held, 1000);
}

#[test]
fn run_inflation_delays_completion() {
    let assets = vec![asset("A", 0, vec![100])];
    let factors = vec![MonthlyContribution::new(10_000, vec![Some(1_000_000)]).unwrap()];
    let criterion = SafeWithdrawalRate::new(40_000, 4_000).unwrap();
    let params = Parameters::new(100, u64::MAX, 30).unwrap();
    let mut run =
        SimulationRun::new(assets, PriceModel::Markov(flat_chain(1)), factors, criterion, 10_000, params, 3)
            .unwrap();
    assert_eq!(run.run(), RunState::Complete);
    assert!(run.periods > 10);
    assert!(run.criterion.annual_expenses > 4_000);
}

#[test]
fn run_rejects_bad_configuration() {
    let params = Parameters::new(10, 100, 1).unwrap();
    let none = SimulationRun::new(
        vec![asset("A", 0, vec![1])],
        PriceModel::Markov(flat_chain(1)),
        vec![],
        unreachable_criterion(),
        0,
        params,
        0,
    );
    assert_eq!(none.err(), Some(ConfigError::NoCashFlowFactor));
    let mismatch = SimulationRun::new(
        vec![asset("A", 0, vec![1])],
        PriceModel::Markov(flat_chain(2)),
        vec![MonthlyContribution::new(1, vec![None]).unwrap()],
        unreachable_criterion(),
        0,
        params,
        0,
    );
    assert_eq!(mismatch.err(), Some(ConfigError::AssetCountMismatch));
    let steep = SimulationRun::new(
        vec![asset("A", 0, vec![1])],
        PriceModel::Markov(flat_chain(1)),
        vec![MonthlyContribution::new(1, vec![None]).unwrap()],
        unreachable_criterion(),
        1_000_001,
        params,
        0,
    );
    assert!(steep.is_ok());
    assert_eq!(Parameters::new(0, 10, 1).err(), Some(ConfigError::InvalidBudget));
    assert_eq!(Parameters::new(10, 10, 0).err(), Some(ConfigError::InvalidBudget));
}

fn markov_template(max_iterations: u64) -> RunTemplate {
    let matrix = vec![
        vec![600_000, 300_000, 100_000],
        vec![300_000, 400_000, 300_000],
        vec![100_000, 300_000, 600_000],
    ];
    let chain = MarkovChain::new(matrix, vec![1_030_000, 1_000_000, 960_000], vec![1, 1]).unwrap();
    RunTemplate {
        assets: vec![asset("VTI", 0, vec![200]), asset("BND", 0, vec![80])],
        price_model: PriceModel::Markov(chain),
        factors: vec![MonthlyContribution::new(2_000, vec![Some(700_000), Some(300_000)]).unwrap()],
        criterion: SafeWithdrawalRate::new(40_000, 20_000).unwrap(),
        inflation_rate: 2_000,
        parameters: Parameters::new(max_iterations, u64::MAX, 30).unwrap(),
    }
}

#[test]
fn monte_carlo_same_seeds_same_outcomes() {
    let template = markov_template(600);
    let seeds: Vec<u64> = (1..=20).collect();
    let first = run_monte_carlo(&template, &seeds).unwrap();
    let second = run_monte_carlo(&template, &seeds).unwrap();
    assert_eq!(first.len(), 20);
    assert_eq!(first, second);
    assert_eq!(summarize(&first), summarize(&second));
    for o in &first {
        assert!(o.state != RunState::Running);
        assert!(o.periods <= 600);
    }
}

#[test]
fn monte_carlo_different_seeds_differ() {
    let template = markov_template(600);
    let a = run_monte_carlo(&template, &(1..=20).collect()).unwrap();
    let b = run_monte_carlo(&template, &(101..=120).collect()).unwrap();
    assert_ne!(a, b);
    let sa = summarize(&a);
    let sb = summarize(&b);
    assert_eq!(sa.trials, sb.trials);
}

#[test]
fn monte_carlo_template_is_not_consumed() {
    let template = markov_template(50);
    let outcomes = run_monte_carlo(&template, &vec![9, 9, 9]).unwrap();
    assert_eq!(outcomes[0], outcomes[1]);
    assert_eq!(outcomes[1], outcomes[2]);
    assert_eq!(template.assets[0].price_history, vec![200]);
    assert_eq!(template.factors[0].leftover, 0);
}

#[test]
fn monte_carlo_rejects_no_trials_and_bad_template() {
    let template = markov_template(10);
    assert_eq!(run_monte_carlo(&template, &vec![]).err(), Some(ConfigError::InvalidTrialCount));
    let mut bad = markov_template(10);
    bad.parameters.period_length = 0;
    assert_eq!(run_monte_carlo(&bad, &vec![1]).err(), Some(ConfigError::InvalidBudget));
}

fn outcome(state: RunState, periods: u64) -> TrialOutcome {
    TrialOutcome { state, periods, final_value: Some(0) }
}

#[test]
fn summary_counts_and_percentiles() {
    let mut outcomes = Vec::new();
    for p in [50u64, 10, 40, 20, 30, 100, 90, 60, 80, 70] {
        outcomes.push(outcome(RunState::Complete, p));
    }
    outcomes.push(outcome(RunState::Failed(FailureReason::ExhaustedData), 3));
    outcomes.push(outcome(RunState::BudgetExhausted, 600));
    outcomes.push(outcome(RunState::BudgetExhausted, 600));
    let s = summarize(&outcomes);
    assert_eq!(s.trials, 13);
    assert_eq!(s.completed, 10);
    assert_eq!(s.failed, 1);
    assert_eq!(s.budget_exhausted, 2);
    assert_eq!(s.p10, Some(10));
    assert_eq!(s.median, Some(50));
    assert_eq!(s.p90, Some(90));
}

#[test]
fn summary_without_completed_trials() {
    let s = summarize(&vec![outcome(RunState::BudgetExhausted, 5)]);
    assert_eq!(s.completed, 0);
    assert_eq!(s.median, None);
    let one = summarize(&vec![outcome(RunState::Complete, 7)]);
    assert_eq!((one.p10, one.median, one.p90), (Some(7), Some(7), Some(7)));
}

#[test]
fn run_state_terminality() {
    assert!(!RunState::Running.is_terminal());
    assert!(RunState::Complete.is_terminal());
    assert!(RunState::Failed(FailureReason::NumericalOverflow).is_terminal());
    assert!(RunState::BudgetExhausted.is_terminal());
}

#[test]
fn run_rechecks_markov_chain() {
    let mut chain = flat_chain(1);
    chain.factors.push(1_000_000);
    let params = Parameters::new(10, 100, 1).unwrap();
    let r = SimulationRun::new(
        vec![asset("A", 0, vec![1])],
        PriceModel::Markov(chain),
        vec![MonthlyContribution::new(1, vec![None]).unwrap()],
        unreachable_criterion(),
        0,
        params,
        0,
    );
    assert_eq!(r.err(), Some(ConfigError::InvalidPriceFactors));
}

#[test]
fn run_reports_first_problem_in_check_order() {
    // wrong factor size and bad withdrawal rate: the factor is checked first
    let mut criterion = unreachable_criterion();
    criterion.withdrawal_rate = 2_000_000;
    let params = Parameters::new(10, 100, 1).unwrap();
    let r = SimulationRun::new(
        vec![asset("A", 0, vec![1])],
        PriceModel::Markov(flat_chain(1)),
        vec![MonthlyContribution::new(1, vec![None, None]).unwrap()],
        criterion,
        0,
        params,
        0,
    );
    assert_eq!(r.err(), Some(ConfigError::AssetCountMismatch));
    let r = SimulationRun::new(
        vec![asset("A", 0, vec![1])],
        PriceModel::Markov(flat_chain(1)),
        vec![MonthlyContribution::new(1, vec![None]).unwrap()],
        criterion,
        0,
        params,
        0,
    );
    assert_eq!(r.err(), Some(ConfigError::InvalidWithdrawalRate));
}

#[test]
fn inflation_above_one_per_period() {
    let mut c = SafeWithdrawalRate::new(40_000, 40_000).unwrap();
    assert_eq!(c.adjust_for_inflation(1_500_000), Ok(()));
    assert_eq!(c.annual_expenses, 100_000);
    assert_eq!(c.withdrawal_rate, 40_000);
    let mut huge = SafeWithdrawalRate::new(40_000, 10_000_000).unwrap();
    assert_eq!(huge.adjust_for_inflation(u64::MAX), Err(FailureReason::NumericalOverflow));
    assert_eq!(huge.annual_expenses, 10_000_000);
}

#[test]
fn markov_rounds_to_nearest_and_keeps_prices_positive() {
    let mut chain = MarkovChain::new(vec![vec![1_000_000]], vec![500_000], vec![0, 0, 0]).unwrap();
    let mut assets = vec![asset("A", 0, vec![1]), asset("B", 0, vec![3]), asset("C", 0, vec![0])];
    chain.advance(&mut assets, &vec![0, 0, 0]).unwrap();
    assert_eq!(assets[0].price_history, vec![1, 1]);
    assert_eq!(assets[1].price_history, vec![3, 2]);
    assert_eq!(assets[2].price_history, vec![0, 0]);
    let mut up = MarkovChain::new(vec![vec![1_000_000]], vec![1_007_000], vec![0]).unwrap();
    let mut b = vec![asset("B", 0, vec![75])];
    up.advance(&mut b, &vec![0]).unwrap();
    assert_eq!(b[0].price_history, vec![75, 76]);
}

#[test]
fn monte_carlo_outcome_reports_run_value() {
    let template = markov_template(3);
    let outcomes = run_monte_carlo(&template, &vec![5]).unwrap();
    let mut run = template.instantiate(5).unwrap();
    let state = run.run();
    assert_eq!(outcomes[0].state, state);
    assert_eq!(outcomes[0].periods, run.periods);
    assert_eq!(outcomes[0].final_value, total_value(&run.assets));
    assert!(outcomes[0].final_value.unwrap() > 0);
}
