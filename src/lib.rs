//! A period-stepping simulation engine for financial-independence planning.
//!
//! All quantities are integers: prices and cash are whole currency units,
//! and rates and weights are parts per million of [`units::SCALE`].
pub mod units;
pub mod asset;
pub mod outcome;
pub mod criterion;
pub mod contribution;
pub mod price_model;
pub mod random;
pub mod simulation;
pub mod monte_carlo;
pub mod schema;
pub mod trades;
