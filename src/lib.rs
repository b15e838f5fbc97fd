//! Month-by-month projection of a household's cash balance while it repays a
//! house loan under a constant-payment or a constant-amortization schedule.
//!
//! All amounts are `i64` counts of millionths of a currency unit and all rates
//! are `u32` parts per billion (see [`money`]); the engine is exact integer
//! arithmetic with documented rounding.

pub mod money;
pub mod solver;
pub mod amortization;
pub mod model;
pub mod simulation;
pub mod format;
