//! Coupon engine for carbon-credit-backed bonds: registers bonds against projects, distributes
//! each period's verified carbon credits pro rata over bond holders, and lets holders claim them.
use vstd::prelude::*;

pub mod address;
pub mod distribution;
pub mod engine;
pub mod history;
pub mod laws;
pub mod model;
pub mod table;
pub mod types;

pub use address::Address;
pub use distribution::{credits_per_token, CreditTally};
pub use engine::CouponEngine;
pub use table::Table;
pub use types::{BondError, CouponResult, PeriodInfo, Report, ReportStatus};

verus! {

/// Scale of the fixed-point numbers used for per-token credit rates.
pub const FIXED_POINT: i128 = 10_000_000;

} // verus!
