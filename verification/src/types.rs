//! The values that the coupon engine stores, receives and returns.
use vstd::prelude::*;

verus! {

/// Why a request to the coupon engine is refused.
#[derive(Clone, Copy, Debug, PartialEq, Eq, Structural)]
pub enum BondError {
    NotInitialized,
    Unauthorized,
    BondNotFound,
    ReportNotVerified,
    Overflow,
    InvalidNonce,
}

/// Where an oracle report stands in its review.
#[derive(Clone, Copy, Debug, PartialEq, Eq, Structural)]
pub enum ReportStatus {
    Pending,
    Verified,
    Challenged,
    Rejected,
}

/// An oracle report on a project, as far as coupon distribution reads it.
#[derive(Clone, Copy, Debug)]
pub struct Report {
    pub project_id: [u8; 32],
    pub period_start: u64,
    pub period_end: u64,
    pub carbon_sequestered: i128,
    pub status: ReportStatus,
}

/// What is recorded about one coupon period of a bond.
#[derive(Clone, Copy, Debug, PartialEq, Eq, Structural)]
pub struct PeriodInfo {
    pub period_index: u32,
    pub start_time: u64,
    pub end_time: u64,
    pub total_credits_earned: i128,
    pub distributed: bool,
    pub report_id: u64,
}

/// The outcome of one coupon distribution.
#[derive(Clone, Copy, Debug, PartialEq, Eq, Structural)]
pub struct CouponResult {
    pub bond_id: u64,
    pub period_index: u32,
    pub total_credits: i128,
    pub holder_count: u32,
    pub credits_per_token: i128,
}

/// Whether a report has completed verification.
pub fn is_verified(status: ReportStatus) -> (r: bool)
    ensures
        r == (status == ReportStatus::Verified),
{
    match status {
        ReportStatus::Verified => true,
        _ => false,
    }
}

/// Whether two project identifiers are equal.
pub fn same_project(a: &[u8; 32], b: &[u8; 32]) -> (r: bool)
    ensures
        r == (*a == *b),
{
    let mut i: usize = 0;
    while i < 32
        invariant
            i <= 32,
            forall|j: int| 0 <= j < i ==> a[j] == b[j],
        decreases 32 - i,
    {
        if a[i] != b[i] {
            return false;
        }
        i = i + 1;
    }
    assert(*a =~= *b);
    true
}

} // verus!
