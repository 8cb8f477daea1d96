//! The abstract state of the coupon engine and what each request does to it.
use vstd::prelude::*;

use crate::types::{BondError, CouponResult, PeriodInfo, Report, ReportStatus};
use crate::FIXED_POINT;

verus! {

/// The engine's storage as mathematical maps: addresses are their strkey texts.
#[verifier::ext_equal]
pub struct EngineState {
    pub admin: Option<Seq<u8>>,
    pub bond_issuer: Option<Seq<u8>>,
    pub oracle_consumer: Option<Seq<u8>>,
    pub precision: Option<i128>,
    pub nonces: Map<Seq<u8>, u64>,
    pub bond_projects: Map<u64, [u8; 32]>,
    pub periods: Map<(u64, u32), PeriodInfo>,
    pub period_counts: Map<u64, u32>,
    pub accrued: Map<(u64, Seq<u8>), i128>,
    pub undistributed: Map<u64, i128>,
}

/// The nonce that `who` must present next (zero before the first request).
pub open spec fn nonce_of(s: EngineState, who: Seq<u8>) -> u64 {
    match s.nonces.get(who) {
        Some(n) => n,
        None => 0,
    }
}

/// Credits accrued by `who` on bond `bond_id` and not yet claimed.
pub open spec fn credits_in(accrued: Map<(u64, Seq<u8>), i128>, bond_id: u64, who: Seq<u8>) -> i128 {
    match accrued.get((bond_id, who)) {
        Some(c) => c,
        None => 0,
    }
}

/// Credits accrued by `who` on bond `bond_id` in state `s`.
pub open spec fn accrued_of(s: EngineState, bond_id: u64, who: Seq<u8>) -> i128 {
    credits_in(s.accrued, bond_id, who)
}

/// How many periods of bond `bond_id` have been distributed.
pub open spec fn period_count_of(s: EngineState, bond_id: u64) -> u32 {
    match s.period_counts.get(bond_id) {
        Some(c) => c,
        None => 0,
    }
}

/// Credits of bond `bond_id` that rounding left undistributed and that are not yet swept.
pub open spec fn undistributed_of(s: EngineState, bond_id: u64) -> i128 {
    match s.undistributed.get(bond_id) {
        Some(c) => c,
        None => 0,
    }
}

/// The state that the constructor leaves.
pub open spec fn initial_state(admin: Seq<u8>, bond_issuer: Seq<u8>, oracle_consumer: Seq<u8>) -> EngineState {
    EngineState {
        admin: Some(admin),
        bond_issuer: Some(bond_issuer),
        oracle_consumer: Some(oracle_consumer),
        precision: Some(FIXED_POINT),
        nonces: Map::empty(),
        bond_projects: Map::empty(),
        periods: Map::empty(),
        period_counts: Map::empty(),
        accrued: Map::empty(),
        undistributed: Map::empty(),
    }
}

/// `s` with the nonce of `who` set to `n`.
pub open spec fn with_nonce(s: EngineState, who: Seq<u8>, n: u64) -> EngineState {
    EngineState { nonces: s.nonces.insert(who, n), ..s }
}

/// The refusal that an administrative request meets, if any: a stale nonce,
/// no administrator on record, or a caller other than the administrator.
pub open spec fn admin_refusal(s: EngineState, caller: Seq<u8>, nonce: u64) -> Option<BondError> {
    if nonce != nonce_of(s, caller) {
        Some(BondError::InvalidNonce)
    } else {
        match s.admin {
            None => Some(BondError::NotInitialized),
            Some(a) => if a != caller {
                Some(BondError::Unauthorized)
            } else {
                None
            },
        }
    }
}

/// Whether a request that presents `nonce` aborts while advancing the caller's nonce.
pub open spec fn nonce_exhausted(s: EngineState, caller: Seq<u8>, nonce: u64) -> bool {
    nonce == nonce_of(s, caller) && nonce == u64::MAX
}

/// What registering bond `bond_id` for project `project_id` gives.
pub open spec fn register_outcome(
    s: EngineState,
    caller: Seq<u8>,
    bond_id: u64,
    project_id: [u8; 32],
    nonce: u64,
) -> Result<EngineState, BondError> {
    match admin_refusal(s, caller, nonce) {
        Some(e) => Err(e),
        None => Ok(
            EngineState {
                bond_projects: s.bond_projects.insert(bond_id, project_id),
                ..with_nonce(s, caller, (nonce + 1) as u64)
            },
        ),
    }
}

/// What a claim of the caller's credits on bond `bond_id` gives: the amount and the next state.
pub open spec fn claim_outcome(s: EngineState, caller: Seq<u8>, bond_id: u64, nonce: u64) -> Result<
    (EngineState, i128),
    BondError,
> {
    if nonce != nonce_of(s, caller) {
        Err(BondError::InvalidNonce)
    } else {
        Ok(
            (
                EngineState {
                    accrued: s.accrued.insert((bond_id, caller), 0),
                    ..with_nonce(s, caller, (nonce + 1) as u64)
                },
                accrued_of(s, bond_id, caller),
            ),
        )
    }
}

/// The refusal, if any, that a distribution request meets before the oracle is asked for the report.
pub open spec fn request_refusal(s: EngineState, caller: Seq<u8>, bond_id: u64, nonce: u64) -> Option<BondError> {
    match admin_refusal(s, caller, nonce) {
        Some(e) => Some(e),
        None => if !s.bond_projects.contains_key(bond_id) {
            Some(BondError::BondNotFound)
        } else if s.oracle_consumer is None {
            Some(BondError::NotInitialized)
        } else {
            None
        },
    }
}

/// The refusal, if any, of the report offered for period `period_index` of bond `bond_id`:
/// it must be verified, concern the bond's project, and the period must not be distributed yet.
pub open spec fn report_refusal(s: EngineState, bond_id: u64, period_index: u32, report: Report) -> Option<BondError> {
    if report.status != ReportStatus::Verified {
        Some(BondError::ReportNotVerified)
    } else if report.project_id != s.bond_projects[bond_id] {
        Some(BondError::BondNotFound)
    } else if s.periods.contains_key((bond_id, period_index)) && s.periods[(bond_id, period_index)].distributed {
        Some(BondError::Overflow)
    } else {
        None
    }
}

/// Whole credits in a report: sequestered carbon divided by 1000, rounded toward zero.
pub open spec fn total_credits_of(carbon: i128) -> int {
    if carbon >= 0 {
        carbon / 1000
    } else {
        -((-carbon) / 1000)
    }
}

/// Credits per bond token, in fixed point; zero unless both inputs are positive.
pub open spec fn rate_of(total_credits: int, total_subscribed: int) -> int {
    if total_subscribed > 0 && total_credits > 0 {
        total_credits * FIXED_POINT / total_subscribed
    } else {
        0
    }
}

/// Whether computing the rate overflows `i128`.
pub open spec fn rate_overflows(total_credits: int, total_subscribed: int) -> bool {
    total_subscribed > 0 && total_credits > 0 && total_credits * FIXED_POINT > i128::MAX
}

/// A holder's share at fixed-point rate `rate`: zero unless the balance is positive.
pub open spec fn share_of(rate: int, balance: int) -> int {
    if balance > 0 {
        rate * balance / (FIXED_POINT as int)
    } else {
        0
    }
}

/// The sum of the positive shares of the first `n` balances.
pub open spec fn credited_total(rate: int, balances: Seq<i128>, n: nat) -> int
    decreases n,
{
    if n == 0 {
        0
    } else {
        let c = share_of(rate, balances[n - 1] as int);
        credited_total(rate, balances, (n - 1) as nat) + if c > 0 {
            c
        } else {
            0
        }
    }
}

/// How many of the first `n` balances earn a positive share.
pub open spec fn credited_count(rate: int, balances: Seq<i128>, n: nat) -> nat
    decreases n,
{
    if n == 0 {
        0
    } else {
        credited_count(rate, balances, (n - 1) as nat) + if share_of(rate, balances[n - 1] as int) > 0 {
            1nat
        } else {
            0nat
        }
    }
}

/// Accrued credits after the first `n` holders have been credited their shares, in order.
pub open spec fn accrue(
    accrued: Map<(u64, Seq<u8>), i128>,
    bond_id: u64,
    rate: int,
    holders: Seq<Seq<u8>>,
    balances: Seq<i128>,
    n: nat,
) -> Map<(u64, Seq<u8>), i128>
    decreases n,
{
    if n == 0 {
        accrued
    } else {
        let m = accrue(accrued, bond_id, rate, holders, balances, (n - 1) as nat);
        let c = share_of(rate, balances[n - 1] as int);
        if c > 0 {
            m.insert((bond_id, holders[n - 1]), (credits_in(m, bond_id, holders[n - 1]) + c) as i128)
        } else {
            m
        }
    }
}

/// The fixed-point rate that a distribution against `report` uses.
pub open spec fn distribution_rate(report: Report, total_subscribed: i128) -> int {
    rate_of(total_credits_of(report.carbon_sequestered), total_subscribed as int)
}

/// Whether the crediting loop aborts: a share's product, or a holder's accrued credits, exceeds `i128`.
pub open spec fn crediting_aborts(
    s: EngineState,
    bond_id: u64,
    rate: int,
    holders: Seq<Seq<u8>>,
    balances: Seq<i128>,
) -> bool {
    ||| exists|k: int|
        0 <= k < balances.len() && credited_total(rate, balances, k as nat) <= i128::MAX
            && balances[k] > 0 && rate * balances[k] > i128::MAX
    ||| exists|k: int|
        0 <= k < balances.len() && credited_total(rate, balances, (k + 1) as nat) <= i128::MAX
            && share_of(rate, balances[k] as int) > 0 && credits_in(
            accrue(s.accrued, bond_id, rate, holders, balances, k as nat),
            bond_id,
            holders[k],
        ) + share_of(rate, balances[k] as int) > i128::MAX
}

/// Whether a distribution request aborts instead of answering: its nonce cannot advance,
/// no bond issuer is on record, or an amount exceeds the integer it is kept in.
pub open spec fn distribution_aborts(
    s: EngineState,
    caller: Seq<u8>,
    bond_id: u64,
    period_index: u32,
    holders: Seq<Seq<u8>>,
    report: Report,
    total_subscribed: i128,
    balances: Seq<i128>,
    nonce: u64,
) -> bool {
    ||| nonce_exhausted(s, caller, nonce)
    ||| request_refusal(s, caller, bond_id, nonce) is None && report_refusal(
        s,
        bond_id,
        period_index,
        report,
    ) is None && {
        let tc = total_credits_of(report.carbon_sequestered);
        let rate = rate_of(tc, total_subscribed as int);
        ||| s.bond_issuer is None
        ||| rate_overflows(tc, total_subscribed as int)
        ||| crediting_aborts(s, bond_id, rate, holders, balances)
        ||| credited_total(rate, balances, balances.len()) <= i128::MAX && (period_count_of(s, bond_id)
            == u32::MAX || undistributed_of(s, bond_id) + remainder_of(
            tc,
            credited_total(rate, balances, balances.len()),
        ) > i128::MAX)
    }
}

/// What rounding leaves of a report's whole credits once `credited` have been handed out;
/// nothing when the holders got at least the whole credits.
pub open spec fn remainder_of(total_credits: int, credited: int) -> int {
    if total_credits > credited {
        total_credits - credited
    } else {
        0
    }
}

/// What sweeping the undistributed credits of bond `bond_id` gives: the amount and the next state.
/// Only the administrator may sweep.
pub open spec fn sweep_outcome(s: EngineState, caller: Seq<u8>, bond_id: u64, nonce: u64) -> Result<
    (EngineState, i128),
    BondError,
> {
    match admin_refusal(s, caller, nonce) {
        Some(e) => Err(e),
        None => Ok(
            (
                EngineState {
                    undistributed: s.undistributed.insert(bond_id, 0),
                    ..with_nonce(s, caller, (nonce + 1) as u64)
                },
                undistributed_of(s, bond_id),
            ),
        ),
    }
}

/// What a distribution of period `period_index` of bond `bond_id` gives: the next state and the result.
pub open spec fn distribution_outcome(
    s: EngineState,
    caller: Seq<u8>,
    bond_id: u64,
    period_index: u32,
    holders: Seq<Seq<u8>>,
    report_id: u64,
    report: Report,
    total_subscribed: i128,
    balances: Seq<i128>,
    nonce: u64,
) -> Result<(EngineState, CouponResult), BondError> {
    match request_refusal(s, caller, bond_id, nonce) {
        Some(e) => Err(e),
        None => match report_refusal(s, bond_id, period_index, report) {
            Some(e) => Err(e),
            None => {
                let rate = distribution_rate(report, total_subscribed);
                let n = balances.len();
                let total = credited_total(rate, balances, n);
                if total > i128::MAX {
                    Err(BondError::Overflow)
                } else {
                    let info = PeriodInfo {
                        period_index,
                        start_time: report.period_start,
                        end_time: report.period_end,
                        total_credits_earned: total as i128,
                        distributed: true,
                        report_id,
                    };
                    Ok(
                        (
                            EngineState {
                                periods: s.periods.insert((bond_id, period_index), info),
                                period_counts: s.period_counts.insert(
                                    bond_id,
                                    (period_count_of(s, bond_id) + 1) as u32,
                                ),
                                accrued: accrue(s.accrued, bond_id, rate, holders, balances, n),
                                undistributed: s.undistributed.insert(
                                    bond_id,
                                    (undistributed_of(s, bond_id) + remainder_of(
                                        total_credits_of(report.carbon_sequestered),
                                        total,
                                    )) as i128,
                                ),
                                ..with_nonce(s, caller, (nonce + 1) as u64)
                            },
                            CouponResult {
                                bond_id,
                                period_index,
                                total_credits: total as i128,
                                holder_count: credited_count(rate, balances, n) as u32,
                                credits_per_token: rate as i128,
                            },
                        ),
                    )
                }
            },
        },
    }
}

} // verus!
