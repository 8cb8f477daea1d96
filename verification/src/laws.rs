//! Properties of the coupon engine that relate several requests or hold of every state.
use vstd::prelude::*;

use crate::distribution::{
    lemma_credited_count_bound, lemma_credited_total_monotone, lemma_rate_nonnegative,
};
use crate::model::{
    accrue, accrued_of, claim_outcome, credited_count, credited_total, credits_in, crediting_aborts,
    distribution_aborts, distribution_outcome, distribution_rate, nonce_of, period_count_of,
    register_outcome, report_refusal, request_refusal, share_of, sweep_outcome, total_credits_of,
    undistributed_of, EngineState,
};
use crate::FIXED_POINT;
use crate::types::{BondError, Report, ReportStatus};

verus! {

/// Every outcome of the three nonce-checked requests of `caller` presenting `nonce` in `s`.
pub open spec fn all_refuse_stale_nonce(s: EngineState, caller: Seq<u8>, nonce: u64) -> bool {
    &&& forall|bond_id: u64, project_id: [u8; 32]|
        #[trigger] register_outcome(s, caller, bond_id, project_id, nonce) == Err::<EngineState, BondError>(
            BondError::InvalidNonce,
        )
    &&& forall|bond_id: u64| #[trigger]
        claim_outcome(s, caller, bond_id, nonce) == Err::<(EngineState, i128), BondError>(
            BondError::InvalidNonce,
        )
    &&& forall|
        bond_id: u64,
        period_index: u32,
        holders: Seq<Seq<u8>>,
        report_id: u64,
        report: Report,
        total_subscribed: i128,
        balances: Seq<i128>,
    |
        #[trigger] distribution_outcome(
            s,
            caller,
            bond_id,
            period_index,
            holders,
            report_id,
            report,
            total_subscribed,
            balances,
            nonce,
        ) is Err && distribution_outcome(
            s,
            caller,
            bond_id,
            period_index,
            holders,
            report_id,
            report,
            total_subscribed,
            balances,
            nonce,
        )->Err_0 == BondError::InvalidNonce
}

proof fn lemma_spent_nonce(s: EngineState, caller: Seq<u8>, nonce: u64)
    requires
        nonce_of(s, caller) != nonce,
    ensures
        all_refuse_stale_nonce(s, caller, nonce),
{
}

/// A nonce is spent by the request that presents it: once a bond registration is accepted,
/// the caller's nonce has advanced by one, other callers' nonces are untouched, and every
/// request of the caller presenting the same nonce again is refused with `InvalidNonce`.
pub proof fn lemma_register_spends_nonce(
    s: EngineState,
    caller: Seq<u8>,
    bond_id: u64,
    project_id: [u8; 32],
    nonce: u64,
    other: Seq<u8>,
)
    requires
        nonce < u64::MAX,
        register_outcome(s, caller, bond_id, project_id, nonce) is Ok,
    ensures
        ({
            let s2 = register_outcome(s, caller, bond_id, project_id, nonce)->Ok_0;
            &&& nonce_of(s2, caller) == nonce + 1
            &&& other != caller ==> nonce_of(s2, other) == nonce_of(s, other)
            &&& all_refuse_stale_nonce(s2, caller, nonce)
        }),
{
    let s2 = register_outcome(s, caller, bond_id, project_id, nonce)->Ok_0;
    lemma_spent_nonce(s2, caller, nonce);
}

/// The same for an accepted claim of credits.
pub proof fn lemma_claim_spends_nonce(s: EngineState, caller: Seq<u8>, bond_id: u64, nonce: u64, other: Seq<u8>)
    requires
        nonce < u64::MAX,
        claim_outcome(s, caller, bond_id, nonce) is Ok,
    ensures
        ({
            let s2 = claim_outcome(s, caller, bond_id, nonce)->Ok_0.0;
            &&& nonce_of(s2, caller) == nonce + 1
            &&& other != caller ==> nonce_of(s2, other) == nonce_of(s, other)
            &&& all_refuse_stale_nonce(s2, caller, nonce)
        }),
{
    let s2 = claim_outcome(s, caller, bond_id, nonce)->Ok_0.0;
    lemma_spent_nonce(s2, caller, nonce);
}

/// The same for an accepted coupon distribution.
pub proof fn lemma_distribution_spends_nonce(
    s: EngineState,
    caller: Seq<u8>,
    bond_id: u64,
    period_index: u32,
    holders: Seq<Seq<u8>>,
    report_id: u64,
    report: Report,
    total_subscribed: i128,
    balances: Seq<i128>,
    nonce: u64,
    other: Seq<u8>,
)
    requires
        nonce < u64::MAX,
        distribution_outcome(
            s,
            caller,
            bond_id,
            period_index,
            holders,
            report_id,
            report,
            total_subscribed,
            balances,
            nonce,
        ) is Ok,
    ensures
        ({
            let s2 = distribution_outcome(
                s,
                caller,
                bond_id,
                period_index,
                holders,
                report_id,
                report,
                total_subscribed,
                balances,
                nonce,
            )->Ok_0.0;
            &&& nonce_of(s2, caller) == nonce + 1
            &&& other != caller ==> nonce_of(s2, other) == nonce_of(s, other)
            &&& all_refuse_stale_nonce(s2, caller, nonce)
        }),
{
    let s2 = distribution_outcome(
        s,
        caller,
        bond_id,
        period_index,
        holders,
        report_id,
        report,
        total_subscribed,
        balances,
        nonce,
    )->Ok_0.0;
    lemma_spent_nonce(s2, caller, nonce);
}

/// Only the administrator on record can register a bond or distribute a coupon.
pub proof fn lemma_only_admin(
    s: EngineState,
    caller: Seq<u8>,
    bond_id: u64,
    project_id: [u8; 32],
    period_index: u32,
    holders: Seq<Seq<u8>>,
    report_id: u64,
    report: Report,
    total_subscribed: i128,
    balances: Seq<i128>,
    nonce: u64,
)
    ensures
        register_outcome(s, caller, bond_id, project_id, nonce) is Ok ==> s.admin == Some(caller),
        distribution_outcome(
            s,
            caller,
            bond_id,
            period_index,
            holders,
            report_id,
            report,
            total_subscribed,
            balances,
            nonce,
        ) is Ok ==> s.admin == Some(caller),
        s.admin is Some && s.admin != Some(caller) && nonce == nonce_of(s, caller) ==> register_outcome(
            s,
            caller,
            bond_id,
            project_id,
            nonce,
        ) == Err::<EngineState, BondError>(BondError::Unauthorized),
{
}

/// A coupon is only paid from a verified report on the bond's own project.
pub proof fn lemma_distribution_needs_verified_report(
    s: EngineState,
    caller: Seq<u8>,
    bond_id: u64,
    period_index: u32,
    holders: Seq<Seq<u8>>,
    report_id: u64,
    report: Report,
    total_subscribed: i128,
    balances: Seq<i128>,
    nonce: u64,
)
    requires
        distribution_outcome(
            s,
            caller,
            bond_id,
            period_index,
            holders,
            report_id,
            report,
            total_subscribed,
            balances,
            nonce,
        ) is Ok,
    ensures
        report.status == ReportStatus::Verified,
        s.bond_projects.contains_key(bond_id),
        report.project_id == s.bond_projects[bond_id],
{
}

/// A period of a bond is distributed at most once: after one accepted distribution, every
/// later distribution of the same period is refused, with `Overflow` once the request and the
/// report pass their own checks.
pub proof fn lemma_period_distributed_once(
    s: EngineState,
    caller: Seq<u8>,
    bond_id: u64,
    period_index: u32,
    holders: Seq<Seq<u8>>,
    report_id: u64,
    report: Report,
    total_subscribed: i128,
    balances: Seq<i128>,
    nonce: u64,
    caller2: Seq<u8>,
    holders2: Seq<Seq<u8>>,
    report_id2: u64,
    report2: Report,
    total_subscribed2: i128,
    balances2: Seq<i128>,
    nonce2: u64,
)
    requires
        distribution_outcome(
            s,
            caller,
            bond_id,
            period_index,
            holders,
            report_id,
            report,
            total_subscribed,
            balances,
            nonce,
        ) is Ok,
    ensures
        ({
            let s2 = distribution_outcome(
                s,
                caller,
                bond_id,
                period_index,
                holders,
                report_id,
                report,
                total_subscribed,
                balances,
                nonce,
            )->Ok_0.0;
            let again = distribution_outcome(
                s2,
                caller2,
                bond_id,
                period_index,
                holders2,
                report_id2,
                report2,
                total_subscribed2,
                balances2,
                nonce2,
            );
            &&& again is Err
            &&& request_refusal(s2, caller2, bond_id, nonce2) is None && report2.status
                == ReportStatus::Verified && report2.project_id == s2.bond_projects[bond_id] ==> again
                == Err::<(EngineState, crate::types::CouponResult), BondError>(BondError::Overflow)
        }),
{
    let s2 = distribution_outcome(
        s,
        caller,
        bond_id,
        period_index,
        holders,
        report_id,
        report,
        total_subscribed,
        balances,
        nonce,
    )->Ok_0.0;
    assert(s2.periods.contains_key((bond_id, period_index)));
    assert(s2.periods[(bond_id, period_index)].distributed);
    if request_refusal(s2, caller2, bond_id, nonce2) is None {
        assert(s2.bond_projects.contains_key(bond_id));
        assert(report_refusal(s2, bond_id, period_index, report2) is Some);
    }
}

/// A claim hands over exactly what had accrued and leaves nothing: a claim on the same bond
/// presented right after it, with the next nonce, hands over zero.
pub proof fn lemma_claim_empties(s: EngineState, caller: Seq<u8>, bond_id: u64, nonce: u64)
    requires
        nonce < u64::MAX,
        claim_outcome(s, caller, bond_id, nonce) is Ok,
    ensures
        ({
            let (s2, amount) = claim_outcome(s, caller, bond_id, nonce)->Ok_0;
            &&& amount == accrued_of(s, bond_id, caller)
            &&& accrued_of(s2, bond_id, caller) == 0
            &&& claim_outcome(s2, caller, bond_id, (nonce + 1) as u64) is Ok
            &&& claim_outcome(s2, caller, bond_id, (nonce + 1) as u64)->Ok_0.1 == 0
        }),
{
}

/// The sum of the positive balances among the first `n`.
pub open spec fn positive_sum(balances: Seq<i128>, n: nat) -> int
    decreases n,
{
    if n == 0 {
        0
    } else {
        positive_sum(balances, (n - 1) as nat) + if balances[n - 1] > 0 {
            balances[n - 1] as int
        } else {
            0
        }
    }
}

proof fn lemma_credited_scaled(rate: int, balances: Seq<i128>, n: nat)
    requires
        rate >= 0,
        n <= balances.len(),
    ensures
        credited_total(rate, balances, n) * FIXED_POINT <= rate * positive_sum(balances, n),
        positive_sum(balances, n) >= 0,
    decreases n,
{
    if n > 0 {
        let m = (n - 1) as nat;
        lemma_credited_scaled(rate, balances, m);
        let b = balances[m as int] as int;
        let prev = credited_total(rate, balances, m);
        let psum = positive_sum(balances, m);
        if b > 0 {
            let x = rate * b;
            assert(x >= 0) by (nonlinear_arith)
                requires
                    rate >= 0,
                    b > 0,
                    x == rate * b,
            ;
            let c = x / (FIXED_POINT as int);
            assert(c * FIXED_POINT <= x && c >= 0) by (nonlinear_arith)
                requires
                    x >= 0,
                    c == x / 10000000int,
                    FIXED_POINT == 10000000,
            ;
            assert(rate * (psum + b) == rate * psum + rate * b) by (nonlinear_arith);
            assert((prev + c) * FIXED_POINT == prev * FIXED_POINT + c * FIXED_POINT) by (nonlinear_arith);
            assert(share_of(rate, b) == c);
        }
    }
}

/// Pro-rata rounding never hands out more than the report earned, provided the listed holders'
/// positive balances (negative balances count as nothing) add up to no more than the bond's
/// subscribed total: then the credits distributed are at most the report's whole credits.
pub proof fn lemma_distribution_within_report_credits(
    s: EngineState,
    caller: Seq<u8>,
    bond_id: u64,
    period_index: u32,
    holders: Seq<Seq<u8>>,
    report_id: u64,
    report: Report,
    total_subscribed: i128,
    balances: Seq<i128>,
    nonce: u64,
)
    requires
        distribution_outcome(
            s,
            caller,
            bond_id,
            period_index,
            holders,
            report_id,
            report,
            total_subscribed,
            balances,
            nonce,
        ) is Ok,
        positive_sum(balances, balances.len()) <= total_subscribed,
    ensures
        ({
            let res = distribution_outcome(
                s,
                caller,
                bond_id,
                period_index,
                holders,
                report_id,
                report,
                total_subscribed,
                balances,
                nonce,
            )->Ok_0.1;
            let tc = total_credits_of(report.carbon_sequestered);
            &&& 0 <= res.total_credits
            &&& res.total_credits <= if tc > 0 {
                tc
            } else {
                0
            }
        }),
{
    let tc = total_credits_of(report.carbon_sequestered);
    let ts = total_subscribed as int;
    let rate = distribution_rate(report, total_subscribed);
    let n = balances.len();
    let fp = FIXED_POINT as int;
    if ts > 0 && tc > 0 {
        assert(rate * ts <= tc * fp && rate >= 0) by (nonlinear_arith)
            requires
                rate == (tc * fp) / ts,
                ts > 0,
                tc > 0,
                fp > 0,
        ;
    } else {
        assert(rate == 0);
    }
    assert(rate >= 0);
    lemma_credited_scaled(rate, balances, n);
    lemma_credited_total_monotone(rate, balances, 0, n);
    let total = credited_total(rate, balances, n);
    let psum = positive_sum(balances, n);
    if ts > 0 && tc > 0 {
        assert(rate * psum <= rate * ts) by (nonlinear_arith)
            requires
                rate >= 0,
                psum <= ts,
        ;
        assert(total <= tc) by (nonlinear_arith)
            requires
                total * fp <= tc * fp,
                fp > 0,
        ;
    } else {
        assert(rate * psum == 0) by (nonlinear_arith)
            requires
                rate == 0,
        ;
        assert(total <= 0) by (nonlinear_arith)
            requires
                total * fp <= 0,
                fp > 0,
        ;
    }
}

/// A holder's pro-rata piece at fixed-point rate `rate`: `rate * balance / FIXED_POINT`, rounded
/// down, for a positive balance; nothing otherwise.
pub open spec fn pro_rata(rate: int, balance: int) -> int {
    if balance > 0 {
        rate * balance / (FIXED_POINT as int)
    } else {
        0
    }
}

/// The sum of the positive pro-rata pieces of the first `n` balances.
pub open spec fn pro_rata_total(rate: int, balances: Seq<i128>, n: nat) -> int
    decreases n,
{
    if n == 0 {
        0
    } else {
        let c = pro_rata(rate, balances[n - 1] as int);
        pro_rata_total(rate, balances, (n - 1) as nat) + if c > 0 {
            c
        } else {
            0
        }
    }
}

/// How many of the first `n` balances earn a positive pro-rata piece.
pub open spec fn pro_rata_count(rate: int, balances: Seq<i128>, n: nat) -> int
    decreases n,
{
    if n == 0 {
        0
    } else {
        pro_rata_count(rate, balances, (n - 1) as nat) + if pro_rata(rate, balances[n - 1] as int) > 0 {
            1int
        } else {
            0
        }
    }
}

proof fn lemma_pro_rata_matches(rate: int, balances: Seq<i128>, n: nat)
    requires
        n <= balances.len(),
    ensures
        credited_total(rate, balances, n) == pro_rata_total(rate, balances, n),
        credited_count(rate, balances, n) == pro_rata_count(rate, balances, n),
    decreases n,
{
    if n > 0 {
        lemma_pro_rata_matches(rate, balances, (n - 1) as nat);
    }
}

/// The credits that the first `n` listed holders equal to `who` earn.
pub open spec fn credited_to(rate: int, holders: Seq<Seq<u8>>, balances: Seq<i128>, who: Seq<u8>, n: nat) -> int
    decreases n,
{
    if n == 0 {
        0
    } else {
        let c = pro_rata(rate, balances[n - 1] as int);
        credited_to(rate, holders, balances, who, (n - 1) as nat) + if holders[n - 1] == who && c > 0 {
            c
        } else {
            0
        }
    }
}

proof fn lemma_credited_to_nonnegative(rate: int, holders: Seq<Seq<u8>>, balances: Seq<i128>, who: Seq<u8>, n: nat)
    ensures
        credited_to(rate, holders, balances, who, n) >= 0,
    decreases n,
{
    if n > 0 {
        lemma_credited_to_nonnegative(rate, holders, balances, who, (n - 1) as nat);
    }
}

proof fn lemma_accrue_closed_form(
    acc: Map<(u64, Seq<u8>), i128>,
    bond_id: u64,
    rate: int,
    holders: Seq<Seq<u8>>,
    balances: Seq<i128>,
    n: nat,
)
    requires
        rate >= 0,
        n <= holders.len(),
        n <= balances.len(),
        forall|k: int|
            0 <= k < n && share_of(rate, #[trigger] balances[k] as int) > 0 ==> credits_in(
                accrue(acc, bond_id, rate, holders, balances, k as nat),
                bond_id,
                holders[k],
            ) + share_of(rate, balances[k] as int) <= i128::MAX,
    ensures
        forall|who: Seq<u8>|
            #[trigger] credits_in(accrue(acc, bond_id, rate, holders, balances, n), bond_id, who) == credits_in(
                acc,
                bond_id,
                who,
            ) + credited_to(rate, holders, balances, who, n),
        forall|b: u64, who: Seq<u8>|
            b != bond_id ==> #[trigger] credits_in(accrue(acc, bond_id, rate, holders, balances, n), b, who)
                == credits_in(acc, b, who),
    decreases n,
{
    if n > 0 {
        let m = (n - 1) as nat;
        lemma_accrue_closed_form(acc, bond_id, rate, holders, balances, m);
        let prev = accrue(acc, bond_id, rate, holders, balances, m);
        let c = share_of(rate, balances[m as int] as int);
        let h = holders[m as int];
        assert(balances[m as int] == balances[m as int]);
        assert forall|who: Seq<u8>|
            #[trigger] credits_in(accrue(acc, bond_id, rate, holders, balances, n), bond_id, who) == credits_in(
                acc,
                bond_id,
                who,
            ) + credited_to(rate, holders, balances, who, n) by {
            assert(credits_in(prev, bond_id, who) == credits_in(acc, bond_id, who) + credited_to(
                rate,
                holders,
                balances,
                who,
                m,
            ));
        }
        assert forall|b: u64, who: Seq<u8>|
            b != bond_id implies #[trigger] credits_in(accrue(acc, bond_id, rate, holders, balances, n), b, who)
                == credits_in(acc, b, who) by {
            assert(credits_in(prev, b, who) == credits_in(acc, b, who));
        }
    }
}

/// How a distribution moves accrued credits: each holder of the bond gains exactly the shares
/// earned by its entries in the list (in total, the result's `total_credits`), credits on
/// every other bond stay as they were, and no more holders are counted than were listed.
pub proof fn lemma_distribution_accrual(
    s: EngineState,
    caller: Seq<u8>,
    bond_id: u64,
    period_index: u32,
    holders: Seq<Seq<u8>>,
    report_id: u64,
    report: Report,
    total_subscribed: i128,
    balances: Seq<i128>,
    nonce: u64,
    who: Seq<u8>,
    other_bond: u64,
)
    requires
        holders.len() == balances.len(),
        !distribution_aborts(s, caller, bond_id, period_index, holders, report, total_subscribed, balances, nonce),
        distribution_outcome(
            s,
            caller,
            bond_id,
            period_index,
            holders,
            report_id,
            report,
            total_subscribed,
            balances,
            nonce,
        ) is Ok,
    ensures
        ({
            let (s2, res) = distribution_outcome(
                s,
                caller,
                bond_id,
                period_index,
                holders,
                report_id,
                report,
                total_subscribed,
                balances,
                nonce,
            )->Ok_0;
            let rate = distribution_rate(report, total_subscribed);
            &&& accrued_of(s2, bond_id, who) == accrued_of(s, bond_id, who) + credited_to(
                rate,
                holders,
                balances,
                who,
                balances.len(),
            )
            &&& other_bond != bond_id ==> accrued_of(s2, other_bond, who) == accrued_of(s, other_bond, who)
            &&& res.total_credits == credited_total(rate, balances, balances.len())
            &&& res.holder_count <= holders.len()
        }),
{
    let rate = distribution_rate(report, total_subscribed);
    let n = balances.len();
    lemma_rate_nonnegative(total_credits_of(report.carbon_sequestered), total_subscribed as int);
    assert(!crediting_aborts(s, bond_id, rate, holders, balances));
    assert(credited_total(rate, balances, n) <= i128::MAX);
    lemma_no_truncation(s.accrued, bond_id, rate, holders, balances, s);
    lemma_accrue_closed_form(s.accrued, bond_id, rate, holders, balances, n);
    lemma_credited_total_monotone(rate, balances, 0, n);
    lemma_credited_count_bound(rate, balances, n);
    let s2 = distribution_outcome(
        s,
        caller,
        bond_id,
        period_index,
        holders,
        report_id,
        report,
        total_subscribed,
        balances,
        nonce,
    )->Ok_0.0;
    let acc2 = accrue(s.accrued, bond_id, rate, holders, balances, n);
    assert(s2.accrued == acc2);
    assert(credits_in(acc2, bond_id, who) == credits_in(s.accrued, bond_id, who) + credited_to(
        rate,
        holders,
        balances,
        who,
        n,
    ));
    if other_bond != bond_id {
        assert(credits_in(acc2, other_bond, who) == credits_in(s.accrued, other_bond, who));
    }
}

proof fn lemma_no_truncation(
    acc: Map<(u64, Seq<u8>), i128>,
    bond_id: u64,
    rate: int,
    holders: Seq<Seq<u8>>,
    balances: Seq<i128>,
    s: EngineState,
)
    requires
        acc == s.accrued,
        rate >= 0,
        !crediting_aborts(s, bond_id, rate, holders, balances),
        credited_total(rate, balances, balances.len()) <= i128::MAX,
    ensures
        forall|k: int|
            0 <= k < balances.len() && share_of(rate, #[trigger] balances[k] as int) > 0 ==> credits_in(
                accrue(acc, bond_id, rate, holders, balances, k as nat),
                bond_id,
                holders[k],
            ) + share_of(rate, balances[k] as int) <= i128::MAX,
{
    assert forall|k: int|
        0 <= k < balances.len() && share_of(rate, #[trigger] balances[k] as int) > 0 implies credits_in(
        accrue(acc, bond_id, rate, holders, balances, k as nat),
        bond_id,
        holders[k],
    ) + share_of(rate, balances[k] as int) <= i128::MAX by {
        lemma_credited_total_monotone(rate, balances, (k + 1) as nat, balances.len());
    }
}

/// No holder ever has negative accrued credits.
pub open spec fn credits_nonnegative(s: EngineState) -> bool {
    forall|key: (u64, Seq<u8>)| #[trigger] s.accrued.contains_key(key) ==> s.accrued[key] >= 0
}

/// Every accepted request keeps accrued credits non-negative.
pub proof fn lemma_credits_stay_nonnegative(
    s: EngineState,
    caller: Seq<u8>,
    bond_id: u64,
    project_id: [u8; 32],
    period_index: u32,
    holders: Seq<Seq<u8>>,
    report_id: u64,
    report: Report,
    total_subscribed: i128,
    balances: Seq<i128>,
    nonce: u64,
)
    requires
        credits_nonnegative(s),
    ensures
        register_outcome(s, caller, bond_id, project_id, nonce) is Ok ==> credits_nonnegative(
            register_outcome(s, caller, bond_id, project_id, nonce)->Ok_0,
        ),
        claim_outcome(s, caller, bond_id, nonce) is Ok ==> credits_nonnegative(
            claim_outcome(s, caller, bond_id, nonce)->Ok_0.0,
        ),
        holders.len() == balances.len() && !distribution_aborts(
            s,
            caller,
            bond_id,
            period_index,
            holders,
            report,
            total_subscribed,
            balances,
            nonce,
        ) && distribution_outcome(
            s,
            caller,
            bond_id,
            period_index,
            holders,
            report_id,
            report,
            total_subscribed,
            balances,
            nonce,
        ) is Ok ==> credits_nonnegative(
            distribution_outcome(
                s,
                caller,
                bond_id,
                period_index,
                holders,
                report_id,
                report,
                total_subscribed,
                balances,
                nonce,
            )->Ok_0.0,
        ),
{
    if holders.len() == balances.len() && !distribution_aborts(
        s,
        caller,
        bond_id,
        period_index,
        holders,
        report,
        total_subscribed,
        balances,
        nonce,
    ) && distribution_outcome(
        s,
        caller,
        bond_id,
        period_index,
        holders,
        report_id,
        report,
        total_subscribed,
        balances,
        nonce,
    ) is Ok {
        let s2 = distribution_outcome(
            s,
            caller,
            bond_id,
            period_index,
            holders,
            report_id,
            report,
            total_subscribed,
            balances,
            nonce,
        )->Ok_0.0;
        let rate = distribution_rate(report, total_subscribed);
        assert forall|key: (u64, Seq<u8>)| #[trigger] s2.accrued.contains_key(key) implies s2.accrued[key] >= 0 by {
            lemma_distribution_accrual(
                s,
                caller,
                bond_id,
                period_index,
                holders,
                report_id,
                report,
                total_subscribed,
                balances,
                nonce,
                key.1,
                key.0,
            );
            lemma_credited_to_nonnegative(rate, holders, balances, key.1, balances.len());
            assert(credits_in(s2.accrued, key.0, key.1) == s2.accrued[key]);
            if s.accrued.contains_key(key) {
                assert(credits_in(s.accrued, key.0, key.1) == s.accrued[key]);
            }
        }
    }
    if claim_outcome(s, caller, bond_id, nonce) is Ok {
        let s2 = claim_outcome(s, caller, bond_id, nonce)->Ok_0.0;
        assert forall|key: (u64, Seq<u8>)| #[trigger] s2.accrued.contains_key(key) implies s2.accrued[key] >= 0 by {
            if key != (bond_id, caller) {
                assert(s.accrued.contains_key(key));
            }
        }
    }
}

/// The report's whole credits: carbon divided by 1000, rounded toward zero.
proof fn lemma_whole_credits(carbon: i128)
    ensures
        carbon >= 0 ==> total_credits_of(carbon) == carbon / 1000,
        carbon < 1000 ==> total_credits_of(carbon) <= 0,
        carbon >= 1000 ==> total_credits_of(carbon) >= 1,
        total_credits_of(carbon) <= i128::MAX / 1000,
{
}

proof fn lemma_credited_positive_iff_counted(rate: int, balances: Seq<i128>, n: nat)
    requires
        rate >= 0,
        n <= balances.len(),
    ensures
        credited_total(rate, balances, n) > 0 <==> credited_count(rate, balances, n) > 0,
        credited_total(rate, balances, n) >= 0,
    decreases n,
{
    if n > 0 {
        lemma_credited_positive_iff_counted(rate, balances, (n - 1) as nat);
    }
}

/// A registration that presents the caller's nonce and comes from the administrator is always
/// accepted, and afterwards the bond is backed by exactly the project just given (replacing any
/// earlier one), while every other bond keeps its project.
pub proof fn lemma_register_backs_bond(
    s: EngineState,
    caller: Seq<u8>,
    bond_id: u64,
    project_id: [u8; 32],
    nonce: u64,
    other_bond: u64,
)
    ensures
        nonce == nonce_of(s, caller) && s.admin == Some(caller) ==> register_outcome(
            s,
            caller,
            bond_id,
            project_id,
            nonce,
        ) is Ok,
        register_outcome(s, caller, bond_id, project_id, nonce) is Ok ==> {
            let s2 = register_outcome(s, caller, bond_id, project_id, nonce)->Ok_0;
            &&& s2.bond_projects.contains_key(bond_id)
            &&& s2.bond_projects[bond_id] == project_id
            &&& other_bond != bond_id ==> s2.bond_projects.get(other_bond) == s.bond_projects.get(other_bond)
            &&& s2.accrued == s.accrued
            &&& s2.periods == s.periods
        },
{
}

/// A claim presenting the caller's current nonce is always accepted, whether or not anything
/// has accrued: it pays what had accrued (zero when nothing was ever credited), leaves zero,
/// advances the caller's nonce, and touches no other holder's credits.
pub proof fn lemma_claim_accepts_current_nonce(
    s: EngineState,
    caller: Seq<u8>,
    bond_id: u64,
    nonce: u64,
    other_bond: u64,
    other: Seq<u8>,
)
    requires
        nonce == nonce_of(s, caller),
        nonce < u64::MAX,
    ensures
        claim_outcome(s, caller, bond_id, nonce) is Ok,
        ({
            let (s2, amount) = claim_outcome(s, caller, bond_id, nonce)->Ok_0;
            &&& amount == accrued_of(s, bond_id, caller)
            &&& !s.accrued.contains_key((bond_id, caller)) ==> amount == 0
            &&& accrued_of(s2, bond_id, caller) == 0
            &&& nonce_of(s2, caller) == nonce + 1
            &&& (other_bond, other) != (bond_id, caller) ==> accrued_of(s2, other_bond, other) == accrued_of(
                s,
                other_bond,
                other,
            )
        }),
{
    let s2 = claim_outcome(s, caller, bond_id, nonce)->Ok_0.0;
    if (other_bond, other) != (bond_id, caller) {
        assert(s2.accrued.get((other_bond, other)) == s.accrued.get((other_bond, other)));
    }
}

/// What an accepted distribution answers and records, in terms of the request:
/// - the result names the requested bond and period;
/// - the rate is `(carbon / 1000) * FIXED_POINT / total_subscribed` when at least one whole
///   credit was earned and something is subscribed, and zero otherwise;
/// - the result's total is never negative, and is positive exactly when some holder was counted;
/// - the period record is a distributed record of this period with the report's dates and id,
///   and its credits are exactly the credits handed out;
/// - the bond's period count goes up by one and the caller's nonce advances;
/// - the bond's undistributed credits grow by exactly what the report earned beyond what was
///   handed out (nothing when the holders got at least that), so that handed-out plus newly
///   undistributed credits make up the whole credits; other bonds' undistributed credits stay.
pub proof fn lemma_distribution_result(
    s: EngineState,
    caller: Seq<u8>,
    bond_id: u64,
    period_index: u32,
    holders: Seq<Seq<u8>>,
    report_id: u64,
    report: Report,
    total_subscribed: i128,
    balances: Seq<i128>,
    nonce: u64,
    other_bond: u64,
)
    requires
        holders.len() == balances.len(),
        holders.len() <= u32::MAX,
        !distribution_aborts(s, caller, bond_id, period_index, holders, report, total_subscribed, balances, nonce),
        distribution_outcome(
            s,
            caller,
            bond_id,
            period_index,
            holders,
            report_id,
            report,
            total_subscribed,
            balances,
            nonce,
        ) is Ok,
    ensures
        ({
            let (s2, res) = distribution_outcome(
                s,
                caller,
                bond_id,
                period_index,
                holders,
                report_id,
                report,
                total_subscribed,
                balances,
                nonce,
            )->Ok_0;
            let carbon = report.carbon_sequestered;
            let whole = total_credits_of(carbon);
            let info = s2.periods[(bond_id, period_index)];
            &&& res.bond_id == bond_id
            &&& res.period_index == period_index
            &&& carbon >= 1000 && total_subscribed > 0 ==> res.credits_per_token == (carbon / 1000)
                * FIXED_POINT / (total_subscribed as int)
            &&& carbon < 1000 || total_subscribed <= 0 ==> res.credits_per_token == 0
            &&& res.total_credits == pro_rata_total(res.credits_per_token as int, balances, balances.len())
            &&& res.holder_count == pro_rata_count(res.credits_per_token as int, balances, balances.len())
            &&& res.total_credits >= 0
            &&& res.total_credits > 0 <==> res.holder_count > 0
            &&& res.holder_count <= holders.len()
            &&& s2.periods.contains_key((bond_id, period_index))
            &&& info.period_index == period_index
            &&& info.distributed
            &&& info.start_time == report.period_start
            &&& info.end_time == report.period_end
            &&& info.report_id == report_id
            &&& info.total_credits_earned == res.total_credits
            &&& period_count_of(s2, bond_id) == period_count_of(s, bond_id) + 1
            &&& nonce_of(s2, caller) == nonce + 1
            &&& carbon >= 0 ==> undistributed_of(s2, bond_id) == undistributed_of(s, bond_id) + if carbon
                / 1000 > res.total_credits {
                carbon / 1000 - res.total_credits
            } else {
                0
            }
            &&& carbon < 0 ==> undistributed_of(s2, bond_id) == undistributed_of(s, bond_id)
            &&& whole >= res.total_credits ==> res.total_credits + (undistributed_of(s2, bond_id)
                - undistributed_of(s, bond_id)) == whole
            &&& other_bond != bond_id ==> undistributed_of(s2, other_bond) == undistributed_of(s, other_bond)
            &&& s2.bond_projects == s.bond_projects
        }),
{
    let rate = distribution_rate(report, total_subscribed);
    let n = balances.len();
    let whole = total_credits_of(report.carbon_sequestered);
    lemma_whole_credits(report.carbon_sequestered);
    lemma_rate_nonnegative(whole, total_subscribed as int);
    lemma_credited_positive_iff_counted(rate, balances, n);
    lemma_credited_count_bound(rate, balances, n);
    lemma_pro_rata_matches(rate, balances, n);
    assert(request_refusal(s, caller, bond_id, nonce) is None);
    assert(report_refusal(s, bond_id, period_index, report) is None);
    assert(credited_total(rate, balances, n) <= i128::MAX);
    if whole > 0 && total_subscribed > 0 {
        assert(whole * FIXED_POINT <= i128::MAX);
        assert(rate <= whole * FIXED_POINT) by (nonlinear_arith)
            requires
                rate == whole * FIXED_POINT / (total_subscribed as int),
                whole * FIXED_POINT >= 0,
                total_subscribed >= 1,
        ;
    }
    let s2 = distribution_outcome(
        s,
        caller,
        bond_id,
        period_index,
        holders,
        report_id,
        report,
        total_subscribed,
        balances,
        nonce,
    )->Ok_0.0;
    if other_bond != bond_id {
        assert(s2.undistributed.get(other_bond) == s.undistributed.get(other_bond));
    }
}

/// A sweep by the administrator presenting the current nonce is always accepted; an accepted
/// sweep comes from the administrator, hands over exactly the bond's undistributed credits,
/// leaves zero there, advances the nonce, and touches nothing else: other bonds' undistributed
/// credits, accrued credits and period records stay as they were.
pub proof fn lemma_sweep_takes_undistributed(
    s: EngineState,
    caller: Seq<u8>,
    bond_id: u64,
    nonce: u64,
    other_bond: u64,
)
    requires
        nonce < u64::MAX,
    ensures
        nonce == nonce_of(s, caller) && s.admin == Some(caller) ==> sweep_outcome(s, caller, bond_id, nonce) is Ok,
        sweep_outcome(s, caller, bond_id, nonce) is Ok ==> {
            let (s2, amount) = sweep_outcome(s, caller, bond_id, nonce)->Ok_0;
            &&& s.admin == Some(caller)
            &&& nonce == nonce_of(s, caller)
            &&& amount == undistributed_of(s, bond_id)
            &&& undistributed_of(s2, bond_id) == 0
            &&& nonce_of(s2, caller) == nonce + 1
            &&& other_bond != bond_id ==> undistributed_of(s2, other_bond) == undistributed_of(s, other_bond)
            &&& s2.accrued == s.accrued
            &&& s2.periods == s.periods
            &&& s2.period_counts == s.period_counts
        },
{
    if sweep_outcome(s, caller, bond_id, nonce) is Ok {
        let s2 = sweep_outcome(s, caller, bond_id, nonce)->Ok_0.0;
        if other_bond != bond_id {
            assert(s2.undistributed.get(other_bond) == s.undistributed.get(other_bond));
        }
    }
}

/// The per-token rate of a distribution, from the report's carbon and the subscribed total.
pub open spec fn coupon_rate(carbon: i128, total_subscribed: i128) -> int {
    if carbon >= 1000 && total_subscribed > 0 {
        (carbon / 1000) * FIXED_POINT / (total_subscribed as int)
    } else {
        0
    }
}

/// Every refusal of a distribution has its reason in the request, the report or the state:
/// a stale nonce, a caller other than the administrator, a missing administrator or oracle,
/// an unregistered bond or a report on another project, an unverified report, or a period
/// already distributed or credits beyond `i128`. Conversely, a request with none of these
/// reasons is accepted.
pub proof fn lemma_distribution_refusals(
    s: EngineState,
    caller: Seq<u8>,
    bond_id: u64,
    period_index: u32,
    holders: Seq<Seq<u8>>,
    report_id: u64,
    report: Report,
    total_subscribed: i128,
    balances: Seq<i128>,
    nonce: u64,
)
    ensures
        ({
            let out = distribution_outcome(
                s,
                caller,
                bond_id,
                period_index,
                holders,
                report_id,
                report,
                total_subscribed,
                balances,
                nonce,
            );
            let distributed = s.periods.contains_key((bond_id, period_index)) && s.periods[(
                bond_id,
                period_index,
            )].distributed;
            let too_much = pro_rata_total(
                coupon_rate(report.carbon_sequestered, total_subscribed),
                balances,
                balances.len(),
            ) > i128::MAX;
            &&& out == Err::<(EngineState, crate::types::CouponResult), BondError>(BondError::InvalidNonce)
                ==> nonce != nonce_of(s, caller)
            &&& out == Err::<(EngineState, crate::types::CouponResult), BondError>(BondError::Unauthorized)
                ==> s.admin is Some && s.admin != Some(caller)
            &&& out == Err::<(EngineState, crate::types::CouponResult), BondError>(BondError::NotInitialized)
                ==> s.admin is None || s.oracle_consumer is None
            &&& out == Err::<(EngineState, crate::types::CouponResult), BondError>(BondError::BondNotFound)
                ==> !s.bond_projects.contains_key(bond_id) || report.project_id != s.bond_projects[bond_id]
            &&& out == Err::<(EngineState, crate::types::CouponResult), BondError>(
                BondError::ReportNotVerified,
            ) ==> report.status != ReportStatus::Verified
            &&& out == Err::<(EngineState, crate::types::CouponResult), BondError>(BondError::Overflow)
                ==> distributed || too_much
            &&& nonce == nonce_of(s, caller) && s.admin == Some(caller) && s.oracle_consumer is Some
                && s.bond_projects.contains_key(bond_id) && report.project_id == s.bond_projects[bond_id]
                && report.status == ReportStatus::Verified && !distributed && !too_much ==> out is Ok
        }),
{
    let rate = distribution_rate(report, total_subscribed);
    lemma_whole_credits(report.carbon_sequestered);
    assert(rate == coupon_rate(report.carbon_sequestered, total_subscribed));
    lemma_pro_rata_matches(rate, balances, balances.len());
}

/// A registration is refused only for a stale nonce, a missing administrator or a caller other
/// than the administrator, with exactly that error.
pub proof fn lemma_register_refusals(
    s: EngineState,
    caller: Seq<u8>,
    bond_id: u64,
    project_id: [u8; 32],
    nonce: u64,
)
    ensures
        nonce != nonce_of(s, caller) ==> register_outcome(s, caller, bond_id, project_id, nonce) == Err::<
            EngineState,
            BondError,
        >(BondError::InvalidNonce),
        nonce == nonce_of(s, caller) && s.admin is None ==> register_outcome(s, caller, bond_id, project_id, nonce)
            == Err::<EngineState, BondError>(BondError::NotInitialized),
        nonce == nonce_of(s, caller) && s.admin is Some && s.admin != Some(caller) ==> register_outcome(
            s,
            caller,
            bond_id,
            project_id,
            nonce,
        ) == Err::<EngineState, BondError>(BondError::Unauthorized),
{
}

} // verus!