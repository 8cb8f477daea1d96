//! The coupon engine: bond registration, coupon distribution and credit claims.
use vstd::prelude::*;

use crate::address::Address;
use crate::distribution::{
    credits_per_token, lemma_credited_count_bound, lemma_credited_total_monotone,
    lemma_no_abort_after_overflow, lemma_share_nonnegative, CreditTally,
};
use crate::model::{
    accrue, accrued_of, claim_outcome, credited_count, credited_total, crediting_aborts, distribution_aborts,
    distribution_outcome, initial_state, nonce_exhausted, nonce_of, period_count_of, register_outcome,
    report_refusal, request_refusal, share_of, credits_in, total_credits_of, with_nonce,
    sweep_outcome, undistributed_of, EngineState,
};
use crate::table::Table;
use crate::types::{is_verified, same_project, BondError, CouponResult, PeriodInfo, Report};
use crate::FIXED_POINT;

verus! {

/// The addresses of a list of holders, as strkey texts.
pub open spec fn addresses_view(v: Seq<Address>) -> Seq<Seq<u8>> {
    v.map_values(|a: Address| a@)
}

/// How crediting the listed holders ends: it aborts, its total overflows, or it yields the
/// final tally and the accrued credits with every share added.
enum CreditRun {
    Aborts,
    Overflows,
    Credited(CreditTally, Table<(u64, Address), i128>),
}

/// An optional address as an optional strkey text.
pub open spec fn address_opt_view(a: Option<Address>) -> Option<Seq<u8>> {
    match a {
        Some(x) => Some(x@),
        None => None,
    }
}

/// The coupon engine's storage: instance entries (administrator, bond issuer, oracle consumer,
/// precision) and tables (nonces, bond projects, periods, period counts, accrued credits,
/// undistributed credits).
pub struct CouponEngine {
    pub admin: Option<Address>,
    pub bond_issuer: Option<Address>,
    pub oracle_consumer: Option<Address>,
    pub precision: Option<i128>,
    pub nonces: Table<Address, u64>,
    pub bond_projects: Table<u64, [u8; 32]>,
    pub periods: Table<(u64, u32), PeriodInfo>,
    pub period_counts: Table<u64, u32>,
    pub accrued: Table<(u64, Address), i128>,
    pub undistributed: Table<u64, i128>,
}

impl View for CouponEngine {
    type V = EngineState;

    open spec fn view(&self) -> EngineState {
        EngineState {
            admin: address_opt_view(self.admin),
            bond_issuer: address_opt_view(self.bond_issuer),
            oracle_consumer: address_opt_view(self.oracle_consumer),
            precision: self.precision,
            nonces: self.nonces@,
            bond_projects: self.bond_projects@,
            periods: self.periods@,
            period_counts: self.period_counts@,
            accrued: self.accrued@,
            undistributed: self.undistributed@,
        }
    }
}

impl CouponEngine {
    /// Every table holds each key at most once.
    pub open spec fn wf(&self) -> bool {
        &&& self.nonces.wf()
        &&& self.bond_projects.wf()
        &&& self.periods.wf()
        &&& self.period_counts.wf()
        &&& self.accrued.wf()
        &&& self.undistributed.wf()
    }

    /// Sets up the engine with its administrator, bond issuer and oracle consumer.
    pub fn new(admin: Address, bond_issuer: Address, oracle_consumer: Address) -> (e: CouponEngine)
        ensures
            e.wf(),
            e@ == initial_state(admin@, bond_issuer@, oracle_consumer@),
    {
        let e = CouponEngine {
            admin: Some(admin),
            bond_issuer: Some(bond_issuer),
            oracle_consumer: Some(oracle_consumer),
            precision: Some(FIXED_POINT),
            nonces: Table::new(),
            bond_projects: Table::new(),
            periods: Table::new(),
            period_counts: Table::new(),
            accrued: Table::new(),
            undistributed: Table::new(),
        };
        assert(e@ =~= initial_state(admin@, bond_issuer@, oracle_consumer@));
        e
    }

    /// The nonce that `addr` must present next.
    pub fn get_nonce(&self, addr: &Address) -> (n: u64)
        requires
            self.wf(),
        ensures
            n == nonce_of(self@, addr@),
    {
        match self.nonces.get(addr) {
            Some(n) => n,
            None => 0,
        }
    }

    fn set_nonce(&mut self, addr: &Address, nonce: u64)
        requires
            old(self).wf(),
        ensures
            final(self).wf(),
            final(self)@ == with_nonce(old(self)@, addr@, nonce),
    {
        self.nonces.set(addr.duplicate(), nonce);
        assert(self@ =~= with_nonce(old(self)@, addr@, nonce));
    }

    fn require_admin(&self, caller: &Address) -> (r: Result<(), BondError>)
        ensures
            r == match self@.admin {
                None => Err(BondError::NotInitialized),
                Some(a) => if a == caller@ {
                    Ok(())
                } else {
                    Err(BondError::Unauthorized)
                },
            },
    {
        match &self.admin {
            None => Err(BondError::NotInitialized),
            Some(a) => if caller.same_as(a) {
                Ok(())
            } else {
                Err(BondError::Unauthorized)
            },
        }
    }

    /// Registers bond `bond_id` as backed by project `project_id`; only the administrator may.
    pub fn register_bond(&mut self, caller: &Address, bond_id: u64, project_id: [u8; 32], nonce: u64) -> (r:
        Result<(), BondError>)
        requires
            old(self).wf(),
            !nonce_exhausted(old(self)@, caller@, nonce),
        ensures
            final(self).wf(),
            match register_outcome(old(self)@, caller@, bond_id, project_id, nonce) {
                Ok(s) => r == Ok::<(), BondError>(()) && final(self)@ == s,
                Err(e) => r == Err::<(), BondError>(e) && final(self)@ == old(self)@,
            },
    {
        let expected = self.get_nonce(caller);
        if nonce != expected {
            return Err(BondError::InvalidNonce);
        }
        match self.require_admin(caller) {
            Err(e) => {
                return Err(e);
            },
            Ok(()) => {},
        }
        self.set_nonce(caller, expected + 1);
        self.bond_projects.set(bond_id, project_id);
        assert(self@ =~= register_outcome(old(self)@, caller@, bond_id, project_id, nonce)->Ok_0);
        Ok(())
    }

    /// Credits accrued by `holder` on bond `bond_id` and not yet claimed.
    pub fn accrued_credits(&self, bond_id: u64, holder: &Address) -> (c: i128)
        requires
            self.wf(),
        ensures
            c == accrued_of(self@, bond_id, holder@),
    {
        match self.accrued.get(&(bond_id, holder.duplicate())) {
            Some(c) => c,
            None => 0,
        }
    }

    /// Hands the caller all credits accrued on bond `bond_id` and sets them to zero.
    pub fn claim_credits(&mut self, caller: &Address, bond_id: u64, nonce: u64) -> (r: Result<i128, BondError>)
        requires
            old(self).wf(),
            !nonce_exhausted(old(self)@, caller@, nonce),
        ensures
            final(self).wf(),
            match claim_outcome(old(self)@, caller@, bond_id, nonce) {
                Ok((s, amount)) => r == Ok::<i128, BondError>(amount) && final(self)@ == s,
                Err(e) => r == Err::<i128, BondError>(e) && final(self)@ == old(self)@,
            },
    {
        let expected = self.get_nonce(caller);
        if nonce != expected {
            return Err(BondError::InvalidNonce);
        }
        self.set_nonce(caller, expected + 1);
        let accrued = self.accrued_credits(bond_id, caller);
        self.accrued.set((bond_id, caller.duplicate()), 0);
        assert(self@ =~= claim_outcome(old(self)@, caller@, bond_id, nonce)->Ok_0.0);
        Ok(accrued)
    }

    /// What is recorded about period `period_index` of bond `bond_id`.
    pub fn get_period_info(&self, bond_id: u64, period_index: u32) -> (r: Result<PeriodInfo, BondError>)
        requires
            self.wf(),
        ensures
            r == match self@.periods.get((bond_id, period_index)) {
                Some(p) => Ok::<PeriodInfo, BondError>(p),
                None => Err(BondError::BondNotFound),
            },
    {
        match self.periods.get(&(bond_id, period_index)) {
            Some(p) => Ok(p),
            None => Err(BondError::BondNotFound),
        }
    }

    /// How many periods of bond `bond_id` have been distributed.
    pub fn get_period_count(&self, bond_id: u64) -> (c: u32)
        requires
            self.wf(),
        ensures
            c == period_count_of(self@, bond_id),
    {
        match self.period_counts.get(&bond_id) {
            Some(c) => c,
            None => 0,
        }
    }

    /// The checks of a distribution request that come before the oracle is asked for the report;
    /// on success, the oracle consumer to ask.
    pub fn request_report(&self, caller: &Address, bond_id: u64, nonce: u64) -> (r: Result<Address, BondError>)
        requires
            self.wf(),
        ensures
            match r {
                Ok(oracle) => request_refusal(self@, caller@, bond_id, nonce) is None
                    && self@.oracle_consumer == Some(oracle@),
                Err(e) => request_refusal(self@, caller@, bond_id, nonce) == Some(e),
            },
    {
        let expected = self.get_nonce(caller);
        if nonce != expected {
            return Err(BondError::InvalidNonce);
        }
        match self.require_admin(caller) {
            Err(e) => {
                return Err(e);
            },
            Ok(()) => {},
        }
        match self.bond_projects.get(&bond_id) {
            None => {
                return Err(BondError::BondNotFound);
            },
            Some(_) => {},
        }
        match &self.oracle_consumer {
            None => Err(BondError::NotInitialized),
            Some(o) => Ok(o.duplicate()),
        }
    }

    /// The checks of the report for period `period_index` of a registered bond; on success,
    /// the report's whole credits (sequestered carbon / 1000, rounded toward zero).
    pub fn accept_report(&self, bond_id: u64, period_index: u32, report: &Report) -> (r: Result<i128, BondError>)
        requires
            self.wf(),
            self@.bond_projects.contains_key(bond_id),
        ensures
            r == match report_refusal(self@, bond_id, period_index, *report) {
                Some(e) => Err::<i128, BondError>(e),
                None => Ok(total_credits_of(report.carbon_sequestered) as i128),
            },
    {
        if !is_verified(report.status) {
            return Err(BondError::ReportNotVerified);
        }
        let project = match self.bond_projects.get(&bond_id) {
            Some(p) => p,
            None => {
                return Err(BondError::BondNotFound);
            },
        };
        if !same_project(&report.project_id, &project) {
            return Err(BondError::BondNotFound);
        }
        match self.periods.get(&(bond_id, period_index)) {
            Some(info) => {
                if info.distributed {
                    return Err(BondError::Overflow);
                }
            },
            None => {},
        }
        Ok(report.carbon_sequestered / 1000)
    }

    /// Credits of bond `bond_id` that rounding left undistributed and that are not yet swept.
    pub fn get_undistributed_total(&self, bond_id: u64) -> (c: i128)
        requires
            self.wf(),
        ensures
            c == undistributed_of(self@, bond_id),
    {
        match self.undistributed.get(&bond_id) {
            Some(c) => c,
            None => 0,
        }
    }

    /// Hands the administrator the undistributed credits of bond `bond_id` and sets them to zero.
    pub fn sweep_undistributed(&mut self, caller: &Address, bond_id: u64, nonce: u64) -> (r: Result<
        i128,
        BondError,
    >)
        requires
            old(self).wf(),
            !nonce_exhausted(old(self)@, caller@, nonce),
        ensures
            final(self).wf(),
            match sweep_outcome(old(self)@, caller@, bond_id, nonce) {
                Ok((s, amount)) => r == Ok::<i128, BondError>(amount) && final(self)@ == s,
                Err(e) => r == Err::<i128, BondError>(e) && final(self)@ == old(self)@,
            },
    {
        let expected = self.get_nonce(caller);
        if nonce != expected {
            return Err(BondError::InvalidNonce);
        }
        match self.require_admin(caller) {
            Err(e) => {
                return Err(e);
            },
            Ok(()) => {},
        }
        self.set_nonce(caller, expected + 1);
        let amount = self.get_undistributed_total(bond_id);
        self.undistributed.set(bond_id, 0);
        assert(self@ =~= sweep_outcome(old(self)@, caller@, bond_id, nonce)->Ok_0.0);
        Ok(amount)
    }

    /// Credits the listed holders in order at rate `rate`, on a copy of the accrued credits.
    fn credit_holders(&self, bond_id: u64, holders: &Vec<Address>, balances: &Vec<i128>, rate: i128) -> (r:
        CreditRun)
        requires
            self.wf(),
            holders@.len() == balances@.len(),
            holders@.len() <= u32::MAX,
            rate >= 0,
        ensures
            match r {
                CreditRun::Aborts => crediting_aborts(
                    self@,
                    bond_id,
                    rate as int,
                    addresses_view(holders@),
                    balances@,
                ),
                CreditRun::Overflows => !crediting_aborts(
                    self@,
                    bond_id,
                    rate as int,
                    addresses_view(holders@),
                    balances@,
                ) && credited_total(rate as int, balances@, balances@.len()) > i128::MAX,
                CreditRun::Credited(tally, credited) => {
                    &&& !crediting_aborts(self@, bond_id, rate as int, addresses_view(holders@), balances@)
                    &&& tally.rate == rate
                    &&& tally.total == credited_total(rate as int, balances@, balances@.len())
                    &&& tally.count == credited_count(rate as int, balances@, balances@.len())
                    &&& credited.wf()
                    &&& credited@ == accrue(
                        self@.accrued,
                        bond_id,
                        rate as int,
                        addresses_view(holders@),
                        balances@,
                        balances@.len(),
                    )
                },
            },
    {
        let ghost s0 = self@;
        let ghost hv = addresses_view(holders@);
        let n = holders.len();
        let mut tally = CreditTally::new(rate);
        let mut credited = self.accrued.copy();
        let mut i: usize = 0;
        while i < n
            invariant
                n == holders@.len(),
                n == balances@.len(),
                n <= u32::MAX,
                i <= n,
                hv == addresses_view(holders@),
                self@ == s0,
                rate >= 0,
                tally.rate == rate,
                tally.total == credited_total(rate as int, balances@, i as nat),
                tally.count == credited_count(rate as int, balances@, i as nat),
                credited.wf(),
                credited@ == accrue(s0.accrued, bond_id, rate as int, hv, balances@, i as nat),
                forall|k: int|
                    0 <= k < i ==> !(credited_total(rate as int, balances@, k as nat) <= i128::MAX
                        && #[trigger] balances@[k] > 0 && rate * balances@[k] > i128::MAX),
                forall|k: int|
                    0 <= k < i ==> !(credited_total(rate as int, balances@, (k + 1) as nat) <= i128::MAX
                        && share_of(rate as int, #[trigger] balances@[k] as int) > 0 && credits_in(
                        accrue(s0.accrued, bond_id, rate as int, hv, balances@, k as nat),
                        bond_id,
                        hv[k],
                    ) + share_of(rate as int, balances@[k] as int) > i128::MAX),
            decreases n - i,
        {
            let balance = balances[i];
            proof {
                lemma_share_nonnegative(rate as int, balance as int);
                lemma_credited_count_bound(rate as int, balances@, i as nat);
                assert(balances@[i as int] == balance);
            }
            if balance > 0 {
                match rate.checked_mul(balance) {
                    None => {
                        return CreditRun::Aborts;
                    },
                    Some(_) => {},
                }
            }
            match tally.add(balance) {
                Err(_) => {
                    proof {
                        lemma_no_abort_after_overflow(s0, bond_id, rate as int, hv, balances@, i as nat);
                    }
                    return CreditRun::Overflows;
                },
                Ok(c) => {
                    if c > 0 {
                        let key = (bond_id, holders[i].duplicate());
                        let acc = match credited.get(&key) {
                            Some(a) => a,
                            None => 0,
                        };
                        proof {
                            assert(hv[i as int] == holders@[i as int]@);
                        }
                        match acc.checked_add(c) {
                            None => {
                                return CreditRun::Aborts;
                            },
                            Some(v) => {
                                credited.set(key, v);
                            },
                        }
                    }
                },
            }
            i = i + 1;
        }
        CreditRun::Credited(tally, credited)
    }

    /// Whether a distribution request with these answers from the oracle consumer and the bond
    /// issuer aborts instead of answering (see [`distribution_aborts`]).
    pub fn distribution_would_abort(
        &self,
        caller: &Address,
        bond_id: u64,
        period_index: u32,
        holders: &Vec<Address>,
        nonce: u64,
        report: &Report,
        total_subscribed: i128,
        balances: &Vec<i128>,
    ) -> (r: bool)
        requires
            self.wf(),
            holders@.len() == balances@.len(),
            holders@.len() <= u32::MAX,
        ensures
            r == distribution_aborts(
                self@,
                caller@,
                bond_id,
                period_index,
                addresses_view(holders@),
                *report,
                total_subscribed,
                balances@,
                nonce,
            ),
    {
        if nonce == u64::MAX && self.get_nonce(caller) == nonce {
            return true;
        }
        match self.request_report(caller, bond_id, nonce) {
            Err(_) => {
                return false;
            },
            Ok(_) => {},
        }
        let total_credits = match self.accept_report(bond_id, period_index, report) {
            Err(_) => {
                return false;
            },
            Ok(t) => t,
        };
        match &self.bond_issuer {
            None => {
                return true;
            },
            Some(_) => {},
        }
        if total_subscribed > 0 && total_credits > 0 {
            match total_credits.checked_mul(FIXED_POINT) {
                None => {
                    return true;
                },
                Some(_) => {},
            }
        }
        let rate = credits_per_token(total_credits, total_subscribed);
        match self.credit_holders(bond_id, holders, balances, rate) {
            CreditRun::Aborts => true,
            CreditRun::Overflows => false,
            CreditRun::Credited(tally, _) => {
                proof {
                    lemma_credited_total_monotone(rate as int, balances@, 0, balances@.len());
                }
                if self.get_period_count(bond_id) == u32::MAX {
                    return true;
                }
                let remainder = if total_credits > tally.total {
                    total_credits - tally.total
                } else {
                    0
                };
                self.get_undistributed_total(bond_id).checked_add(remainder).is_none()
            },
        }
    }

    /// Distributes the credits of a verified report over the listed holders, pro rata to their
    /// balances, records the period, and adds what rounding left over to the bond's undistributed
    /// credits. `report` is what the oracle consumer returns for `report_id`, `total_subscribed`
    /// what the bond issuer returns for the bond, and `balances[i]` the bond issuer's balance of
    /// `holders[i]`.
    #[verifier::rlimit(60)]
    pub fn distribute_coupon(
        &mut self,
        caller: &Address,
        bond_id: u64,
        period_index: u32,
        holders: &Vec<Address>,
        report_id: u64,
        nonce: u64,
        report: &Report,
        total_subscribed: i128,
        balances: &Vec<i128>,
    ) -> (r: Result<CouponResult, BondError>)
        requires
            old(self).wf(),
            holders@.len() == balances@.len(),
            holders@.len() <= u32::MAX,
            !distribution_aborts(
                old(self)@,
                caller@,
                bond_id,
                period_index,
                addresses_view(holders@),
                *report,
                total_subscribed,
                balances@,
                nonce,
            ),
        ensures
            final(self).wf(),
            match distribution_outcome(
                old(self)@,
                caller@,
                bond_id,
                period_index,
                addresses_view(holders@),
                report_id,
                *report,
                total_subscribed,
                balances@,
                nonce,
            ) {
                Ok((s, res)) => r == Ok::<CouponResult, BondError>(res) && final(self)@ == s,
                Err(e) => r == Err::<CouponResult, BondError>(e) && final(self)@ == old(self)@,
            },
    {
        let ghost s0 = self@;
        let ghost hv = addresses_view(holders@);
        match self.request_report(caller, bond_id, nonce) {
            Err(e) => {
                return Err(e);
            },
            Ok(_) => {},
        }
        let total_credits = match self.accept_report(bond_id, period_index, report) {
            Err(e) => {
                return Err(e);
            },
            Ok(t) => t,
        };
        let rate = credits_per_token(total_credits, total_subscribed);
        let (tally, credited) = match self.credit_holders(bond_id, holders, balances, rate) {
            CreditRun::Aborts => {
                return Err(BondError::Overflow);
            },
            CreditRun::Overflows => {
                return Err(BondError::Overflow);
            },
            CreditRun::Credited(tally, credited) => (tally, credited),
        };
        proof {
            lemma_credited_total_monotone(rate as int, balances@, 0, balances@.len());
        }
        let remainder = if total_credits > tally.total {
            total_credits - tally.total
        } else {
            0
        };
        let left = self.get_undistributed_total(bond_id);
        self.set_nonce(caller, nonce + 1);
        self.accrued = credited;
        let info = PeriodInfo {
            period_index,
            start_time: report.period_start,
            end_time: report.period_end,
            total_credits_earned: tally.total,
            distributed: true,
            report_id,
        };
        self.periods.set((bond_id, period_index), info);
        let count = self.get_period_count(bond_id);
        self.period_counts.set(bond_id, count + 1);
        self.undistributed.set(bond_id, left + remainder);
        assert(self@ =~= distribution_outcome(
            s0,
            caller@,
            bond_id,
            period_index,
            hv,
            report_id,
            *report,
            total_subscribed,
            balances@,
            nonce,
        )->Ok_0.0);
        Ok(
            CouponResult {
                bond_id,
                period_index,
                total_credits: tally.total,
                holder_count: tally.count,
                credits_per_token: rate,
            },
        )
    }
}

} // verus!
