//! Pro-rata arithmetic of a coupon: the per-token rate and each holder's share.
use vstd::prelude::*;

use crate::model::{
    accrue, credited_count, credited_total, credits_in, crediting_aborts, rate_of, rate_overflows, share_of,
    EngineState,
};
use crate::types::BondError;
use crate::FIXED_POINT;

verus! {

/// Credits per bond token, in fixed point: `total_credits * FIXED_POINT / total_subscribed`
/// when both are positive, else zero.
pub fn credits_per_token(total_credits: i128, total_subscribed: i128) -> (r: i128)
    requires
        !rate_overflows(total_credits as int, total_subscribed as int),
    ensures
        r == rate_of(total_credits as int, total_subscribed as int),
        r >= 0,
{
    if total_subscribed > 0 && total_credits > 0 {
        let scaled = total_credits * FIXED_POINT;
        proof {
            vstd::arithmetic::div_mod::lemma_div_pos_is_pos(scaled as int, total_subscribed as int);
            vstd::arithmetic::div_mod::lemma_div_is_ordered_by_denominator(scaled as int, 1, total_subscribed as int);
        }
        scaled / total_subscribed
    } else {
        0
    }
}

/// The rate is never negative.
pub proof fn lemma_rate_nonnegative(total_credits: int, total_subscribed: int)
    ensures
        rate_of(total_credits, total_subscribed) >= 0,
{
    if total_subscribed > 0 && total_credits > 0 {
        let x = total_credits * FIXED_POINT;
        assert(x / total_subscribed >= 0) by (nonlinear_arith)
            requires
                x > 0,
                total_subscribed > 0,
        ;
    }
}

/// A share is never negative when the rate is not.
pub proof fn lemma_share_nonnegative(rate: int, balance: int)
    requires
        rate >= 0,
    ensures
        share_of(rate, balance) >= 0,
{
    if balance > 0 {
        assert(rate * balance >= 0) by (nonlinear_arith)
            requires
                rate >= 0,
                balance > 0,
        ;
    }
}

/// Crediting more holders never lowers the running total.
pub proof fn lemma_credited_total_monotone(rate: int, balances: Seq<i128>, a: nat, b: nat)
    requires
        rate >= 0,
        a <= b <= balances.len(),
    ensures
        credited_total(rate, balances, a) <= credited_total(rate, balances, b),
    decreases b,
{
    if a < b {
        lemma_credited_total_monotone(rate, balances, a, (b - 1) as nat);
    }
}

/// At most one holder is counted per balance.
pub proof fn lemma_credited_count_bound(rate: int, balances: Seq<i128>, n: nat)
    requires
        n <= balances.len(),
    ensures
        credited_count(rate, balances, n) <= n,
    decreases n,
{
    if n > 0 {
        lemma_credited_count_bound(rate, balances, (n - 1) as nat);
    }
}

/// Once the running total has passed `i128::MAX` at holder `i`, no later holder can make the
/// crediting loop abort: the loop has already stopped with `Overflow`.
pub proof fn lemma_no_abort_after_overflow(
    s: EngineState,
    bond_id: u64,
    rate: int,
    holders: Seq<Seq<u8>>,
    balances: Seq<i128>,
    i: nat,
)
    requires
        rate >= 0,
        i < balances.len(),
        credited_total(rate, balances, (i + 1) as nat) > i128::MAX,
        balances[i as int] > 0 ==> rate * balances[i as int] <= i128::MAX,
        forall|k: int|
            0 <= k < i ==> !(credited_total(rate, balances, k as nat) <= i128::MAX && #[trigger] balances[k]
                > 0 && rate * balances[k] > i128::MAX),
        forall|k: int|
            0 <= k < i ==> !(credited_total(rate, balances, (k + 1) as nat) <= i128::MAX && share_of(
                rate,
                #[trigger] balances[k] as int,
            ) > 0 && credits_in(accrue(s.accrued, bond_id, rate, holders, balances, k as nat), bond_id, holders[k])
                + share_of(rate, balances[k] as int) > i128::MAX),
    ensures
        !crediting_aborts(s, bond_id, rate, holders, balances),
        credited_total(rate, balances, balances.len()) > i128::MAX,
{
    lemma_credited_total_monotone(rate, balances, (i + 1) as nat, balances.len());
    assert forall|k: int| 0 <= k < balances.len() implies !(credited_total(rate, balances, k as nat) <= i128::MAX
        && #[trigger] balances[k] > 0 && rate * balances[k] > i128::MAX) by {
        if k > i {
            lemma_credited_total_monotone(rate, balances, (i + 1) as nat, k as nat);
        }
    }
    assert forall|k: int| 0 <= k < balances.len() implies !(credited_total(rate, balances, (k + 1) as nat)
        <= i128::MAX && share_of(rate, #[trigger] balances[k] as int) > 0 && credits_in(
        accrue(s.accrued, bond_id, rate, holders, balances, k as nat),
        bond_id,
        holders[k],
    ) + share_of(rate, balances[k] as int) > i128::MAX) by {
        if k >= i {
            lemma_credited_total_monotone(rate, balances, (i + 1) as nat, (k + 1) as nat);
        }
    }
}

/// Running totals of one distribution: the rate, the credits handed out, and how many holders got some.
pub struct CreditTally {
    pub rate: i128,
    pub total: i128,
    pub count: u32,
}

impl CreditTally {
    /// A tally at rate `rate` with nothing handed out yet.
    pub fn new(rate: i128) -> (t: CreditTally)
        ensures
            t.rate == rate,
            t.total == 0,
            t.count == 0,
    {
        CreditTally { rate, total: 0, count: 0 }
    }

    /// Takes the next holder's balance and returns the holder's share; a share that would
    /// carry the total past `i128::MAX` is refused with `Overflow` and the tally is left as it was.
    pub fn add(&mut self, balance: i128) -> (r: Result<i128, BondError>)
        requires
            old(self).rate >= 0,
            balance > 0 ==> old(self).rate * balance <= i128::MAX,
            share_of(old(self).rate as int, balance as int) > 0 ==> old(self).count < u32::MAX,
        ensures
            final(self).rate == old(self).rate,
            ({
                let c = share_of(old(self).rate as int, balance as int);
                if c > 0 && old(self).total + c > i128::MAX {
                    &&& r == Err::<i128, BondError>(BondError::Overflow)
                    &&& final(self).total == old(self).total
                    &&& final(self).count == old(self).count
                } else {
                    &&& r == Ok::<i128, BondError>(c as i128)
                    &&& final(self).total == old(self).total + c
                    &&& final(self).count == old(self).count + if c > 0 {
                        1int
                    } else {
                        0int
                    }
                }
            }),
    {
        proof {
            lemma_share_nonnegative(self.rate as int, balance as int);
        }
        if balance > 0 {
            let product = self.rate * balance;
            let c = product / FIXED_POINT;
            if c > 0 {
                match self.total.checked_add(c) {
                    None => Err(BondError::Overflow),
                    Some(t) => {
                        self.total = t;
                        self.count = self.count + 1;
                        Ok(c)
                    },
                }
            } else {
                Ok(c)
            }
        } else {
            Ok(0)
        }
    }
}

} // verus!
