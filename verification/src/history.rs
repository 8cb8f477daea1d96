//! Sequences of requests: what the engine's state is after any history, and what holds
//! of every state reachable from the constructor.
use vstd::prelude::*;

use crate::laws::{credited_to, credits_nonnegative, lemma_credits_stay_nonnegative, lemma_distribution_accrual};
use crate::model::{
    accrued_of, claim_outcome, credited_total, distribution_aborts, distribution_outcome, distribution_rate,
    initial_state, nonce_exhausted, period_count_of, register_outcome, report_refusal, request_refusal,
    sweep_outcome, EngineState,
};
use crate::types::Report;

verus! {

/// A state-changing request, with the answers of the outside contracts that it used.
pub enum Request {
    Register { caller: Seq<u8>, bond_id: u64, project_id: [u8; 32], nonce: u64 },
    Distribute {
        caller: Seq<u8>,
        bond_id: u64,
        period_index: u32,
        holders: Seq<Seq<u8>>,
        report_id: u64,
        report: Report,
        total_subscribed: i128,
        balances: Seq<i128>,
        nonce: u64,
    },
    Claim { caller: Seq<u8>, bond_id: u64, nonce: u64 },
    Sweep { caller: Seq<u8>, bond_id: u64, nonce: u64 },
}

/// Whether a distribution request answers at all (it aborts otherwise, and the ledger
/// keeps the state it had).
pub open spec fn distribution_answers(
    s: EngineState,
    caller: Seq<u8>,
    bond_id: u64,
    period_index: u32,
    holders: Seq<Seq<u8>>,
    report: Report,
    total_subscribed: i128,
    balances: Seq<i128>,
    nonce: u64,
) -> bool {
    holders.len() == balances.len() && !distribution_aborts(
        s,
        caller,
        bond_id,
        period_index,
        holders,
        report,
        total_subscribed,
        balances,
        nonce,
    )
}

/// The state after one request: the accepted request's next state; the same state when the
/// request is refused or aborts.
pub open spec fn step(s: EngineState, r: Request) -> EngineState {
    match r {
        Request::Register { caller, bond_id, project_id, nonce } => {
            if nonce_exhausted(s, caller, nonce) {
                s
            } else {
                match register_outcome(s, caller, bond_id, project_id, nonce) {
                    Ok(s2) => s2,
                    Err(_) => s,
                }
            }
        },
        Request::Distribute {
            caller,
            bond_id,
            period_index,
            holders,
            report_id,
            report,
            total_subscribed,
            balances,
            nonce,
        } => {
            if !distribution_answers(
                s,
                caller,
                bond_id,
                period_index,
                holders,
                report,
                total_subscribed,
                balances,
                nonce,
            ) {
                s
            } else {
                match distribution_outcome(
                    s,
                    caller,
                    bond_id,
                    period_index,
                    holders,
                    report_id,
                    report,
                    total_subscribed,
                    balances,
                    nonce,
                ) {
                    Ok((s2, _)) => s2,
                    Err(_) => s,
                }
            }
        },
        Request::Claim { caller, bond_id, nonce } => {
            if nonce_exhausted(s, caller, nonce) {
                s
            } else {
                match claim_outcome(s, caller, bond_id, nonce) {
                    Ok((s2, _)) => s2,
                    Err(_) => s,
                }
            }
        },
        Request::Sweep { caller, bond_id, nonce } => {
            if nonce_exhausted(s, caller, nonce) {
                s
            } else {
                match sweep_outcome(s, caller, bond_id, nonce) {
                    Ok((s2, _)) => s2,
                    Err(_) => s,
                }
            }
        },
    }
}

/// The state after the requests `reqs`, in order, starting from `s`.
pub open spec fn run(s: EngineState, reqs: Seq<Request>) -> EngineState
    decreases reqs.len(),
{
    if reqs.len() == 0 {
        s
    } else {
        step(run(s, reqs.drop_last()), reqs.last())
    }
}

/// The credits that request `r` pays out to `who` on bond `bond_id`, in state `s`.
pub open spec fn paid(s: EngineState, r: Request, bond_id: u64, who: Seq<u8>) -> int {
    match r {
        Request::Claim { caller, bond_id: b, nonce } => {
            if caller == who && b == bond_id && !nonce_exhausted(s, caller, nonce) && claim_outcome(
                s,
                caller,
                b,
                nonce,
            ) is Ok {
                claim_outcome(s, caller, b, nonce)->Ok_0.1 as int
            } else {
                0
            }
        },
        _ => 0,
    }
}

/// The credits that request `r` grants to `who` on bond `bond_id`, in state `s`.
pub open spec fn granted(s: EngineState, r: Request, bond_id: u64, who: Seq<u8>) -> int {
    match r {
        Request::Distribute {
            caller,
            bond_id: b,
            period_index,
            holders,
            report_id,
            report,
            total_subscribed,
            balances,
            nonce,
        } => {
            if b == bond_id && distribution_answers(
                s,
                caller,
                b,
                period_index,
                holders,
                report,
                total_subscribed,
                balances,
                nonce,
            ) && distribution_outcome(
                s,
                caller,
                b,
                period_index,
                holders,
                report_id,
                report,
                total_subscribed,
                balances,
                nonce,
            ) is Ok {
                credited_to(distribution_rate(report, total_subscribed), holders, balances, who, balances.len())
            } else {
                0
            }
        },
        _ => 0,
    }
}

/// All credits paid out to `who` on bond `bond_id` over the requests `reqs` from `s`.
pub open spec fn total_paid(s: EngineState, reqs: Seq<Request>, bond_id: u64, who: Seq<u8>) -> int
    decreases reqs.len(),
{
    if reqs.len() == 0 {
        0
    } else {
        total_paid(s, reqs.drop_last(), bond_id, who) + paid(
            run(s, reqs.drop_last()),
            reqs.last(),
            bond_id,
            who,
        )
    }
}

/// All credits granted to `who` on bond `bond_id` over the requests `reqs` from `s`.
pub open spec fn total_granted(s: EngineState, reqs: Seq<Request>, bond_id: u64, who: Seq<u8>) -> int
    decreases reqs.len(),
{
    if reqs.len() == 0 {
        0
    } else {
        total_granted(s, reqs.drop_last(), bond_id, who) + granted(
            run(s, reqs.drop_last()),
            reqs.last(),
            bond_id,
            who,
        )
    }
}

proof fn lemma_step_conserves(s: EngineState, r: Request, bond_id: u64, who: Seq<u8>)
    ensures
        accrued_of(step(s, r), bond_id, who) + paid(s, r, bond_id, who) == accrued_of(s, bond_id, who)
            + granted(s, r, bond_id, who),
{
    match r {
        Request::Distribute {
            caller,
            bond_id: b,
            period_index,
            holders,
            report_id,
            report,
            total_subscribed,
            balances,
            nonce,
        } => {
            if distribution_answers(
                s,
                caller,
                b,
                period_index,
                holders,
                report,
                total_subscribed,
                balances,
                nonce,
            ) && distribution_outcome(
                s,
                caller,
                b,
                period_index,
                holders,
                report_id,
                report,
                total_subscribed,
                balances,
                nonce,
            ) is Ok {
                lemma_distribution_accrual(
                    s,
                    caller,
                    b,
                    period_index,
                    holders,
                    report_id,
                    report,
                    total_subscribed,
                    balances,
                    nonce,
                    who,
                    bond_id,
                );
            }
        },
        Request::Claim { caller, bond_id: b, nonce } => {
            if !nonce_exhausted(s, caller, nonce) && claim_outcome(s, caller, b, nonce) is Ok {
                let s2 = claim_outcome(s, caller, b, nonce)->Ok_0.0;
                if (b, caller) != (bond_id, who) {
                    assert(s2.accrued.get((bond_id, who)) == s.accrued.get((bond_id, who)));
                }
            }
        },
        _ => {},
    }
}

/// Credits are neither created nor lost: over any sequence of requests from any state, what
/// `who` holds accrued on a bond at the end plus what it claimed equals what it held at the
/// start plus what distributions granted it.
pub proof fn lemma_credits_conserved(s: EngineState, reqs: Seq<Request>, bond_id: u64, who: Seq<u8>)
    ensures
        accrued_of(run(s, reqs), bond_id, who) + total_paid(s, reqs, bond_id, who) == accrued_of(
            s,
            bond_id,
            who,
        ) + total_granted(s, reqs, bond_id, who),
    decreases reqs.len(),
{
    if reqs.len() > 0 {
        lemma_credits_conserved(s, reqs.drop_last(), bond_id, who);
        lemma_step_conserves(run(s, reqs.drop_last()), reqs.last(), bond_id, who);
    }
}

/// From the constructor on, what `who` claimed on a bond plus what it still holds accrued is
/// exactly what distributions granted it.
pub proof fn lemma_claimed_plus_accrued_is_granted(
    admin: Seq<u8>,
    bond_issuer: Seq<u8>,
    oracle_consumer: Seq<u8>,
    reqs: Seq<Request>,
    bond_id: u64,
    who: Seq<u8>,
)
    ensures
        ({
            let s0 = initial_state(admin, bond_issuer, oracle_consumer);
            total_paid(s0, reqs, bond_id, who) + accrued_of(run(s0, reqs), bond_id, who) == total_granted(
                s0,
                reqs,
                bond_id,
                who,
            )
        }),
{
    let s0 = initial_state(admin, bond_issuer, oracle_consumer);
    lemma_credits_conserved(s0, reqs, bond_id, who);
}

/// The periods of bond `bond_id` that have a record.
pub open spec fn periods_of(s: EngineState, bond_id: u64) -> Set<u32> {
    Set::new(|p: u32| s.periods.contains_key((bond_id, p)))
}

/// Each bond's period count is the number of its recorded periods.
pub open spec fn counts_match(s: EngineState) -> bool {
    forall|b: u64|
        #![trigger periods_of(s, b)]
        periods_of(s, b).finite() && period_count_of(s, b) == periods_of(s, b).len()
}

/// Every period record is a distributed record under its own index.
pub open spec fn records_distributed(s: EngineState) -> bool {
    forall|key: (u64, u32)|
        #[trigger] s.periods.contains_key(key) ==> s.periods[key].distributed && s.periods[key].period_index
            == key.1
}

/// What holds of every state reachable from the constructor: accrued credits are never
/// negative, every period record is a distributed record under its own index, and each bond's
/// period count is the number of its recorded periods.
pub open spec fn engine_invariant(s: EngineState) -> bool {
    &&& credits_nonnegative(s)
    &&& records_distributed(s)
    &&& counts_match(s)
}

proof fn lemma_counts_same(s: EngineState, s2: EngineState)
    requires
        counts_match(s),
        s2.periods == s.periods,
        s2.period_counts == s.period_counts,
    ensures
        counts_match(s2),
{
    assert forall|b: u64| #![trigger periods_of(s2, b)] periods_of(s2, b).finite() && period_count_of(s2, b) == periods_of(
        s2,
        b,
    ).len() by {
        assert(periods_of(s, b).finite());
        assert(periods_of(s2, b) =~= periods_of(s, b));
    }
}

proof fn lemma_counts_after_new_period(s: EngineState, s2: EngineState, bond_id: u64, period_index: u32)
    requires
        counts_match(s),
        !s.periods.contains_key((bond_id, period_index)),
        period_count_of(s, bond_id) < u32::MAX,
        s2.periods.dom() == s.periods.dom().insert((bond_id, period_index)),
        s2.period_counts == s.period_counts.insert(bond_id, (period_count_of(s, bond_id) + 1) as u32),
    ensures
        counts_match(s2),
{
    assert forall|b: u64| #![trigger periods_of(s2, b)] periods_of(s2, b).finite() && period_count_of(s2, b) == periods_of(
        s2,
        b,
    ).len() by {
        assert(periods_of(s, b).finite());
        if b == bond_id {
            assert(periods_of(s2, b) =~= periods_of(s, b).insert(period_index));
            assert(!periods_of(s, b).contains(period_index));
        } else {
            assert(periods_of(s2, b) =~= periods_of(s, b));
        }
    }
}

proof fn lemma_initial_invariant(admin: Seq<u8>, bond_issuer: Seq<u8>, oracle_consumer: Seq<u8>)
    ensures
        engine_invariant(initial_state(admin, bond_issuer, oracle_consumer)),
{
    let s0 = initial_state(admin, bond_issuer, oracle_consumer);
    assert forall|b: u64| #![trigger periods_of(s0, b)] periods_of(s0, b).finite() && period_count_of(s0, b) == periods_of(
        s0,
        b,
    ).len() by {
        assert(periods_of(s0, b) =~= Set::<u32>::empty());
    }
}

/// One request keeps the invariant and never changes an existing period record.
proof fn lemma_step_keeps(s: EngineState, r: Request)
    requires
        engine_invariant(s),
    ensures
        engine_invariant(step(s, r)),
        forall|key: (u64, u32)|
            #[trigger] s.periods.contains_key(key) ==> step(s, r).periods.contains_key(key) && step(
                s,
                r,
            ).periods[key] == s.periods[key],
{
    let s2 = step(s, r);
    match r {
        Request::Register { caller, bond_id, project_id, nonce } => {
            lemma_credits_stay_nonnegative(
                s,
                caller,
                bond_id,
                project_id,
                0,
                Seq::empty(),
                0,
                arbitrary(),
                0,
                Seq::empty(),
                nonce,
            );
            lemma_counts_same(s, s2);
        },
        Request::Claim { caller, bond_id, nonce } => {
            lemma_credits_stay_nonnegative(
                s,
                caller,
                bond_id,
                arbitrary(),
                0,
                Seq::empty(),
                0,
                arbitrary(),
                0,
                Seq::empty(),
                nonce,
            );
            lemma_counts_same(s, s2);
        },
        Request::Sweep { caller, bond_id, nonce } => {
            lemma_counts_same(s, s2);
        },
        Request::Distribute {
            caller,
            bond_id,
            period_index,
            holders,
            report_id,
            report,
            total_subscribed,
            balances,
            nonce,
        } => {
            if distribution_answers(
                s,
                caller,
                bond_id,
                period_index,
                holders,
                report,
                total_subscribed,
                balances,
                nonce,
            ) && distribution_outcome(
                s,
                caller,
                bond_id,
                period_index,
                holders,
                report_id,
                report,
                total_subscribed,
                balances,
                nonce,
            ) is Ok {
                lemma_credits_stay_nonnegative(
                    s,
                    caller,
                    bond_id,
                    arbitrary(),
                    period_index,
                    holders,
                    report_id,
                    report,
                    total_subscribed,
                    balances,
                    nonce,
                );
                let key = (bond_id, period_index);
                assert(request_refusal(s, caller, bond_id, nonce) is None);
                assert(report_refusal(s, bond_id, period_index, report) is None);
                assert(!s.periods.contains_key(key));
                let rate = distribution_rate(report, total_subscribed);
                assert(credited_total(rate, balances, balances.len()) <= i128::MAX);
                assert(period_count_of(s, bond_id) < u32::MAX);
                assert(s2.periods.dom() =~= s.periods.dom().insert(key));
                lemma_counts_after_new_period(s, s2, bond_id, period_index);
            } else {
                assert(s2 == s);
            }
        },
    }
}

/// Every state reachable from the constructor satisfies the invariant.
pub proof fn lemma_reachable_invariant(
    admin: Seq<u8>,
    bond_issuer: Seq<u8>,
    oracle_consumer: Seq<u8>,
    reqs: Seq<Request>,
)
    ensures
        engine_invariant(run(initial_state(admin, bond_issuer, oracle_consumer), reqs)),
    decreases reqs.len(),
{
    if reqs.len() == 0 {
        lemma_initial_invariant(admin, bond_issuer, oracle_consumer);
    } else {
        lemma_reachable_invariant(admin, bond_issuer, oracle_consumer, reqs.drop_last());
        lemma_step_keeps(run(initial_state(admin, bond_issuer, oracle_consumer), reqs.drop_last()), reqs.last());
    }
}

/// In every reachable state, a claim that is accepted never hands over a negative amount.
pub proof fn lemma_claims_nonnegative(
    admin: Seq<u8>,
    bond_issuer: Seq<u8>,
    oracle_consumer: Seq<u8>,
    reqs: Seq<Request>,
    caller: Seq<u8>,
    bond_id: u64,
    nonce: u64,
)
    ensures
        ({
            let s = run(initial_state(admin, bond_issuer, oracle_consumer), reqs);
            claim_outcome(s, caller, bond_id, nonce) is Ok ==> claim_outcome(s, caller, bond_id, nonce)->Ok_0.1
                >= 0
        }),
{
    lemma_reachable_invariant(admin, bond_issuer, oracle_consumer, reqs);
    let s = run(initial_state(admin, bond_issuer, oracle_consumer), reqs);
    if s.accrued.contains_key((bond_id, caller)) {
        assert(s.accrued[(bond_id, caller)] >= 0);
    }
}

/// In every reachable state, each period record is a distributed record under its own index,
/// and each bond's period count is the number of periods with a record.
pub proof fn lemma_period_records(
    admin: Seq<u8>,
    bond_issuer: Seq<u8>,
    oracle_consumer: Seq<u8>,
    reqs: Seq<Request>,
    bond_id: u64,
    period_index: u32,
)
    ensures
        ({
            let s = run(initial_state(admin, bond_issuer, oracle_consumer), reqs);
            &&& s.periods.contains_key((bond_id, period_index)) ==> s.periods[(
                bond_id,
                period_index,
            )].distributed && s.periods[(bond_id, period_index)].period_index == period_index
            &&& periods_of(s, bond_id).finite()
            &&& period_count_of(s, bond_id) == periods_of(s, bond_id).len()
        }),
{
    lemma_reachable_invariant(admin, bond_issuer, oracle_consumer, reqs);
    let s = run(initial_state(admin, bond_issuer, oracle_consumer), reqs);
    assert(periods_of(s, bond_id).finite() && period_count_of(s, bond_id) == periods_of(s, bond_id).len());
}

/// Period records are written once: a record present after some requests stays, unchanged,
/// whatever requests follow.
pub proof fn lemma_period_records_write_once(
    admin: Seq<u8>,
    bond_issuer: Seq<u8>,
    oracle_consumer: Seq<u8>,
    reqs: Seq<Request>,
    more: Seq<Request>,
    key: (u64, u32),
)
    requires
        run(initial_state(admin, bond_issuer, oracle_consumer), reqs).periods.contains_key(key),
    ensures
        run(initial_state(admin, bond_issuer, oracle_consumer), reqs + more).periods.contains_key(key),
        run(initial_state(admin, bond_issuer, oracle_consumer), reqs + more).periods[key] == run(
            initial_state(admin, bond_issuer, oracle_consumer),
            reqs,
        ).periods[key],
    decreases more.len(),
{
    let s0 = initial_state(admin, bond_issuer, oracle_consumer);
    if more.len() == 0 {
        assert(reqs + more =~= reqs);
    } else {
        let shorter = more.drop_last();
        lemma_period_records_write_once(admin, bond_issuer, oracle_consumer, reqs, shorter, key);
        assert((reqs + more).drop_last() =~= reqs + shorter);
        assert((reqs + more).last() == more.last());
        lemma_reachable_invariant(admin, bond_issuer, oracle_consumer, reqs + shorter);
        lemma_step_keeps(run(s0, reqs + shorter), more.last());
    }
}

} // verus!
