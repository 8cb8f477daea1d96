use nbbs_coupon_engine::{
    credits_per_token, Address, BondError, CouponEngine, CreditTally, Report, ReportStatus, Table,
    FIXED_POINT,
};

fn addr(name: &str) -> Address {
    Address::from_strkey(name.as_bytes().to_vec())
}

fn project(value: u8) -> [u8; 32] {
    let mut arr = [0u8; 32];
    arr[31] = value;
    arr
}

fn verified(project_id: [u8; 32], carbon: i128) -> Report {
    Report {
        project_id,
        period_start: 10,
        period_end: 20,
        carbon_sequestered: carbon,
        status: ReportStatus::Verified,
    }
}

fn engine_with_bond() -> (CouponEngine, Address) {
    let admin = addr("ADMIN");
    let mut engine = CouponEngine::new(admin.duplicate(), addr("ISSUER"), addr("ORACLE"));
    engine.register_bond(&admin, 7, project(3), 0).unwrap();
    (engine, admin)
}

#[test]
fn replayed_nonce_is_refused_and_changes_nothing() {
    let (mut engine, admin) = engine_with_bond();
    assert_eq!(engine.get_nonce(&admin), 1);
    assert_eq!(engine.register_bond(&admin, 8, project(4), 0), Err(BondError::InvalidNonce));
    assert_eq!(engine.get_nonce(&admin), 1);
    assert_eq!(engine.register_bond(&admin, 8, project(4), 1), Ok(()));
    assert_eq!(engine.get_nonce(&admin), 2);
    let other = addr("OTHER");
    assert_eq!(engine.get_nonce(&other), 0);
}

#[test]
fn unauthorized_register_does_not_spend_nonce() {
    let (mut engine, _admin) = engine_with_bond();
    let user = addr("USER");
    assert_eq!(engine.register_bond(&user, 9, project(9), 0), Err(BondError::Unauthorized));
    assert_eq!(engine.get_nonce(&user), 0);
}

#[test]
fn missing_admin_is_not_initialized() {
    let mut engine = CouponEngine {
        admin: None,
        bond_issuer: None,
        oracle_consumer: None,
        precision: None,
        nonces: Table::new(),
        bond_projects: Table::new(),
        periods: Table::new(),
        period_counts: Table::new(),
        accrued: Table::new(),
        undistributed: Table::new(),
    };
    let caller = addr("ANY");
    assert_eq!(engine.register_bond(&caller, 1, project(1), 0), Err(BondError::NotInitialized));
    assert_eq!(engine.request_report(&caller, 1, 0).err(), Some(BondError::NotInitialized));
}

#[test]
fn missing_oracle_is_not_initialized() {
    let admin = addr("ADMIN");
    let mut engine = CouponEngine::new(admin.duplicate(), addr("ISSUER"), addr("ORACLE"));
    engine.oracle_consumer = None;
    engine.register_bond(&admin, 1, project(1), 0).unwrap();
    assert_eq!(engine.request_report(&admin, 1, 1).err(), Some(BondError::NotInitialized));
}

#[test]
fn request_report_names_the_oracle() {
    let (engine, admin) = engine_with_bond();
    let oracle = engine.request_report(&admin, 7, 1).unwrap();
    assert!(oracle.same_as(&addr("ORACLE")));
    assert_eq!(engine.request_report(&admin, 8, 1).err(), Some(BondError::BondNotFound));
}

#[test]
fn report_credits_round_toward_zero() {
    let (engine, _admin) = engine_with_bond();
    assert_eq!(engine.accept_report(7, 0, &verified(project(3), 1_999)), Ok(1));
    assert_eq!(engine.accept_report(7, 0, &verified(project(3), -1_999)), Ok(-1));
    assert_eq!(engine.accept_report(7, 0, &verified(project(3), 999)), Ok(0));
}

#[test]
fn rejected_report_statuses() {
    let (engine, _admin) = engine_with_bond();
    for status in [ReportStatus::Pending, ReportStatus::Challenged, ReportStatus::Rejected] {
        let mut r = verified(project(3), 5_000);
        r.status = status;
        assert_eq!(engine.accept_report(7, 0, &r), Err(BondError::ReportNotVerified));
    }
}

#[test]
fn dust_stays_undistributed() {
    let (mut engine, admin) = engine_with_bond();
    let holders = vec![addr("A"), addr("B"), addr("C")];
    let result = engine
        .distribute_coupon(&admin, 7, 0, &holders, 5, 1, &verified(project(3), 100_000), 3, &vec![1, 1, 1])
        .unwrap();
    assert_eq!(result.credits_per_token, 333_333_333);
    assert_eq!(result.total_credits, 99);
    assert_eq!(result.holder_count, 3);
    for h in holders.iter() {
        assert_eq!(engine.accrued_credits(7, h), 33);
    }
    assert_eq!(engine.get_undistributed_total(7), 1);
}

#[test]
fn remainder_accumulates_and_sweeps() {
    let (mut engine, admin) = engine_with_bond();
    let holders = vec![addr("A"), addr("B"), addr("C")];
    engine
        .distribute_coupon(&admin, 7, 0, &holders, 5, 1, &verified(project(3), 100_000), 3, &vec![1, 1, 1])
        .unwrap();
    engine
        .distribute_coupon(&admin, 7, 1, &holders, 6, 2, &verified(project(3), 200_000), 3, &vec![1, 1, 1])
        .unwrap();
    // 100 - 99 and 200 - 198
    assert_eq!(engine.get_undistributed_total(7), 3);
    assert_eq!(engine.get_undistributed_total(8), 0);
    assert_eq!(engine.sweep_undistributed(&addr("A"), 7, 0), Err(BondError::Unauthorized));
    assert_eq!(engine.sweep_undistributed(&admin, 7, 2), Err(BondError::InvalidNonce));
    assert_eq!(engine.get_undistributed_total(7), 3);
    assert_eq!(engine.sweep_undistributed(&admin, 7, 3), Ok(3));
    assert_eq!(engine.get_undistributed_total(7), 0);
    assert_eq!(engine.sweep_undistributed(&admin, 7, 4), Ok(0));
}

#[test]
fn exact_split_leaves_no_remainder() {
    let (mut engine, admin) = engine_with_bond();
    let holders = vec![addr("A")];
    engine
        .distribute_coupon(&admin, 7, 0, &holders, 5, 1, &verified(project(3), 50_000), 10, &vec![10])
        .unwrap();
    assert_eq!(engine.get_undistributed_total(7), 0);
}

#[test]
fn nothing_subscribed_leaves_whole_report_undistributed() {
    let (mut engine, admin) = engine_with_bond();
    let holders = vec![addr("A")];
    let result = engine
        .distribute_coupon(&admin, 7, 0, &holders, 5, 1, &verified(project(3), 50_000), 0, &vec![10])
        .unwrap();
    assert_eq!(result.total_credits, 0);
    assert_eq!(engine.get_undistributed_total(7), 50);
}

#[test]
fn over_subscribed_list_leaves_no_negative_remainder() {
    let (mut engine, admin) = engine_with_bond();
    let holders = vec![addr("A"), addr("B")];
    let result = engine
        .distribute_coupon(&admin, 7, 0, &holders, 5, 1, &verified(project(3), 100_000), 10, &vec![20, -10])
        .unwrap();
    assert_eq!(result.total_credits, 200);
    assert_eq!(engine.get_undistributed_total(7), 0);
}

#[test]
fn holders_without_positive_balance_get_nothing() {
    let (mut engine, admin) = engine_with_bond();
    let holders = vec![addr("A"), addr("B"), addr("C")];
    let result = engine
        .distribute_coupon(&admin, 7, 0, &holders, 5, 1, &verified(project(3), 100_000), 10, &vec![0, -5, 10])
        .unwrap();
    assert_eq!(result.total_credits, 100);
    assert_eq!(result.holder_count, 1);
    assert_eq!(engine.accrued_credits(7, &addr("A")), 0);
    assert_eq!(engine.accrued_credits(7, &addr("B")), 0);
    assert_eq!(engine.accrued_credits(7, &addr("C")), 100);
}

#[test]
fn repeated_holder_is_credited_each_time() {
    let (mut engine, admin) = engine_with_bond();
    let holders = vec![addr("A"), addr("A")];
    let result = engine
        .distribute_coupon(&admin, 7, 0, &holders, 5, 1, &verified(project(3), 100_000), 10, &vec![4, 4])
        .unwrap();
    assert_eq!(result.total_credits, 80);
    assert_eq!(result.holder_count, 2);
    assert_eq!(engine.accrued_credits(7, &addr("A")), 80);
}

#[test]
fn negative_carbon_pays_nothing() {
    let (mut engine, admin) = engine_with_bond();
    let holders = vec![addr("A")];
    let result = engine
        .distribute_coupon(&admin, 7, 0, &holders, 5, 1, &verified(project(3), -100_000), 10, &vec![10])
        .unwrap();
    assert_eq!(result.total_credits, 0);
    assert_eq!(result.credits_per_token, 0);
}

#[test]
fn refused_distribution_changes_nothing() {
    let (mut engine, admin) = engine_with_bond();
    let holders = vec![addr("A")];
    let bad = Report { status: ReportStatus::Challenged, ..verified(project(3), 100_000) };
    assert_eq!(
        engine.distribute_coupon(&admin, 7, 0, &holders, 5, 1, &bad, 10, &vec![10]),
        Err(BondError::ReportNotVerified)
    );
    assert_eq!(engine.get_nonce(&admin), 1);
    assert_eq!(engine.get_period_count(7), 0);
    assert_eq!(engine.get_period_info(7, 0), Err(BondError::BondNotFound));
    assert_eq!(engine.accrued_credits(7, &addr("A")), 0);
}

#[test]
fn credits_of_other_bonds_untouched() {
    let (mut engine, admin) = engine_with_bond();
    engine.register_bond(&admin, 8, project(3), 1).unwrap();
    let holders = vec![addr("A")];
    engine
        .distribute_coupon(&admin, 7, 0, &holders, 5, 2, &verified(project(3), 50_000), 10, &vec![10])
        .unwrap();
    engine
        .distribute_coupon(&admin, 8, 0, &holders, 6, 3, &verified(project(3), 20_000), 10, &vec![10])
        .unwrap();
    assert_eq!(engine.accrued_credits(7, &addr("A")), 50);
    assert_eq!(engine.accrued_credits(8, &addr("A")), 20);
    assert_eq!(engine.claim_credits(&addr("A"), 8, 0), Ok(20));
    assert_eq!(engine.accrued_credits(7, &addr("A")), 50);
}

#[test]
fn second_claim_gets_zero() {
    let (mut engine, admin) = engine_with_bond();
    let holders = vec![addr("A")];
    engine
        .distribute_coupon(&admin, 7, 0, &holders, 5, 1, &verified(project(3), 50_000), 10, &vec![10])
        .unwrap();
    assert_eq!(engine.claim_credits(&addr("A"), 7, 0), Ok(50));
    assert_eq!(engine.claim_credits(&addr("A"), 7, 1), Ok(0));
    assert_eq!(engine.claim_credits(&addr("A"), 7, 1), Err(BondError::InvalidNonce));
}

#[test]
fn period_info_records_the_report() {
    let (mut engine, admin) = engine_with_bond();
    let holders = vec![addr("A")];
    engine
        .distribute_coupon(&admin, 7, 4, &holders, 55, 1, &verified(project(3), 50_000), 10, &vec![10])
        .unwrap();
    let info = engine.get_period_info(7, 4).unwrap();
    assert_eq!(info.period_index, 4);
    assert_eq!(info.start_time, 10);
    assert_eq!(info.end_time, 20);
    assert_eq!(info.total_credits_earned, 50);
    assert!(info.distributed);
    assert_eq!(info.report_id, 55);
}

#[test]
fn unauthorized_distribution() {
    let (mut engine, _admin) = engine_with_bond();
    let holders = vec![addr("A")];
    let user = addr("USER");
    assert_eq!(
        engine.distribute_coupon(&user, 7, 0, &holders, 5, 0, &verified(project(3), 50_000), 10, &vec![10]),
        Err(BondError::Unauthorized)
    );
}

#[test]
fn rate_formula() {
    assert_eq!(credits_per_token(100, 10_000), 100 * FIXED_POINT / 10_000);
    assert_eq!(credits_per_token(7, 3), 23_333_333);
    assert_eq!(credits_per_token(0, 3), 0);
    assert_eq!(credits_per_token(5, 0), 0);
    assert_eq!(credits_per_token(-5, 3), 0);
}

#[test]
fn tally_refuses_overflow_and_keeps_totals() {
    let mut tally = CreditTally::new(FIXED_POINT);
    assert_eq!(tally.add(i128::MAX / FIXED_POINT), Ok(i128::MAX / FIXED_POINT));
    let before = tally.total;
    let mut big = CreditTally { rate: FIXED_POINT, total: i128::MAX - 1, count: 1 };
    assert_eq!(big.add(20), Err(BondError::Overflow));
    assert_eq!(big.total, i128::MAX - 1);
    assert_eq!(big.count, 1);
    assert!(before > 0);
    assert_eq!(tally.add(0), Ok(0));
    assert_eq!(tally.count, 1);
}

#[test]
fn abort_conditions_are_detected() {
    let (mut engine, admin) = engine_with_bond();
    let holders = vec![addr("A")];
    let rep = verified(project(3), 50_000);
    assert!(!engine.distribution_would_abort(&admin, 7, 0, &holders, 1, &rep, 10, &vec![10]));
    // the rate itself does not fit
    let huge = verified(project(3), i128::MAX);
    assert!(engine.distribution_would_abort(&admin, 7, 0, &holders, 1, &huge, 1, &vec![1]));
    // a refused request never aborts
    assert!(!engine.distribution_would_abort(&admin, 7, 0, &holders, 0, &huge, 1, &vec![1]));
    // a share's product does not fit
    let rich = verified(project(3), 1_000_000_000);
    assert!(engine.distribution_would_abort(&admin, 7, 0, &holders, 1, &rich, 1, &vec![i128::MAX]));
    // no bond issuer on record
    engine.bond_issuer = None;
    assert!(engine.distribution_would_abort(&admin, 7, 0, &holders, 1, &rep, 10, &vec![10]));
}

#[test]
fn address_equality_is_textual() {
    let a = addr("GABC");
    assert!(a.same_as(&addr("GABC")));
    assert!(!a.same_as(&addr("GABD")));
    assert!(!a.same_as(&addr("GAB")));
    assert!(a.duplicate().same_as(&a));
}

#[test]
fn table_set_and_get() {
    let mut t: Table<u64, i128> = Table::new();
    assert_eq!(t.get(&3), None);
    t.set(3, 30);
    t.set(4, 40);
    t.set(3, 31);
    assert_eq!(t.get(&3), Some(31));
    assert_eq!(t.get(&4), Some(40));
    let c = t.copy();
    assert_eq!(c.get(&3), Some(31));
}

#[test]
fn claimed_plus_accrued_equals_granted() {
    let (mut engine, admin) = engine_with_bond();
    let holders = vec![addr("A"), addr("B")];
    let first = engine
        .distribute_coupon(&admin, 7, 0, &holders, 5, 1, &verified(project(3), 100_000), 10, &vec![3, 7])
        .unwrap();
    let claimed = engine.claim_credits(&addr("A"), 7, 0).unwrap();
    let second = engine
        .distribute_coupon(&admin, 7, 1, &holders, 6, 2, &verified(project(3), 50_000), 10, &vec![3, 7])
        .unwrap();
    assert_eq!(first.total_credits, 100);
    assert_eq!(second.total_credits, 50);
    let a_now = engine.accrued_credits(7, &addr("A"));
    let b_now = engine.accrued_credits(7, &addr("B"));
    assert_eq!(claimed, 30);
    assert_eq!(claimed + a_now, 30 + 15);
    assert_eq!(b_now, 70 + 35);
    assert_eq!(claimed + a_now + b_now, first.total_credits + second.total_credits);
    assert_eq!(engine.get_period_count(7), 2);
    assert!(engine.get_period_info(7, 0).unwrap().distributed);
    assert_eq!(engine.get_period_info(7, 1).unwrap().period_index, 1);
}
