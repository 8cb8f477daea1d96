use nbbs_coupon_engine::{
    Address, BondError, CouponEngine, Report, ReportStatus, FIXED_POINT,
};

fn addr(name: &str) -> Address {
    Address::from_strkey(name.as_bytes().to_vec())
}

fn create_project_id(value: u8) -> [u8; 32] {
    let mut arr = [0u8; 32];
    arr[31] = value;
    arr
}

fn report(project_id: [u8; 32], carbon: i128, status: ReportStatus) -> Report {
    Report {
        project_id,
        period_start: 1000,
        period_end: 2000,
        carbon_sequestered: carbon,
        status,
    }
}

struct TestEnv {
    admin: Address,
    engine: CouponEngine,
}

fn deploy(admin: Address) -> TestEnv {
    let engine = CouponEngine::new(admin.duplicate(), addr("ISSUER"), addr("ORACLE"));
    TestEnv { admin, engine }
}

#[test]
fn test_constructor_and_register_bond() {
    let mut t = deploy(addr("ADMIN"));
    let project_id = create_project_id(42);
    assert_eq!(t.engine.register_bond(&t.admin, 1, project_id, 0), Ok(()));
    let count = t.engine.get_period_count(1);
    assert_eq!(count, 0);
}

#[test]
fn test_register_bond_unauthorized() {
    let mut t = deploy(addr("ADMIN"));
    let user = addr("USER");
    let project_id = create_project_id(42);
    let result = t.engine.register_bond(&user, 1, project_id, 0);
    assert_eq!(result, Err(BondError::Unauthorized));
}

#[test]
fn test_register_bond_invalid_nonce() {
    let mut t = deploy(addr("ADMIN"));
    let project_id = create_project_id(42);
    let result = t.engine.register_bond(&t.admin, 1, project_id, 1);
    assert_eq!(result, Err(BondError::InvalidNonce));
}

#[test]
fn test_distribute_to_single_holder() {
    let mut t = deploy(addr("ADMIN"));
    let project_id = create_project_id(1);
    let holder = addr("HOLDER");
    let bond_id = 1u64;
    t.engine.register_bond(&t.admin, bond_id, project_id, 0).unwrap();

    let report_id = 1u64;
    let rep = report(project_id, 100_000, ReportStatus::Verified);
    let holders = vec![holder.duplicate()];
    let result = t
        .engine
        .distribute_coupon(&t.admin, bond_id, 0, &holders, report_id, 1, &rep, 10_000, &vec![10_000])
        .unwrap();

    assert_eq!(result.bond_id, bond_id);
    assert_eq!(result.period_index, 0);
    assert_eq!(result.total_credits, 100);
    assert_eq!(result.holder_count, 1);
    assert_eq!(result.credits_per_token, 100 * FIXED_POINT / 10000);

    let accrued = t.engine.accrued_credits(bond_id, &holder);
    assert_eq!(accrued, 100);

    let period_info = t.engine.get_period_info(bond_id, 0).unwrap();
    assert!(period_info.distributed);
    assert_eq!(period_info.total_credits_earned, 100);
    assert_eq!(period_info.report_id, report_id);
}

#[test]
fn test_distribute_pro_rata_multiple_holders() {
    let mut t = deploy(addr("ADMIN"));
    let project_id = create_project_id(1);
    let holder1 = addr("HOLDER1");
    let holder2 = addr("HOLDER2");
    let bond_id = 1u64;
    t.engine.register_bond(&t.admin, bond_id, project_id, 0).unwrap();

    let rep = report(project_id, 100_000, ReportStatus::Verified);
    let holders = vec![holder1.duplicate(), holder2.duplicate()];
    let result = t
        .engine
        .distribute_coupon(&t.admin, bond_id, 0, &holders, 1, 1, &rep, 10_000, &vec![3_000, 7_000])
        .unwrap();

    assert_eq!(result.total_credits, 100);
    assert_eq!(result.holder_count, 2);

    let total_sub = 10000i128;
    let credits_per_token = 100 * FIXED_POINT / total_sub;
    let expected_h1 = credits_per_token * 3000 / FIXED_POINT;
    let expected_h2 = credits_per_token * 7000 / FIXED_POINT;

    assert_eq!(t.engine.accrued_credits(bond_id, &holder1), expected_h1);
    assert_eq!(t.engine.accrued_credits(bond_id, &holder2), expected_h2);
    assert_eq!(expected_h1 + expected_h2, 100);
}

#[test]
fn test_distribute_zero_sequestration() {
    let mut t = deploy(addr("ADMIN"));
    let project_id = create_project_id(1);
    let holder = addr("HOLDER");
    t.engine.register_bond(&t.admin, 1, project_id, 0).unwrap();

    let rep = report(project_id, 0, ReportStatus::Verified);
    let holders = vec![holder.duplicate()];
    let result = t
        .engine
        .distribute_coupon(&t.admin, 1, 0, &holders, 1, 1, &rep, 10_000, &vec![10_000])
        .unwrap();

    assert_eq!(result.total_credits, 0);
    assert_eq!(result.holder_count, 0);
    assert_eq!(result.credits_per_token, 0);

    let accrued = t.engine.accrued_credits(1, &holder);
    assert_eq!(accrued, 0);
}

#[test]
fn test_distribute_rejects_unverified_report() {
    let mut t = deploy(addr("ADMIN"));
    let project_id = create_project_id(1);
    let holder = addr("HOLDER");
    t.engine.register_bond(&t.admin, 1, project_id, 0).unwrap();

    let rep = report(project_id, 100_000, ReportStatus::Pending);
    let holders = vec![holder.duplicate()];
    let result = t.engine.distribute_coupon(&t.admin, 1, 0, &holders, 1, 1, &rep, 10_000, &vec![10_000]);
    assert_eq!(result, Err(BondError::ReportNotVerified));

    let accrued = t.engine.accrued_credits(1, &holder);
    assert_eq!(accrued, 0);
}

#[test]
fn test_distribute_rejects_report_for_other_project() {
    let mut t = deploy(addr("ADMIN"));
    let project_id = create_project_id(1);
    let other_project = create_project_id(2);
    let holder = addr("HOLDER");
    t.engine.register_bond(&t.admin, 1, project_id, 0).unwrap();

    let rep = report(other_project, 100_000, ReportStatus::Verified);
    let holders = vec![holder.duplicate()];
    let result = t.engine.distribute_coupon(&t.admin, 1, 0, &holders, 1, 1, &rep, 10_000, &vec![10_000]);
    assert_eq!(result, Err(BondError::BondNotFound));
}

#[test]
fn test_prevent_double_distribute() {
    let mut t = deploy(addr("ADMIN"));
    let project_id = create_project_id(1);
    let holder = addr("HOLDER");
    t.engine.register_bond(&t.admin, 1, project_id, 0).unwrap();

    let rep = report(project_id, 100_000, ReportStatus::Verified);
    let holders = vec![holder.duplicate()];
    t.engine
        .distribute_coupon(&t.admin, 1, 0, &holders, 1, 1, &rep, 10_000, &vec![10_000])
        .unwrap();

    let result = t.engine.distribute_coupon(&t.admin, 1, 0, &holders, 1, 2, &rep, 10_000, &vec![10_000]);
    assert_eq!(result, Err(BondError::Overflow));
}

#[test]
fn test_distribute_unregistered_bond() {
    let mut t = deploy(addr("ADMIN"));
    let project_id = create_project_id(1);
    let rep = report(project_id, 100_000, ReportStatus::Verified);
    let holders: Vec<Address> = vec![];

    let result = t.engine.distribute_coupon(&t.admin, 999, 0, &holders, 1, 0, &rep, 0, &vec![]);
    assert_eq!(result, Err(BondError::BondNotFound));
}

#[test]
fn test_claim_credits() {
    let mut t = deploy(addr("ADMIN"));
    let project_id = create_project_id(1);
    let holder = addr("HOLDER");
    t.engine.register_bond(&t.admin, 1, project_id, 0).unwrap();

    let rep = report(project_id, 100_000, ReportStatus::Verified);
    let holders = vec![holder.duplicate()];
    t.engine
        .distribute_coupon(&t.admin, 1, 0, &holders, 1, 1, &rep, 10_000, &vec![10_000])
        .unwrap();

    let claimed = t.engine.claim_credits(&holder, 1, 0).unwrap();
    assert_eq!(claimed, 100);

    let accrued = t.engine.accrued_credits(1, &holder);
    assert_eq!(accrued, 0);
}

#[test]
fn test_zero_holders_case() {
    let mut t = deploy(addr("ADMIN"));
    let project_id = create_project_id(1);
    t.engine.register_bond(&t.admin, 1, project_id, 0).unwrap();

    let rep = report(project_id, 100_000, ReportStatus::Verified);
    let holders: Vec<Address> = vec![];
    let result = t
        .engine
        .distribute_coupon(&t.admin, 1, 0, &holders, 1, 1, &rep, 10_000, &vec![])
        .unwrap();

    assert_eq!(result.total_credits, 0);
    assert_eq!(result.holder_count, 0);
    assert!(result.credits_per_token >= 0);

    let period_info = t.engine.get_period_info(1, 0).unwrap();
    assert!(period_info.distributed);
}

#[test]
fn test_period_count_increments() {
    let mut t = deploy(addr("ADMIN"));
    let project_id = create_project_id(1);
    let holder = addr("HOLDER");
    t.engine.register_bond(&t.admin, 1, project_id, 0).unwrap();

    assert_eq!(t.engine.get_period_count(1), 0);

    let rep = report(project_id, 100_000, ReportStatus::Verified);
    let holders = vec![holder.duplicate()];
    t.engine
        .distribute_coupon(&t.admin, 1, 0, &holders, 1, 1, &rep, 10_000, &vec![10_000])
        .unwrap();
    assert_eq!(t.engine.get_period_count(1), 1);

    let rep2 = report(project_id, 200_000, ReportStatus::Verified);
    t.engine
        .distribute_coupon(&t.admin, 1, 1, &holders, 2, 2, &rep2, 10_000, &vec![10_000])
        .unwrap();
    assert_eq!(t.engine.get_period_count(1), 2);
}

#[test]
fn test_query_accrued_credits_zero() {
    let engine = CouponEngine::new(addr("ADMIN"), addr("ISSUER"), addr("ORACLE"));
    let holder = addr("HOLDER");
    let accrued = engine.accrued_credits(1, &holder);
    assert_eq!(accrued, 0);
}

#[test]
fn test_claim_credits_invalid_nonce() {
    let mut engine = CouponEngine::new(addr("ADMIN"), addr("ISSUER"), addr("ORACLE"));
    let holder = addr("HOLDER");
    let result = engine.claim_credits(&holder, 1, 1);
    assert_eq!(result, Err(BondError::InvalidNonce));
}

#[test]
fn test_coupon_requires_verified_report() {
    let admin = addr("ADMIN");
    let bob = addr("BOB");
    let mut engine = CouponEngine::new(admin.duplicate(), addr("ISSUER"), addr("ORACLE"));
    let project_id = create_project_id(1);
    let bond_id = 1u64;
    engine.register_bond(&admin, bond_id, project_id, 0).unwrap();

    let holders = vec![bob.duplicate()];
    let pending = report(project_id, 100_000, ReportStatus::Pending);
    let rejected = engine.distribute_coupon(&admin, bond_id, 0, &holders, 1, 1, &pending, 1_000, &vec![1_000]);
    assert_eq!(rejected, Err(BondError::ReportNotVerified));

    let verified = report(project_id, 100_000, ReportStatus::Verified);
    let result = engine
        .distribute_coupon(&admin, bond_id, 0, &holders, 1, 1, &verified, 1_000, &vec![1_000])
        .unwrap();
    assert!(result.total_credits > 0);
}

#[test]
fn test_coupon_dust_reconciliation() {
    let admin = addr("ADMIN");
    let alice = addr("ALICE");
    let bob = addr("BOB");
    let carol = addr("CAROL");
    let mut engine = CouponEngine::new(admin.duplicate(), addr("ISSUER"), addr("ORACLE"));
    let project_id = create_project_id(1);
    let bond_id = 1u64;
    engine.register_bond(&admin, bond_id, project_id, 0).unwrap();

    let holders = vec![alice.duplicate(), bob.duplicate(), carol.duplicate()];
    let rep = report(project_id, 100_000, ReportStatus::Verified);
    let result = engine
        .distribute_coupon(&admin, bond_id, 0, &holders, 1, 1, &rep, 3, &vec![1, 1, 1])
        .unwrap();

    assert_eq!(result.total_credits, 99);
    assert_eq!(result.holder_count, 3);

    assert_eq!(engine.get_undistributed_total(bond_id), 1);

    let swept = engine.sweep_undistributed(&admin, bond_id, 2).unwrap();
    assert_eq!(swept, 1);
    assert_eq!(engine.get_undistributed_total(bond_id), 0);
}
