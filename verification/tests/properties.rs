// Scenario tests for the stated behaviour of the ledger: period alignment,
// full and partial claims, capacity bounds, the settlement guard and the
// multiplier lifecycle.

use open_payroll::errors::Error;
use open_payroll::payroll::OpenPayroll;
use open_payroll::period::period_start;
use open_payroll::types::InitialBeneficiary;

const ALICE: u64 = 1;
const BOB: u64 = 2;
const CHARLIE: u64 = 3;
const TREASURY: u128 = 100_000_000;

fn two_names() -> Vec<String> {
    vec!["Seniority".to_string(), "Performance".to_string()]
}

#[test]
fn period_start_is_idempotent() {
    let cases: Vec<(u32, u32, u32)> = vec![
        (0, 0, 1),
        (3, 0, 2),
        (7, 0, 3),
        (9, 4, 5),
        (1000, 7, 13),
        (u32::MAX, 0, 17),
    ];
    for (h, genesis, periodicity) in cases {
        let s = period_start(h, genesis, periodicity);
        assert_eq!(period_start(s, genesis, periodicity), s);
    }
}

#[test]
fn full_claim_zeroes_carryover_partial_claim_keeps_difference() {
    // periodicity 2, base payment 1000, weights {100, 20} (sum 120),
    // registered at genesis. Three blocks later one whole period has
    // elapsed: owed = 120 * 1000 / 100 = 1200.
    let mut contract = OpenPayroll::new(
        2,
        1000,
        two_names(),
        vec![InitialBeneficiary { account_id: BOB, multipliers: vec![(0, 100), (1, 20)] }],
        ALICE,
        0,
    )
    .unwrap();
    assert_eq!(contract.get_amount_to_claim(BOB, 3).unwrap(), 1200);

    // Claiming exactly 1200 zeroes the carryover.
    let mut exact = OpenPayroll::new(
        2,
        1000,
        two_names(),
        vec![InitialBeneficiary { account_id: BOB, multipliers: vec![(0, 100), (1, 20)] }],
        ALICE,
        0,
    )
    .unwrap();
    exact.claim_payment(BOB, 1200, 3, TREASURY).unwrap();
    assert_eq!(exact.get_beneficiary(BOB).unwrap().unclaimed_payments, 0);

    // Claiming 1190 leaves a carryover of 10.
    contract.claim_payment(BOB, 1190, 3, TREASURY).unwrap();
    assert_eq!(contract.get_beneficiary(BOB).unwrap().unclaimed_payments, 10);
    assert_eq!(contract.get_amount_to_claim(BOB, 3).unwrap(), 10);
}

#[test]
fn overclaim_fails_without_state_change() {
    let mut contract = OpenPayroll::new(
        2,
        1000,
        two_names(),
        vec![InitialBeneficiary { account_id: BOB, multipliers: vec![(0, 100), (1, 20)] }],
        ALICE,
        0,
    )
    .unwrap();
    let before = contract.get_beneficiary(BOB).unwrap();
    let res = contract.claim_payment(BOB, 1201, 3, TREASURY);
    assert!(matches!(res, Err(Error::ClaimedAmountIsBiggerThanAvailable)));
    let after = contract.get_beneficiary(BOB).unwrap();
    assert_eq!(before, after);
    assert_eq!(contract.claims_in_period.total_claims, 0);
}

#[test]
fn settlement_guard_trivially_satisfied_at_genesis() {
    let mut contract = OpenPayroll::new(
        2,
        1000,
        two_names(),
        vec![
            InitialBeneficiary { account_id: BOB, multipliers: vec![(0, 100), (1, 3)] },
            InitialBeneficiary { account_id: CHARLIE, multipliers: vec![(0, 100), (1, 3)] },
        ],
        ALICE,
        0,
    )
    .unwrap();
    // Heights 0 and 1 lie in the period that starts at 0: structural
    // changes need no settlement there, even with nobody settled.
    assert!(contract.update_base_payment(2000, ALICE, 0).is_ok());
    assert!(contract.update_base_payment(3000, ALICE, 1).is_ok());
}

#[test]
fn delete_multiplier_lifecycle_errors() {
    let mut contract = OpenPayroll::new(2, 1000, two_names(), vec![], ALICE, 0).unwrap();

    // Deleting a multiplier that was never deactivated fails.
    assert!(matches!(
        contract.delete_unused_multiplier(1, ALICE, 5),
        Err(Error::MultiplierNotDeactivated)
    ));

    // Deactivate at height 4: the bound lands at 6.
    contract.deactivate_multiplier(1, ALICE, 4).unwrap();

    // Before and at the bound the multiplier is not yet expired.
    assert!(matches!(
        contract.delete_unused_multiplier(1, ALICE, 5),
        Err(Error::MultiplierNotExpired)
    ));
    assert!(matches!(
        contract.delete_unused_multiplier(1, ALICE, 6),
        Err(Error::MultiplierNotExpired)
    ));

    // Past the bound, with no beneficiaries, the settlement guard only
    // passes in the genesis period; at height 7 the tally is stale.
    assert!(matches!(
        contract.delete_unused_multiplier(1, ALICE, 7),
        Err(Error::NotAllClaimedInPeriod)
    ));

    // An unknown id fails regardless.
    assert!(matches!(
        contract.delete_unused_multiplier(9, ALICE, 7),
        Err(Error::MultiplierNotFound)
    ));
}

#[test]
fn delete_expired_multiplier_succeeds_after_settlement() {
    let mut contract = OpenPayroll::new(
        2,
        1000,
        two_names(),
        vec![InitialBeneficiary { account_id: BOB, multipliers: vec![(0, 100), (1, 3)] }],
        ALICE,
        0,
    )
    .unwrap();
    contract.deactivate_multiplier(1, ALICE, 0).unwrap();
    // The bound lands at 2; at height 3 the multiplier is expired. Bob
    // settles the period containing 3 (it starts at 2), sweeping the
    // expired weight, and the delete then passes the settlement guard.
    contract.claim_payment(BOB, 0, 3, TREASURY).unwrap();
    assert_eq!(contract.delete_unused_multiplier(1, ALICE, 3), Ok(()));
    assert_eq!(contract.base_multipliers.len(), 1);
    assert_eq!(contract.base_multipliers[0].0, 0);
    // The swept record no longer references the deleted id.
    assert_eq!(contract.get_beneficiary(BOB).unwrap().multipliers, vec![(0, 100)]);
}

#[test]
fn base_payment_update_blocked_until_both_settle() {
    let mut contract = OpenPayroll::new(
        2,
        1000,
        two_names(),
        vec![
            InitialBeneficiary { account_id: BOB, multipliers: vec![(0, 100), (1, 3)] },
            InitialBeneficiary { account_id: CHARLIE, multipliers: vec![(0, 100), (1, 3)] },
        ],
        ALICE,
        0,
    )
    .unwrap();

    // At height 2 a new period has begun; only bob settles it.
    contract.claim_payment(BOB, 0, 2, TREASURY).unwrap();
    assert!(matches!(
        contract.update_base_payment(2000, ALICE, 2),
        Err(Error::NotAllClaimedInPeriod)
    ));

    // After charlie's zero-amount claim the same update succeeds.
    contract.claim_payment(CHARLIE, 0, 2, TREASURY).unwrap();
    assert_eq!(contract.update_base_payment(2000, ALICE, 2), Ok(()));
    assert_eq!(contract.base_payment, 2000);
}

#[test]
fn empty_weight_list_means_full_base_payment() {
    let mut contract = OpenPayroll::new(4, 1000, two_names(), vec![], ALICE, 0).unwrap();
    contract.add_beneficiary(BOB, vec![], ALICE, 0).unwrap();
    // With no weights the full unscaled base payment is owed per period:
    // 1 * 1000 / 100 = 10 per period, two periods at height 8.
    assert_eq!(contract.get_amount_to_claim(BOB, 8).unwrap(), 20);
}

#[test]
fn truncating_division_in_per_period_amount() {
    let mut contract = OpenPayroll::new(2, 999, two_names(), vec![], ALICE, 0).unwrap();
    contract.add_beneficiary(BOB, vec![(0, 1), (1, 6)], ALICE, 0).unwrap();
    // 7 * 999 / 100 truncates to 69.
    assert_eq!(contract.get_amount_to_claim(BOB, 2).unwrap(), 69);
}

#[test]
fn deactivated_weights_do_not_count_in_queries() {
    let mut contract = OpenPayroll::new(
        2,
        1000,
        two_names(),
        vec![InitialBeneficiary { account_id: BOB, multipliers: vec![(0, 100), (1, 20)] }],
        ALICE,
        0,
    )
    .unwrap();
    contract.deactivate_multiplier(1, ALICE, 0).unwrap();
    // The read-only query drops the deactivated weight at once: only the
    // weight of 100 counts for the period elapsed at height 3.
    assert_eq!(contract.get_amount_to_claim(BOB, 3).unwrap(), 1000);
}

#[test]
fn claims_in_period_tally_counts_and_resets() {
    let mut contract = OpenPayroll::new(
        2,
        1000,
        two_names(),
        vec![
            InitialBeneficiary { account_id: BOB, multipliers: vec![(0, 100), (1, 3)] },
            InitialBeneficiary { account_id: CHARLIE, multipliers: vec![(0, 100), (1, 3)] },
        ],
        ALICE,
        0,
    )
    .unwrap();
    contract.claim_payment(BOB, 0, 2, TREASURY).unwrap();
    assert_eq!(contract.claims_in_period.period, 2);
    assert_eq!(contract.claims_in_period.total_claims, 1);
    contract.claim_payment(CHARLIE, 0, 2, TREASURY).unwrap();
    assert_eq!(contract.claims_in_period.total_claims, 2);
    // A settlement in a later period resets the tally.
    contract.claim_payment(BOB, 0, 4, TREASURY).unwrap();
    assert_eq!(contract.claims_in_period.period, 4);
    assert_eq!(contract.claims_in_period.total_claims, 1);
    // A second claim by the same record in the same period counts no new
    // settlement event.
    contract.claim_payment(BOB, 0, 4, TREASURY).unwrap();
    assert_eq!(contract.claims_in_period.total_claims, 1);
}
