// Claims, owed-amount queries, debt totals and the unclaimed lists, with
// block heights and treasury balances handed in from the outside.

use open_payroll::errors::Error;
use open_payroll::payroll::OpenPayroll;
use open_payroll::types::InitialBeneficiary;

const ALICE: u64 = 1;
const BOB: u64 = 2;
const CHARLIE: u64 = 3;
const TREASURY: u128 = 100_000_000;

fn two_names() -> Vec<String> {
    vec!["Seniority".to_string(), "Performance".to_string()]
}

fn create_contract() -> OpenPayroll {
    OpenPayroll::new(
        2,
        1000,
        two_names(),
        vec![
            InitialBeneficiary { account_id: BOB, multipliers: vec![(0, 100), (1, 3)] },
            InitialBeneficiary { account_id: CHARLIE, multipliers: vec![(0, 100), (1, 3)] },
        ],
        ALICE,
        0,
    )
    .expect("cannot create contract")
}

fn create_contract_with_no_beneficiaries() -> OpenPayroll {
    OpenPayroll::new(2, 1000, two_names(), vec![], ALICE, 0).expect("cannot create contract")
}

fn create_contract_with_periodicity(periodicity: u32) -> OpenPayroll {
    OpenPayroll::new(periodicity, 1000, two_names(), vec![], ALICE, 0)
        .expect("cannot create contract")
}

#[test]
fn claim_payment() {
    let mut contract = create_contract();
    contract.update_beneficiary(BOB, vec![(0, 100), (1, 20)], ALICE, 0).unwrap();
    // Three blocks later one whole period of two blocks has elapsed.
    let amount_to_claim = contract.get_amount_to_claim(BOB, 3).unwrap();
    assert_eq!(amount_to_claim, (100 + 20) * 1000 / 100);
    contract.claim_payment(BOB, amount_to_claim, 3, TREASURY).unwrap();
    assert_eq!(contract.get_beneficiary(BOB).unwrap().unclaimed_payments, 0);
    assert_eq!(contract.get_amount_to_claim(BOB, 3).unwrap(), 0);
}

#[test]
fn claim_parcial_payment() {
    let total_not_claimed: u128 = 10;
    let mut contract = create_contract();
    contract.update_beneficiary(BOB, vec![(0, 100), (1, 20)], ALICE, 0).unwrap();
    let amount_to_claim = contract.get_amount_to_claim(BOB, 3).unwrap();
    contract.claim_payment(BOB, amount_to_claim - total_not_claimed, 3, TREASURY).unwrap();
    // The difference stays as carryover and later queries reflect it.
    assert_eq!(contract.get_beneficiary(BOB).unwrap().unclaimed_payments, total_not_claimed);
    assert_eq!(contract.get_amount_to_claim(BOB, 3).unwrap(), total_not_claimed);
}

#[test]
fn claim_more_payment() {
    let mut contract = create_contract();
    contract.update_beneficiary(BOB, vec![(0, 100), (1, 20)], ALICE, 0).unwrap();
    let amount_to_claim = contract.get_amount_to_claim(BOB, 3).unwrap();
    let res = contract.claim_payment(BOB, amount_to_claim + 1, 3, TREASURY);
    assert!(matches!(res, Err(Error::ClaimedAmountIsBiggerThanAvailable)));
    // The failed claim changed nothing.
    assert_eq!(contract.get_amount_to_claim(BOB, 3).unwrap(), amount_to_claim);
    assert_eq!(contract.get_beneficiary(BOB).unwrap().unclaimed_payments, 0);
}

#[test]
fn claim_not_enough_treasury() {
    let mut contract = create_contract();
    let owed = contract.get_amount_to_claim(BOB, 3).unwrap();
    assert!(owed > 5);
    let res = contract.claim_payment(BOB, owed, 3, 5);
    assert!(matches!(res, Err(Error::NotEnoughBalanceInTreasury)));
    assert_eq!(contract.get_beneficiary(BOB).unwrap().unclaimed_payments, 0);
}

#[test]
fn claim_while_paused() {
    let mut contract = create_contract();
    contract.pause(ALICE, 0).unwrap();
    let res = contract.claim_payment(BOB, 0, 3, TREASURY);
    assert!(matches!(res, Err(Error::ContractIsPaused)));
    contract.resume(ALICE).unwrap();
    assert!(contract.claim_payment(BOB, 0, 3, TREASURY).is_ok());
}

#[test]
fn claim_unknown_account() {
    let mut contract = create_contract_with_no_beneficiaries();
    let res = contract.claim_payment(BOB, 0, 0, TREASURY);
    assert!(matches!(res, Err(Error::AccountNotFound)));
}

#[test]
fn update_periodicity_without_all_payments_updated() {
    let mut contract = create_contract();
    contract.update_beneficiary(BOB, vec![(0, 100), (1, 20)], ALICE, 0).unwrap();
    let res = contract.update_periodicity(10u32, ALICE, 3);
    assert!(matches!(res, Err(Error::NotAllClaimedInPeriod)));
}

#[test]
fn update_periodicity_with_all_payments_updated() {
    let mut contract = create_contract_with_no_beneficiaries();
    contract.add_beneficiary(BOB, vec![(0, 100), (1, 20)], ALICE, 0).unwrap();
    // A zero-amount claim settles the period without withdrawing funds.
    contract.claim_payment(BOB, 0, 3, TREASURY).unwrap();
    let res = contract.update_periodicity(10u32, ALICE, 3);
    assert!(matches!(res, Ok(())));
}

#[test]
fn update_periodicity_with_all_payments_claimed() {
    let mut contract = create_contract_with_no_beneficiaries();
    contract.add_beneficiary(BOB, vec![(0, 100), (1, 20)], ALICE, 0).unwrap();
    let amount_to_claim = contract.get_amount_to_claim(BOB, 3).unwrap();
    contract.claim_payment(BOB, amount_to_claim, 3, TREASURY).unwrap();
    let res = contract.update_periodicity(10u32, ALICE, 3);
    assert_eq!(res, Ok(()));
}

#[test]
fn update_base_payment_without_all_payments_updated() {
    let mut contract = create_contract_with_no_beneficiaries();
    contract.add_beneficiary(BOB, vec![(0, 100), (1, 20)], ALICE, 0).unwrap();
    let res = contract.update_base_payment(900, ALICE, 3);
    assert!(matches!(res, Err(Error::NotAllClaimedInPeriod)));
}

#[test]
fn update_base_payment_with_all_payments_claimed() {
    let mut contract = create_contract_with_no_beneficiaries();
    contract.add_beneficiary(BOB, vec![(0, 100), (1, 20)], ALICE, 0).unwrap();
    let amount_to_claim = contract.get_amount_to_claim(BOB, 3).unwrap();
    contract.claim_payment(BOB, amount_to_claim, 3, TREASURY).unwrap();
    let res = contract.update_base_payment(900, ALICE, 3);
    assert_eq!(res, Ok(()));
}

#[test]
fn check_deactivate_multiplier() {
    let mut contract = create_contract();
    // At height 6 the current period starts at 6; the bound lands one
    // period later, at 8.
    let res = contract.deactivate_multiplier(1, ALICE, 6);
    assert_eq!(res, Ok(()));
    assert_eq!(contract.base_multipliers[1].1.valid_until_block, Some(8));
    assert_eq!(contract.base_multipliers[0].1.valid_until_block, None);
}

#[test]
fn deactivate_multiplier_twice() {
    let mut contract = create_contract();
    contract.deactivate_multiplier(1, ALICE, 6).unwrap();
    assert!(matches!(
        contract.deactivate_multiplier(1, ALICE, 7),
        Err(Error::MultiplierAlreadyDeactivated)
    ));
}

#[test]
fn deactivate_multiplier_not_found() {
    let mut contract = create_contract();
    assert!(matches!(
        contract.deactivate_multiplier(9, ALICE, 0),
        Err(Error::MultiplierNotFound)
    ));
}

#[test]
fn check_current_start_period_block() {
    let contract = create_contract_with_periodicity(3);
    assert_eq!(contract.get_current_period_initial_block(6), 6);
    assert_eq!(contract.get_current_period_initial_block(7), 6);
    assert_eq!(contract.get_current_period_initial_block(8), 6);
    assert_eq!(contract.get_current_period_initial_block(9), 9);
}

#[test]
fn check_next_block_period() {
    let contract = create_contract_with_periodicity(3);
    assert_eq!(contract.get_next_block_period(0), 3);
    assert_eq!(contract.get_next_block_period(4), 6);
}

#[test]
fn check_amount_beneficiaries_when_are_two() {
    let contract = create_contract();
    assert_eq!(contract.get_amount_beneficiaries(), 2);
}

#[test]
fn check_amount_beneficiaries_when_is_zero() {
    let contract = create_contract_with_no_beneficiaries();
    assert_eq!(contract.get_amount_beneficiaries(), 0);
}

#[test]
fn check_list_payees() {
    let contract = create_contract();
    assert_eq!(contract.get_list_payees(), vec![BOB, CHARLIE]);
    let contract = create_contract_with_periodicity(3);
    assert_eq!(contract.get_list_payees(), Vec::<u64>::new());
}

#[test]
fn check_contract_balance() {
    let total_balance: u128 = 100_000_001;
    let mut contract = create_contract();
    // Bob's weights sum to 103, so one period owes 1030; the treasury the
    // host reports after paying it out is the difference.
    let amount_to_claim = contract.get_amount_to_claim(BOB, 3).unwrap();
    assert_eq!(amount_to_claim, 1030);
    contract.claim_payment(BOB, amount_to_claim, 3, total_balance).unwrap();
    assert_eq!(total_balance - amount_to_claim, 99998971u128);
}

#[test]
fn check_unclaimed_beneficiaries() {
    let mut contract = create_contract();

    assert_eq!(contract.get_unclaimed_beneficiaries(0), Vec::<u64>::new());
    assert_eq!(contract.get_count_of_unclaim_beneficiaries(0), 0);

    // One block later the genesis period still runs.
    assert_eq!(contract.get_unclaimed_beneficiaries(1), Vec::<u64>::new());
    assert_eq!(contract.get_count_of_unclaim_beneficiaries(1), 0);

    // At height 2 a new period has begun and nobody has settled it.
    assert_eq!(contract.get_unclaimed_beneficiaries(2), vec![BOB, CHARLIE]);
    assert_eq!(contract.get_count_of_unclaim_beneficiaries(2), 2);

    let amount_to_claim = contract.get_amount_to_claim(BOB, 2).unwrap();
    contract.claim_payment(BOB, amount_to_claim, 2, TREASURY).unwrap();
    assert_eq!(contract.get_unclaimed_beneficiaries(2), vec![CHARLIE]);
    assert_eq!(contract.get_count_of_unclaim_beneficiaries(2), 1);
}

#[test]
fn check_total_balance_and_debts_on_init() {
    let total_balance: u128 = 100_000_001;
    let contract = create_contract();
    assert_eq!(contract.get_total_debts(0), 0);
    assert_eq!(contract.get_balance_with_debts(total_balance, 0), total_balance);
}

#[test]
fn check_total_debts_with_individual_debts() {
    let total_balance: u128 = 100_000_001;
    let contract = create_contract();
    // One period elapsed for both beneficiaries.
    let bob_amount_claim = contract.get_amount_to_claim(BOB, 2).unwrap();
    let charlie_amount_claim = contract.get_amount_to_claim(CHARLIE, 2).unwrap();
    let total_debts = contract.get_total_debts(2);
    assert_eq!(total_debts, 2060);
    assert_eq!(total_debts, bob_amount_claim + charlie_amount_claim);
    assert_eq!(
        contract.get_balance_with_debts(total_balance, 2),
        total_balance - (bob_amount_claim + charlie_amount_claim)
    );
}

#[test]
fn check_is_total_debts_is_zero_after_all_claims() {
    let total_balance: u128 = 100_000_001;
    let mut contract = create_contract();
    let bob_amount_claim = contract.get_amount_to_claim(BOB, 2).unwrap();
    let charlie_amount_claim = contract.get_amount_to_claim(CHARLIE, 2).unwrap();
    contract.claim_payment(BOB, bob_amount_claim, 2, total_balance).unwrap();
    contract.claim_payment(CHARLIE, charlie_amount_claim, 2, total_balance).unwrap();
    assert_eq!(contract.get_total_debts(2), 0);
}

#[test]
fn check_total_debt_with_unclaimed_for_next_period_on_init() {
    let contract = create_contract();
    let total_debts = contract.get_total_debt_with_unclaimed_for_next_period(0);
    assert_eq!(total_debts, 2060);
}

#[test]
fn check_total_debt_with_unclaimed_for_next_period_advancing_a_period() {
    let contract = create_contract();
    let total_debts_with_unclaimed = contract.get_total_debt_with_unclaimed_for_next_period(2);
    let total_debts_next_period = contract.get_total_debt_for_next_period();
    assert_eq!(total_debts_with_unclaimed, 4120);
    assert_eq!(total_debts_next_period, 2060);
}

#[test]
fn ensure_all_payments_uptodate_states() {
    let contract = create_contract();
    // During the genesis period everyone is current.
    assert!(contract.ensure_all_payments_uptodate(1).is_ok());
    // A new period begins at height 2 and nobody has settled it.
    assert!(matches!(
        contract.ensure_all_payments_uptodate(2),
        Err(Error::PaymentsNotUpToDate)
    ));
}

#[test]
fn claim_sweeps_expired_multipliers() {
    let mut contract = create_contract();
    // Deactivated at genesis, the bound lands at height 2.
    contract.deactivate_multiplier(1, ALICE, 0).unwrap();
    // Settle bob within the genesis period: the bound has not been reached,
    // so the weight stays.
    contract.claim_payment(BOB, 0, 1, TREASURY).unwrap();
    assert_eq!(contract.get_beneficiary(BOB).unwrap().multipliers, vec![(0, 100), (1, 3)]);
    // From height 2 on the sweep of a claim drops the expired weight.
    contract.claim_payment(BOB, 0, 2, TREASURY).unwrap();
    assert_eq!(contract.get_beneficiary(BOB).unwrap().multipliers, vec![(0, 100)]);
}
