//! The payroll ledger itself: period accounting, claims, the settlement
//! guard that gates structural parameter changes, the pause switch and the
//! two-phase ownership handoff.
//!
//! Host facts (current block height, caller identity, treasury balance) are
//! passed in as plain parameters; the host performs the actual value
//! transfer after a successful claim and is expected to discard the new
//! state if that transfer fails.

use vstd::prelude::*;

use crate::errors::Error;
use crate::period::{lemma_period_start_bounds, period_start, spec_period_start};
use crate::types::{
    keep_multiplier, lemma_beneficiary_index_of_match, lemma_beneficiary_index_props,
    lemma_multiplier_index_of_match, lemma_multiplier_index_props, lemma_owed_nonneg,
    lemma_payment_per_period_nonneg, lemma_sum_active_weights_le, lemma_sum_swept_le,
    lemma_sum_weights_nonneg, lemma_sum_weights_take_le, lemma_swept_weights_unique,
    multiplier_is_active, spec_beneficiary_index, spec_elapsed_periods, spec_has_beneficiary,
    spec_has_multiplier, spec_lookup_beneficiary, spec_lookup_multiplier, spec_multiplier_index,
    spec_owed, spec_owed_parts, spec_payment_per_period, spec_record_claim, spec_swept,
    spec_weight_total, sum_active_weights, sum_weights, weights_unique, AccountId, Balance,
    BaseMultiplier, Beneficiary, BlockNumber, ClaimsInPeriod, InitialBeneficiary, Multiplier,
    MultiplierId,
};
use vstd::arithmetic::mul::{lemma_mul_inequality, lemma_mul_nonnegative};

verus! {

/// The most beneficiaries the ledger will register.
pub const MAX_BENEFICIARIES: usize = 100;

/// The most multipliers the ledger will register.
pub const MAX_MULTIPLIERS: usize = 10;

/// No account occurs twice in a list.
pub open spec fn accounts_unique(s: Seq<AccountId>) -> bool {
    forall|i: int, j: int| 0 <= i < j < s.len() ==> s[i] != s[j]
}

/// Errs iff some account occurs twice in the list.
pub fn check_no_duplicate_beneficiaries(beneficiaries: &Vec<AccountId>) -> (r: Result<(), Error>)
    ensures
        r == if accounts_unique(beneficiaries@) {
            Result::<(), Error>::Ok(())
        } else {
            Result::<(), Error>::Err(Error::DuplicatedBeneficiaries)
        },
{
    let n = beneficiaries.len();
    let mut i: usize = 0;
    while i < n
        invariant
            i <= n,
            n == beneficiaries.len(),
            forall|p: int, q: int| 0 <= p < q < i ==> beneficiaries@[p] != beneficiaries@[q],
        decreases n - i,
    {
        let mut j: usize = 0;
        while j < i
            invariant
                j <= i,
                i < n,
                n == beneficiaries.len(),
                forall|q: int| 0 <= q < j ==> beneficiaries@[q] != beneficiaries@[i as int],
            decreases i - j,
        {
            if beneficiaries[j] == beneficiaries[i] {
                return Err(Error::DuplicatedBeneficiaries);
            }
            j = j + 1;
        }
        i = i + 1;
    }
    Ok(())
}

/// Errs iff some multiplier id occurs twice in the weight list.
pub fn check_no_duplicate_multipliers(multipliers: &Vec<(MultiplierId, Multiplier)>) -> (r: Result<
    (),
    Error,
>)
    ensures
        r == if weights_unique(multipliers@) {
            Result::<(), Error>::Ok(())
        } else {
            Result::<(), Error>::Err(Error::DuplicatedMultipliers)
        },
{
    let n = multipliers.len();
    let mut i: usize = 0;
    while i < n
        invariant
            i <= n,
            n == multipliers.len(),
            forall|p: int, q: int| 0 <= p < q < i ==> multipliers@[p].0 != multipliers@[q].0,
        decreases n - i,
    {
        let mut j: usize = 0;
        while j < i
            invariant
                j <= i,
                i < n,
                n == multipliers.len(),
                forall|q: int| 0 <= q < j ==> multipliers@[q].0 != multipliers@[i as int].0,
            decreases i - j,
        {
            if multipliers[j].0 == multipliers[i].0 {
                return Err(Error::DuplicatedMultipliers);
            }
            j = j + 1;
        }
        i = i + 1;
    }
    Ok(())
}

/// The first failure a weight list's validation meets, in order: each id
/// must be registered and not scheduled for deactivation.
pub open spec fn spec_validate_weights(
    list: Seq<(MultiplierId, Multiplier)>,
    reg: Seq<(MultiplierId, BaseMultiplier)>,
) -> Result<(), Error>
    decreases list.len(),
{
    if list.len() == 0 {
        Result::<(), Error>::Ok(())
    } else {
        match spec_lookup_multiplier(reg, list[0].0) {
            None => Result::<(), Error>::Err(Error::MultiplierNotFound),
            Some(m) => if m.valid_until_block is Some {
                Result::<(), Error>::Err(Error::MultiplierAlreadyDeactivated)
            } else {
                spec_validate_weights(list.drop_first(), reg)
            },
        }
    }
}

/// The first failure among the initial beneficiaries, in order: each weight
/// list must have exactly one weight per registered multiplier, with no id
/// repeated.
pub open spec fn spec_validate_initial(bs: Seq<InitialBeneficiary>, n_mults: int) -> Result<
    (),
    Error,
>
    decreases bs.len(),
{
    if bs.len() == 0 {
        Result::<(), Error>::Ok(())
    } else if bs[0].multipliers@.len() != n_mults {
        Result::<(), Error>::Err(Error::InvalidMultipliersLength)
    } else if !weights_unique(bs[0].multipliers@) {
        Result::<(), Error>::Err(Error::DuplicatedMultipliers)
    } else {
        spec_validate_initial(bs.drop_first(), n_mults)
    }
}

/// The total of everything owed, by the read-only query rule, to the
/// beneficiaries whose record has not been settled for the period starting
/// at `cps`.
pub open spec fn spec_debts(
    bs: Seq<Beneficiary>,
    reg: Seq<(MultiplierId, BaseMultiplier)>,
    base_payment: Balance,
    periodicity: u32,
    now: BlockNumber,
    cps: int,
) -> int
    decreases bs.len(),
{
    if bs.len() == 0 {
        0
    } else {
        spec_debts(bs.drop_last(), reg, base_payment, periodicity, now, cps)
            + if bs.last().last_updated_period_block < cps {
            spec_owed(bs.last(), reg, base_payment, periodicity, now, false)
        } else {
            0
        }
    }
}

/// The debts over a prefix lie between 0 and the debts over the whole list.
pub proof fn lemma_debts_take_le(
    bs: Seq<Beneficiary>,
    reg: Seq<(MultiplierId, BaseMultiplier)>,
    base_payment: Balance,
    periodicity: u32,
    now: BlockNumber,
    cps: int,
    i: int,
)
    requires
        periodicity > 0,
        forall|k: int| 0 <= k < bs.len() ==> #[trigger] bs[k].last_updated_period_block <= now,
        0 <= i <= bs.len(),
    ensures
        0 <= spec_debts(bs.take(i), reg, base_payment, periodicity, now, cps) <= spec_debts(
            bs,
            reg,
            base_payment,
            periodicity,
            now,
            cps,
        ),
    decreases bs.len(),
{
    if bs.len() > 0 {
        lemma_owed_nonneg(bs.last(), reg, base_payment, periodicity, now, false);
        assert(forall|k: int|
            0 <= k < bs.drop_last().len() ==> #[trigger] bs.drop_last()[k] == bs[k]);
        if i == bs.len() {
            assert(bs.take(i) =~= bs);
            lemma_debts_take_le(bs.drop_last(), reg, base_payment, periodicity, now, cps, i - 1);
        } else {
            assert(bs.take(i) =~= bs.drop_last().take(i));
            lemma_debts_take_le(bs.drop_last(), reg, base_payment, periodicity, now, cps, i);
        }
    } else {
        assert(bs.take(i) =~= bs);
    }
}

/// The total owed to every beneficiary for one period, by the read-only
/// query rule.
pub open spec fn spec_next_period_debts(
    bs: Seq<Beneficiary>,
    reg: Seq<(MultiplierId, BaseMultiplier)>,
    base_payment: Balance,
) -> int
    decreases bs.len(),
{
    if bs.len() == 0 {
        0
    } else {
        spec_next_period_debts(bs.drop_last(), reg, base_payment) + spec_payment_per_period(
            bs.last().multipliers@,
            reg,
            base_payment,
            false,
        )
    }
}

/// The per-period debts over a prefix lie between 0 and the whole total.
pub proof fn lemma_next_period_debts_take_le(
    bs: Seq<Beneficiary>,
    reg: Seq<(MultiplierId, BaseMultiplier)>,
    base_payment: Balance,
    i: int,
)
    requires
        0 <= i <= bs.len(),
    ensures
        0 <= spec_next_period_debts(bs.take(i), reg, base_payment) <= spec_next_period_debts(
            bs,
            reg,
            base_payment,
        ),
    decreases bs.len(),
{
    if bs.len() > 0 {
        lemma_payment_per_period_nonneg(bs.last().multipliers@, reg, base_payment, false);
        assert(forall|k: int|
            0 <= k < bs.drop_last().len() ==> #[trigger] bs.drop_last()[k] == bs[k]);
        if i == bs.len() {
            assert(bs.take(i) =~= bs);
            lemma_next_period_debts_take_le(bs.drop_last(), reg, base_payment, i - 1);
        } else {
            assert(bs.take(i) =~= bs.drop_last().take(i));
            lemma_next_period_debts_take_le(bs.drop_last(), reg, base_payment, i);
        }
    } else {
        assert(bs.take(i) =~= bs);
    }
}

/// The total everyone could claim at height `block`, carryovers included,
/// by the read-only query rule.
pub open spec fn spec_debts_at(
    bs: Seq<Beneficiary>,
    reg: Seq<(MultiplierId, BaseMultiplier)>,
    base_payment: Balance,
    periodicity: u32,
    block: BlockNumber,
) -> int
    decreases bs.len(),
{
    if bs.len() == 0 {
        0
    } else {
        spec_debts_at(bs.drop_last(), reg, base_payment, periodicity, block) + spec_owed(
            bs.last(),
            reg,
            base_payment,
            periodicity,
            block,
            false,
        )
    }
}

/// The debts-at-height over a prefix lie between 0 and the whole total.
pub proof fn lemma_debts_at_take_le(
    bs: Seq<Beneficiary>,
    reg: Seq<(MultiplierId, BaseMultiplier)>,
    base_payment: Balance,
    periodicity: u32,
    block: BlockNumber,
    i: int,
)
    requires
        periodicity > 0,
        forall|k: int| 0 <= k < bs.len() ==> #[trigger] bs[k].last_updated_period_block <= block,
        0 <= i <= bs.len(),
    ensures
        0 <= spec_debts_at(bs.take(i), reg, base_payment, periodicity, block) <= spec_debts_at(
            bs,
            reg,
            base_payment,
            periodicity,
            block,
        ),
    decreases bs.len(),
{
    if bs.len() > 0 {
        lemma_owed_nonneg(bs.last(), reg, base_payment, periodicity, block, false);
        assert(forall|k: int|
            0 <= k < bs.drop_last().len() ==> #[trigger] bs.drop_last()[k] == bs[k]);
        if i == bs.len() {
            assert(bs.take(i) =~= bs);
            lemma_debts_at_take_le(bs.drop_last(), reg, base_payment, periodicity, block, i - 1);
        } else {
            assert(bs.take(i) =~= bs.drop_last().take(i));
            lemma_debts_at_take_le(bs.drop_last(), reg, base_payment, periodicity, block, i);
        }
    } else {
        assert(bs.take(i) =~= bs);
    }
}

/// The accounts whose record has not been settled for the period starting
/// at `cps`, in registration order.
pub open spec fn spec_unclaimed_accounts(bs: Seq<Beneficiary>, cps: int) -> Seq<AccountId>
    decreases bs.len(),
{
    if bs.len() == 0 {
        Seq::empty()
    } else {
        spec_unclaimed_accounts(bs.drop_last(), cps) + if bs.last().last_updated_period_block
            < cps {
            seq![bs.last().account_id]
        } else {
            Seq::empty()
        }
    }
}

/// Copies a weight list.
fn copy_weights(src: &Vec<(MultiplierId, Multiplier)>) -> (r: Vec<(MultiplierId, Multiplier)>)
    ensures
        r@ == src@,
{
    let n = src.len();
    let mut out: Vec<(MultiplierId, Multiplier)> = Vec::new();
    let mut i: usize = 0;
    while i < n
        invariant
            i <= n,
            n == src.len(),
            out@ == src@.take(i as int),
        decreases n - i,
    {
        out.push(src[i]);
        proof {
            assert(out@ =~= src@.take(i as int + 1));
        }
        i = i + 1;
    }
    proof {
        assert(src@.take(n as int) =~= src@);
    }
    out
}

/// The ledger state. Beneficiaries are kept in registration order; the
/// sequence of their account ids is the beneficiary index. The multiplier
/// registry is likewise kept in registration order.
pub struct OpenPayroll {
    /// The pending nominee of an ownership handoff, until it accepts.
    pub transfered_owner: Option<AccountId>,
    /// The administrative identity.
    pub owner: AccountId,
    /// The registered beneficiaries, in registration order, unique accounts.
    pub beneficiaries: Vec<Beneficiary>,
    /// The payment periodicity in blocks; always positive.
    pub periodicity: u32,
    /// The amount of each base payment; always positive.
    pub base_payment: Balance,
    /// The genesis height; immutable.
    pub initial_block: BlockNumber,
    /// The height at which the ledger was paused, if it is.
    pub paused_block_at: Option<BlockNumber>,
    /// The id the next registered multiplier will get.
    pub next_multiplier_id: MultiplierId,
    /// The multiplier registry, in registration order, unique ids.
    pub base_multipliers: Vec<(MultiplierId, BaseMultiplier)>,
    /// The settlement tally of the current period.
    pub claims_in_period: ClaimsInPeriod,
}

impl OpenPayroll {
    /// Well-formedness: positive parameters, bounded registries, unique
    /// account and multiplier ids, every beneficiary's weight list free of
    /// duplicate ids, and no record settled before genesis.
    pub open spec fn wf(self) -> bool {
        &&& self.periodicity > 0
        &&& self.base_payment > 0
        &&& self.beneficiaries.len() <= MAX_BENEFICIARIES
        &&& forall|i: int, j: int|
            0 <= i < j < self.beneficiaries.len()
                ==> self.beneficiaries[i].account_id != self.beneficiaries[j].account_id
        &&& forall|i: int|
            0 <= i < self.beneficiaries.len() ==> weights_unique(
                #[trigger] self.beneficiaries[i].multipliers@,
            )
        &&& forall|i: int|
            0 <= i < self.beneficiaries.len()
                ==> #[trigger] self.beneficiaries[i].last_updated_period_block
                >= self.initial_block
        &&& self.base_multipliers.len() <= MAX_MULTIPLIERS
        &&& forall|i: int, j: int|
            0 <= i < j < self.base_multipliers.len()
                ==> self.base_multipliers[i].0 != self.base_multipliers[j].0
        &&& forall|i: int|
            0 <= i < self.base_multipliers.len()
                ==> #[trigger] self.base_multipliers[i].0 < self.next_multiplier_id
    }

    /// The host clock is monotonic: the current height is at least genesis
    /// and at least every recorded settlement height.
    pub open spec fn clock_in_sync(self, now: BlockNumber) -> bool {
        &&& self.initial_block <= now
        &&& forall|i: int|
            0 <= i < self.beneficiaries.len()
                ==> #[trigger] self.beneficiaries[i].last_updated_period_block <= now
    }

    /// The start of the period containing `now`.
    pub open spec fn spec_current_period_start(self, now: BlockNumber) -> int {
        spec_period_start(now as int, self.initial_block as int, self.periodicity as int)
    }

    /// Whether the pause switch is engaged.
    pub open spec fn spec_is_paused(self) -> bool {
        self.paused_block_at is Some
    }

    /// Whether the pause switch is engaged.
    pub fn is_paused(&self) -> (r: bool)
        ensures
            r == self.spec_is_paused(),
    {
        self.paused_block_at.is_some()
    }

    /// Errs iff the pause switch is engaged.
    fn ensure_is_not_paused(&self) -> (r: Result<(), Error>)
        ensures
            r == if self.spec_is_paused() {
                Result::<(), Error>::Err(Error::ContractIsPaused)
            } else {
                Result::<(), Error>::Ok(())
            },
    {
        if self.is_paused() {
            return Err(Error::ContractIsPaused);
        }
        Ok(())
    }

    /// Errs iff the caller is not the owner.
    fn ensure_owner(&self, caller: AccountId) -> (r: Result<(), Error>)
        ensures
            r == if caller != self.owner {
                Result::<(), Error>::Err(Error::NotOwner)
            } else {
                Result::<(), Error>::Ok(())
            },
    {
        if self.owner != caller {
            return Err(Error::NotOwner);
        }
        Ok(())
    }

    /// Engages the pause switch. Owner-only; idempotent: pausing an already
    /// paused ledger is a no-op success.
    pub fn pause(&mut self, caller: AccountId, current_block: BlockNumber) -> (r: Result<(), Error>)
        ensures
            r is Err <==> caller != old(self).owner,
            r is Err ==> r == Result::<(), Error>::Err(Error::NotOwner) && *final(self) == *old(self),
            r is Ok ==> *final(self) == (OpenPayroll {
                paused_block_at: if old(self).spec_is_paused() {
                    old(self).paused_block_at
                } else {
                    Some(current_block)
                },
                ..*old(self)
            }),
    {
        self.ensure_owner(caller)?;
        if self.is_paused() {
            return Ok(());
        }
        self.paused_block_at = Some(current_block);
        Ok(())
    }

    /// Releases the pause switch. Owner-only; idempotent.
    pub fn resume(&mut self, caller: AccountId) -> (r: Result<(), Error>)
        ensures
            r is Err <==> caller != old(self).owner,
            r is Err ==> r == Result::<(), Error>::Err(Error::NotOwner) && *final(self) == *old(self),
            r is Ok ==> *final(self) == (OpenPayroll { paused_block_at: None, ..*old(self) }),
    {
        self.ensure_owner(caller)?;
        if !self.is_paused() {
            return Ok(());
        }
        self.paused_block_at = None;
        Ok(())
    }

    /// Nominates a new owner. Owner-only; the nominee gains nothing until it
    /// accepts.
    pub fn transfer_ownership(&mut self, new_owner: AccountId, caller: AccountId) -> (r: Result<
        (),
        Error,
    >)
        ensures
            r is Err <==> caller != old(self).owner,
            r is Err ==> r == Result::<(), Error>::Err(Error::NotOwner) && *final(self) == *old(self),
            r is Ok ==> *final(self) == (OpenPayroll { transfered_owner: Some(new_owner), ..*old(self) }),
    {
        self.ensure_owner(caller)?;
        self.transfered_owner = Some(new_owner);
        Ok(())
    }

    /// Completes an ownership handoff: succeeds only for the pending
    /// nominee, atomically swapping the owner and clearing the nomination.
    pub fn accept_ownership(&mut self, caller: AccountId) -> (r: Result<(), Error>)
        ensures
            r is Ok <==> old(self).transfered_owner == Some(caller),
            r is Err ==> r == Result::<(), Error>::Err(Error::NotOwner) && *final(self) == *old(self),
            r is Ok ==> *final(self) == (OpenPayroll {
                owner: caller,
                transfered_owner: None,
                ..*old(self)
            }),
    {
        let nominated = match self.transfered_owner {
            Some(a) => a == caller,
            None => false,
        };
        if nominated {
            self.owner = caller;
            self.transfered_owner = None;
            Ok(())
        } else {
            Err(Error::NotOwner)
        }
    }

    /// The number of registered beneficiaries.
    pub fn get_amount_beneficiaries(&self) -> (r: u8)
        requires
            self.wf(),
        ensures
            r as int == self.beneficiaries.len(),
    {
        self.beneficiaries.len() as u8
    }

    /// The beneficiary index: every registered account, in registration
    /// order.
    pub fn get_list_payees(&self) -> (r: Vec<AccountId>)
        ensures
            r@ == self.beneficiaries@.map_values(|b: Beneficiary| b.account_id),
    {
        let mut out: Vec<AccountId> = Vec::new();
        let n = self.beneficiaries.len();
        let mut i: usize = 0;
        while i < n
            invariant
                i <= n,
                n == self.beneficiaries.len(),
                out@ == self.beneficiaries@.take(i as int).map_values(
                    |b: Beneficiary| b.account_id,
                ),
            decreases n - i,
        {
            out.push(self.beneficiaries[i].account_id);
            proof {
                assert(self.beneficiaries@.take(i + 1).drop_last() =~= self.beneficiaries@.take(
                    i as int,
                ));
                assert(out@ =~= self.beneficiaries@.take(i + 1).map_values(
                    |b: Beneficiary| b.account_id,
                ));
            }
            i = i + 1;
        }
        proof {
            assert(self.beneficiaries@.take(n as int) =~= self.beneficiaries@);
        }
        out
    }

    /// The start of the period containing `current_block`.
    pub fn get_current_period_initial_block(&self, current_block: BlockNumber) -> (r: BlockNumber)
        requires
            self.wf(),
            self.initial_block <= current_block,
        ensures
            r == self.spec_current_period_start(current_block),
            self.initial_block <= r <= current_block,
    {
        period_start(current_block, self.initial_block, self.periodicity)
    }

    /// The position of `account_id` in the beneficiary list, if registered.
    fn find_beneficiary_index(&self, account_id: AccountId) -> (r: Option<usize>)
        ensures
            match r {
                Some(i) => {
                    &&& i == spec_beneficiary_index(self.beneficiaries@, account_id)
                    &&& i < self.beneficiaries.len()
                    &&& self.beneficiaries[i as int].account_id == account_id
                },
                None => !spec_has_beneficiary(self.beneficiaries@, account_id),
            },
    {
        let n = self.beneficiaries.len();
        let mut i: usize = 0;
        while i < n
            invariant
                i <= n,
                n == self.beneficiaries.len(),
                forall|j: int| 0 <= j < i ==> self.beneficiaries@[j].account_id != account_id,
            decreases n - i,
        {
            if self.beneficiaries[i].account_id == account_id {
                proof {
                    lemma_beneficiary_index_of_match(self.beneficiaries@, account_id, i as int);
                }
                return Some(i);
            }
            i = i + 1;
        }
        proof {
            lemma_beneficiary_index_props(self.beneficiaries@, account_id);
        }
        None
    }

    /// The position of `multiplier_id` in the registry, if registered.
    fn find_multiplier_index(&self, multiplier_id: MultiplierId) -> (r: Option<usize>)
        ensures
            match r {
                Some(i) => {
                    &&& i == spec_multiplier_index(self.base_multipliers@, multiplier_id)
                    &&& i < self.base_multipliers.len()
                    &&& self.base_multipliers[i as int].0 == multiplier_id
                },
                None => !spec_has_multiplier(self.base_multipliers@, multiplier_id),
            },
    {
        let n = self.base_multipliers.len();
        let mut i: usize = 0;
        while i < n
            invariant
                i <= n,
                n == self.base_multipliers.len(),
                forall|j: int| 0 <= j < i ==> self.base_multipliers@[j].0 != multiplier_id,
            decreases n - i,
        {
            if self.base_multipliers[i].0 == multiplier_id {
                proof {
                    lemma_multiplier_index_of_match(
                        self.base_multipliers@,
                        multiplier_id,
                        i as int,
                    );
                }
                return Some(i);
            }
            i = i + 1;
        }
        proof {
            lemma_multiplier_index_props(self.base_multipliers@, multiplier_id);
        }
        None
    }

    /// Whether the multiplier under `id` exists and is currently active.
    fn multiplier_active(&self, id: MultiplierId) -> (r: bool)
        ensures
            r == multiplier_is_active(self.base_multipliers@, id),
    {
        match self.find_multiplier_index(id) {
            Some(i) => self.base_multipliers[i].1.valid_until_block.is_none(),
            None => false,
        }
    }

    /// Whether a sweep at height `now` keeps the weight under `id`.
    fn multiplier_kept(&self, id: MultiplierId, now: BlockNumber) -> (r: bool)
        ensures
            r == keep_multiplier(self.base_multipliers@, id, now),
    {
        match self.find_multiplier_index(id) {
            Some(i) => match self.base_multipliers[i].1.valid_until_block {
                None => true,
                Some(v) => v > now,
            },
            None => false,
        }
    }

    /// Sums every weight in the list.
    fn sum_all_weights(m: &Vec<(MultiplierId, Multiplier)>) -> (r: Balance)
        requires
            sum_weights(m@) <= u128::MAX,
        ensures
            r as int == sum_weights(m@),
    {
        let n = m.len();
        let mut acc: u128 = 0;
        let mut i: usize = 0;
        while i < n
            invariant
                i <= n,
                n == m.len(),
                sum_weights(m@) <= u128::MAX,
                acc as int == sum_weights(m@.take(i as int)),
            decreases n - i,
        {
            proof {
                assert(m@.take(i as int + 1).drop_last() =~= m@.take(i as int));
                assert(m@.take(i as int + 1).last() == m@[i as int]);
                lemma_sum_weights_take_le(m@, i as int + 1);
            }
            acc = acc + m[i].1;
            i = i + 1;
        }
        proof {
            assert(m@.take(n as int) =~= m@);
        }
        acc
    }

    /// Sums the weights whose multiplier is currently active.
    fn sum_active(&self, m: &Vec<(MultiplierId, Multiplier)>) -> (r: Balance)
        requires
            sum_weights(m@) <= u128::MAX,
        ensures
            r as int == sum_active_weights(m@, self.base_multipliers@),
    {
        let n = m.len();
        let mut acc: u128 = 0;
        let mut i: usize = 0;
        while i < n
            invariant
                i <= n,
                n == m.len(),
                sum_weights(m@) <= u128::MAX,
                acc as int == sum_active_weights(m@.take(i as int), self.base_multipliers@),
            decreases n - i,
        {
            proof {
                assert(m@.take(i as int + 1).drop_last() =~= m@.take(i as int));
                assert(m@.take(i as int + 1).last() == m@[i as int]);
                lemma_sum_active_weights_le(m@.take(i as int + 1), self.base_multipliers@);
                lemma_sum_weights_take_le(m@, i as int + 1);
            }
            if self.multiplier_active(m[i].0) {
                acc = acc + m[i].1;
            }
            i = i + 1;
        }
        proof {
            assert(m@.take(n as int) =~= m@);
        }
        acc
    }

    /// The amount `b` is owed for one whole period: the relevant weight
    /// total times the base payment, divided by 100.
    fn amount_to_claim_for_one_period(&self, b: &Beneficiary, use_all: bool) -> (r: Balance)
        requires
            self.wf(),
            sum_weights(b.multipliers@) * self.base_payment <= u128::MAX,
        ensures
            r as int == spec_payment_per_period(
                b.multipliers@,
                self.base_multipliers@,
                self.base_payment,
                use_all,
            ),
    {
        proof {
            // The full sum fits on its own, since the base payment is at least 1.
            assert(sum_weights(b.multipliers@) <= u128::MAX) by {
                lemma_sum_weights_nonneg(b.multipliers@);
                lemma_mul_inequality(1, self.base_payment as int, sum_weights(b.multipliers@));
                vstd::arithmetic::mul::lemma_mul_is_commutative(
                    self.base_payment as int,
                    sum_weights(b.multipliers@),
                );
            }
        }
        let weight_total: u128 = if b.multipliers.len() == 0 {
            1
        } else if use_all {
            Self::sum_all_weights(&b.multipliers)
        } else {
            self.sum_active(&b.multipliers)
        };
        proof {
            lemma_sum_weights_nonneg(b.multipliers@);
            lemma_sum_active_weights_le(b.multipliers@, self.base_multipliers@);
            if b.multipliers.len() > 0 {
                lemma_mul_inequality(
                    weight_total as int,
                    sum_weights(b.multipliers@),
                    self.base_payment as int,
                );
            }
        }
        (weight_total * self.base_payment) / 100
    }

    /// The amount `b` can claim at height `block`.
    fn amount_to_claim_in_block(&self, b: &Beneficiary, use_all: bool, block: BlockNumber) -> (r:
        Balance)
        requires
            self.wf(),
            b.last_updated_period_block <= block,
            sum_weights(b.multipliers@) * self.base_payment <= u128::MAX,
            spec_owed(
                *b,
                self.base_multipliers@,
                self.base_payment,
                self.periodicity,
                block,
                use_all,
            ) <= u128::MAX,
        ensures
            r as int == spec_owed(
                *b,
                self.base_multipliers@,
                self.base_payment,
                self.periodicity,
                block,
                use_all,
            ),
    {
        let blocks_since_last_payment: u32 = block - b.last_updated_period_block;
        let unclaimed_periods: u32 = blocks_since_last_payment / self.periodicity;
        if unclaimed_periods == 0 {
            b.unclaimed_payments
        } else {
            let payment_per_period = self.amount_to_claim_for_one_period(b, use_all);
            proof {
                lemma_payment_per_period_nonneg(
                    b.multipliers@,
                    self.base_multipliers@,
                    self.base_payment,
                    use_all,
                );
                lemma_mul_nonnegative(payment_per_period as int, unclaimed_periods as int);
            }
            payment_per_period * (unclaimed_periods as u128) + b.unclaimed_payments
        }
    }

    /// Whether the owed computation of the read-only query path fits the
    /// balance type for `account_id`; vacuously true for an unknown account.
    pub open spec fn query_fits(self, account_id: AccountId, block: BlockNumber) -> bool {
        match spec_lookup_beneficiary(self.beneficiaries@, account_id) {
            Some(b) => {
                &&& sum_weights(b.multipliers@) * self.base_payment <= u128::MAX
                &&& spec_owed(
                    b,
                    self.base_multipliers@,
                    self.base_payment,
                    self.periodicity,
                    block,
                    false,
                ) <= u128::MAX
            },
            None => true,
        }
    }

    /// The amount `account_id` could claim at `current_block`, without
    /// mutating anything. Weights of deactivated multipliers do not count.
    pub fn get_amount_to_claim(&self, account_id: AccountId, current_block: BlockNumber) -> (r:
        Result<Balance, Error>)
        requires
            self.wf(),
            self.clock_in_sync(current_block),
            self.query_fits(account_id, current_block),
        ensures
            match spec_lookup_beneficiary(self.beneficiaries@, account_id) {
                Some(b) => r == Result::<Balance, Error>::Ok(
                    spec_owed(
                        b,
                        self.base_multipliers@,
                        self.base_payment,
                        self.periodicity,
                        current_block,
                        false,
                    ) as u128,
                ),
                None => r == Result::<Balance, Error>::Err(Error::AccountNotFound),
            },
    {
        let idx = match self.find_beneficiary_index(account_id) {
            Some(i) => i,
            None => {
                return Err(Error::AccountNotFound);
            },
        };
        let b = &self.beneficiaries[idx];
        proof {
            lemma_owed_nonneg(
                *b,
                self.base_multipliers@,
                self.base_payment,
                self.periodicity,
                current_block,
                false,
            );
        }
        Ok(self.amount_to_claim_in_block(b, false, current_block))
    }

    /// A copy of the record registered under `account_id`.
    pub fn get_beneficiary(&self, account_id: AccountId) -> (r: Result<Beneficiary, Error>)
        ensures
            match spec_lookup_beneficiary(self.beneficiaries@, account_id) {
                Some(b) => {
                    &&& r is Ok
                    &&& r->Ok_0.account_id == b.account_id
                    &&& r->Ok_0.multipliers@ == b.multipliers@
                    &&& r->Ok_0.unclaimed_payments == b.unclaimed_payments
                    &&& r->Ok_0.last_updated_period_block == b.last_updated_period_block
                },
                None => r == Result::<Beneficiary, Error>::Err(Error::AccountNotFound),
            },
    {
        let idx = match self.find_beneficiary_index(account_id) {
            Some(i) => i,
            None => {
                return Err(Error::AccountNotFound);
            },
        };
        let b = &self.beneficiaries[idx];
        Ok(
            Beneficiary {
                account_id: b.account_id,
                multipliers: copy_weights(&b.multipliers),
                unclaimed_payments: b.unclaimed_payments,
                last_updated_period_block: b.last_updated_period_block,
            },
        )
    }

    /// Errs with the first failure of the weight list, in order.
    fn check_multipliers_are_valid(&self, multipliers: &Vec<(MultiplierId, Multiplier)>) -> (r:
        Result<(), Error>)
        ensures
            r == spec_validate_weights(multipliers@, self.base_multipliers@),
    {
        let n = multipliers.len();
        let mut i: usize = 0;
        proof {
            assert(multipliers@.skip(0) =~= multipliers@);
        }
        while i < n
            invariant
                i <= n,
                n == multipliers.len(),
                spec_validate_weights(multipliers@, self.base_multipliers@)
                    == spec_validate_weights(multipliers@.skip(i as int), self.base_multipliers@),
            decreases n - i,
        {
            proof {
                assert(multipliers@.skip(i as int)[0] == multipliers@[i as int]);
                assert(multipliers@.skip(i as int).drop_first() =~= multipliers@.skip(i as int + 1));
            }
            match self.find_multiplier_index(multipliers[i].0) {
                None => {
                    return Err(Error::MultiplierNotFound);
                },
                Some(k) => {
                    if self.base_multipliers[k].1.valid_until_block.is_some() {
                        return Err(Error::MultiplierAlreadyDeactivated);
                    }
                },
            }
            i = i + 1;
        }
        proof {
            assert(multipliers@.skip(n as int) =~= Seq::<(MultiplierId, Multiplier)>::empty());
        }
        Ok(())
    }

    /// The settlement guard: satisfied at genesis (nothing could have
    /// accrued yet), or when the tally belongs to the current period and
    /// counts as many settlement events as there are beneficiaries.
    pub open spec fn spec_all_claimed(self, now: BlockNumber) -> bool {
        let cps = self.spec_current_period_start(now);
        cps == 0 || (self.claims_in_period.period == cps && self.claims_in_period.total_claims
            == self.beneficiaries.len())
    }

    /// Errs iff the settlement guard is not satisfied at `current_block`.
    fn ensure_all_claimed_in_period(&self, current_block: BlockNumber) -> (r: Result<(), Error>)
        requires
            self.wf(),
            self.initial_block <= current_block,
        ensures
            r == if self.spec_all_claimed(current_block) {
                Result::<(), Error>::Ok(())
            } else {
                Result::<(), Error>::Err(Error::NotAllClaimedInPeriod)
            },
    {
        let claiming_period_block = self.get_current_period_initial_block(current_block);
        if (claiming_period_block == self.claims_in_period.period
            && self.claims_in_period.total_claims == self.beneficiaries.len() as u32)
            || claiming_period_block == 0 {
            return Ok(());
        }
        Err(Error::NotAllClaimedInPeriod)
    }

    /// Once a record is settled for the period containing `now` — as a
    /// successful claim leaves it — the read-only query at `now` reports
    /// exactly the carryover the claim left behind: claiming everything
    /// owed drives it to 0, claiming less leaves exactly the difference.
    pub proof fn lemma_query_reports_carryover(self, account_id: AccountId, now: BlockNumber)
        requires
            self.wf(),
            self.initial_block <= now,
            spec_has_beneficiary(self.beneficiaries@, account_id),
            spec_lookup_beneficiary(
                self.beneficiaries@,
                account_id,
            )->Some_0.last_updated_period_block == self.spec_current_period_start(now),
        ensures
            ({
                let b = spec_lookup_beneficiary(self.beneficiaries@, account_id)->Some_0;
                spec_owed(
                    b,
                    self.base_multipliers@,
                    self.base_payment,
                    self.periodicity,
                    now,
                    false,
                ) == b.unclaimed_payments
            }),
    {
        let b = spec_lookup_beneficiary(self.beneficiaries@, account_id)->Some_0;
        lemma_period_start_bounds(
            now as int,
            self.initial_block as int,
            self.periodicity as int,
        );
        crate::types::lemma_carryover_is_owed(
            b,
            self.base_multipliers@,
            self.base_payment,
            self.periodicity,
            now,
            false,
        );
    }

    /// The settlement guard is satisfied at genesis: in the period that
    /// starts at height 0 nothing could have accrued yet.
    pub proof fn lemma_settled_at_genesis(self, now: BlockNumber)
        requires
            self.spec_current_period_start(now) == 0,
        ensures
            self.spec_all_claimed(now),
    {
    }

    /// Every record has been brought current for the period containing
    /// `now`.
    pub open spec fn spec_all_payments_uptodate(self, now: BlockNumber) -> bool {
        forall|i: int|
            0 <= i < self.beneficiaries.len() ==> self.spec_current_period_start(now)
                <= #[trigger] self.beneficiaries[i].last_updated_period_block
    }

    /// Errs iff some record has not been brought current for the period
    /// containing `current_block`.
    pub fn ensure_all_payments_uptodate(&self, current_block: BlockNumber) -> (r: Result<
        (),
        Error,
    >)
        requires
            self.wf(),
            self.initial_block <= current_block,
        ensures
            r == if self.spec_all_payments_uptodate(current_block) {
                Result::<(), Error>::Ok(())
            } else {
                Result::<(), Error>::Err(Error::PaymentsNotUpToDate)
            },
    {
        let n = self.beneficiaries.len();
        let mut i: usize = 0;
        while i < n
            invariant
                i <= n,
                n == self.beneficiaries.len(),
                self.wf(),
                self.initial_block <= current_block,
                forall|j: int|
                    0 <= j < i ==> self.spec_current_period_start(current_block)
                        <= #[trigger] self.beneficiaries[j].last_updated_period_block,
            decreases n - i,
        {
            let claimed_period_block = self.get_current_period_initial_block(current_block);
            if claimed_period_block > self.beneficiaries[i].last_updated_period_block {
                return Err(Error::PaymentsNotUpToDate);
            }
            i = i + 1;
        }
        Ok(())
    }

    /// Replaces the base payment. Owner-only; the value must be positive
    /// and the settlement guard satisfied, so that no beneficiary's accrual
    /// under the old rate is left ambiguous.
    pub fn update_base_payment(
        &mut self,
        base_payment: Balance,
        caller: AccountId,
        current_block: BlockNumber,
    ) -> (r: Result<(), Error>)
        requires
            old(self).wf(),
            old(self).initial_block <= current_block,
        ensures
            final(self).wf(),
            r is Err ==> *final(self) == *old(self),
            r == if caller != old(self).owner {
                Result::<(), Error>::Err(Error::NotOwner)
            } else if base_payment == 0 {
                Result::<(), Error>::Err(Error::InvalidParams)
            } else if !old(self).spec_all_claimed(current_block) {
                Result::<(), Error>::Err(Error::NotAllClaimedInPeriod)
            } else {
                Result::<(), Error>::Ok(())
            },
            r is Ok ==> *final(self) == (OpenPayroll { base_payment, ..*old(self) }),
    {
        self.ensure_owner(caller)?;
        if base_payment == 0 {
            return Err(Error::InvalidParams);
        }
        self.ensure_all_claimed_in_period(current_block)?;
        self.base_payment = base_payment;
        Ok(())
    }

    /// Replaces the periodicity. Owner-only; the value must be positive and
    /// the settlement guard satisfied.
    pub fn update_periodicity(
        &mut self,
        periodicity: u32,
        caller: AccountId,
        current_block: BlockNumber,
    ) -> (r: Result<(), Error>)
        requires
            old(self).wf(),
            old(self).initial_block <= current_block,
        ensures
            final(self).wf(),
            r is Err ==> *final(self) == *old(self),
            r == if caller != old(self).owner {
                Result::<(), Error>::Err(Error::NotOwner)
            } else if periodicity == 0 {
                Result::<(), Error>::Err(Error::InvalidParams)
            } else if !old(self).spec_all_claimed(current_block) {
                Result::<(), Error>::Err(Error::NotAllClaimedInPeriod)
            } else {
                Result::<(), Error>::Ok(())
            },
            r is Ok ==> *final(self) == (OpenPayroll { periodicity, ..*old(self) }),
    {
        self.ensure_owner(caller)?;
        if periodicity == 0 {
            return Err(Error::InvalidParams);
        }
        self.ensure_all_claimed_in_period(current_block)?;
        self.periodicity = periodicity;
        Ok(())
    }

    /// Registers a new multiplier under a fresh id. Owner-only; bounded by
    /// `MAX_MULTIPLIERS`.
    pub fn add_base_multiplier(&mut self, name: String, caller: AccountId) -> (r: Result<
        (),
        Error,
    >)
        requires
            old(self).wf(),
            old(self).next_multiplier_id < u32::MAX,
        ensures
            final(self).wf(),
            r is Err ==> *final(self) == *old(self),
            r == if caller != old(self).owner {
                Result::<(), Error>::Err(Error::NotOwner)
            } else if old(self).base_multipliers.len() + 1 > MAX_MULTIPLIERS {
                Result::<(), Error>::Err(Error::MaxMultipliersExceeded)
            } else {
                Result::<(), Error>::Ok(())
            },
            r is Ok ==> {
                &&& final(self).base_multipliers@ == old(self).base_multipliers@.push(
                    (
                        old(self).next_multiplier_id,
                        BaseMultiplier { name, valid_until_block: None },
                    ),
                )
                &&& final(self).next_multiplier_id == old(self).next_multiplier_id + 1
                &&& *old(self) == (OpenPayroll {
                    base_multipliers: old(self).base_multipliers,
                    next_multiplier_id: old(self).next_multiplier_id,
                    ..*final(self)
                })
            },
    {
        self.ensure_owner(caller)?;
        if self.base_multipliers.len() + 1 > MAX_MULTIPLIERS {
            return Err(Error::MaxMultipliersExceeded);
        }
        let base_multiplier = BaseMultiplier::new(name);
        self.base_multipliers.push((self.next_multiplier_id, base_multiplier));
        self.next_multiplier_id = self.next_multiplier_id + 1;
        Ok(())
    }

    /// Schedules the multiplier for deactivation at the next period start,
    /// so that it stays fully active through the entire current and the
    /// upcoming period and no in-flight accrual is retroactively reduced.
    /// Owner-only; the schedule, once set, is immutable.
    pub fn deactivate_multiplier(
        &mut self,
        multiplier_id: MultiplierId,
        caller: AccountId,
        current_block: BlockNumber,
    ) -> (r: Result<(), Error>)
        requires
            old(self).wf(),
            old(self).initial_block <= current_block,
            old(self).spec_current_period_start(current_block) + old(self).periodicity
                <= u32::MAX,
        ensures
            final(self).wf(),
            r is Err ==> *final(self) == *old(self),
            r == if caller != old(self).owner {
                Result::<(), Error>::Err(Error::NotOwner)
            } else {
                match spec_lookup_multiplier(old(self).base_multipliers@, multiplier_id) {
                    None => Result::<(), Error>::Err(Error::MultiplierNotFound),
                    Some(m) => if m.valid_until_block is Some {
                        Result::<(), Error>::Err(Error::MultiplierAlreadyDeactivated)
                    } else {
                        Result::<(), Error>::Ok(())
                    },
                }
            },
            r is Ok ==> {
                let i = spec_multiplier_index(old(self).base_multipliers@, multiplier_id);
                &&& final(self).base_multipliers@ == old(self).base_multipliers@.update(
                    i,
                    (
                        multiplier_id,
                        BaseMultiplier {
                            name: old(self).base_multipliers@[i].1.name,
                            valid_until_block: Some(
                                (old(self).spec_current_period_start(current_block) + old(
                                    self,
                                ).periodicity) as u32,
                            ),
                        },
                    ),
                )
                &&& *old(self) == (OpenPayroll {
                    base_multipliers: old(self).base_multipliers,
                    ..*final(self)
                })
            },
    {
        self.ensure_owner(caller)?;
        let i = match self.find_multiplier_index(multiplier_id) {
            Some(i) => i,
            None => {
                return Err(Error::MultiplierNotFound);
            },
        };
        if self.base_multipliers[i].1.valid_until_block.is_some() {
            return Err(Error::MultiplierAlreadyDeactivated);
        }
        let valid_until_block = self.get_current_period_initial_block(current_block)
            + self.periodicity;
        let name = self.base_multipliers[i].1.name.clone();
        self.base_multipliers[i] = (
            multiplier_id,
            BaseMultiplier { name, valid_until_block: Some(valid_until_block) },
        );
        Ok(())
    }

    /// Deletes a multiplier whose deactivation bound has passed. Owner-only;
    /// additionally requires the settlement guard, because deleting a weight
    /// definition while unclaimed balances still reference it would change
    /// what a stale owed computation means.
    pub fn delete_unused_multiplier(
        &mut self,
        multiplier_id: MultiplierId,
        caller: AccountId,
        current_block: BlockNumber,
    ) -> (r: Result<(), Error>)
        requires
            old(self).wf(),
            old(self).initial_block <= current_block,
        ensures
            final(self).wf(),
            r is Err ==> *final(self) == *old(self),
            r == if caller != old(self).owner {
                Result::<(), Error>::Err(Error::NotOwner)
            } else {
                match spec_lookup_multiplier(old(self).base_multipliers@, multiplier_id) {
                    None => Result::<(), Error>::Err(Error::MultiplierNotFound),
                    Some(m) => match m.valid_until_block {
                        None => Result::<(), Error>::Err(Error::MultiplierNotDeactivated),
                        Some(v) => if current_block <= v {
                            Result::<(), Error>::Err(Error::MultiplierNotExpired)
                        } else if !old(self).spec_all_claimed(current_block) {
                            Result::<(), Error>::Err(Error::NotAllClaimedInPeriod)
                        } else {
                            Result::<(), Error>::Ok(())
                        },
                    },
                }
            },
            r is Ok ==> {
                let i = spec_multiplier_index(old(self).base_multipliers@, multiplier_id);
                &&& final(self).base_multipliers@ == old(self).base_multipliers@.remove(i)
                &&& *old(self) == (OpenPayroll {
                    base_multipliers: old(self).base_multipliers,
                    ..*final(self)
                })
            },
    {
        self.ensure_owner(caller)?;
        let i = match self.find_multiplier_index(multiplier_id) {
            Some(i) => i,
            None => {
                return Err(Error::MultiplierNotFound);
            },
        };
        let valid_until = match self.base_multipliers[i].1.valid_until_block {
            None => {
                return Err(Error::MultiplierNotDeactivated);
            },
            Some(v) => v,
        };
        if current_block <= valid_until {
            return Err(Error::MultiplierNotExpired);
        }
        self.ensure_all_claimed_in_period(current_block)?;
        self.base_multipliers.remove(i);
        Ok(())
    }

    /// Registers a new beneficiary with the given weight list. Owner-only;
    /// the account must be fresh, the bound kept, and every weight id must
    /// name an active multiplier, with no id repeated. The record starts
    /// with no carryover, settled for the current period.
    pub fn add_beneficiary(
        &mut self,
        account_id: AccountId,
        multipliers: Vec<(MultiplierId, Multiplier)>,
        caller: AccountId,
        current_block: BlockNumber,
    ) -> (r: Result<(), Error>)
        requires
            old(self).wf(),
            old(self).initial_block <= current_block,
        ensures
            final(self).wf(),
            r is Err ==> *final(self) == *old(self),
            r == if caller != old(self).owner {
                Result::<(), Error>::Err(Error::NotOwner)
            } else if spec_has_beneficiary(old(self).beneficiaries@, account_id) {
                Result::<(), Error>::Err(Error::AccountAlreadyExists)
            } else if old(self).beneficiaries.len() + 1 > MAX_BENEFICIARIES {
                Result::<(), Error>::Err(Error::MaxBeneficiariesExceeded)
            } else if spec_validate_weights(multipliers@, old(self).base_multipliers@) is Err {
                spec_validate_weights(multipliers@, old(self).base_multipliers@)
            } else if !weights_unique(multipliers@) {
                Result::<(), Error>::Err(Error::DuplicatedMultipliers)
            } else {
                Result::<(), Error>::Ok(())
            },
            r is Ok ==> {
                &&& final(self).beneficiaries@ == old(self).beneficiaries@.push(
                    Beneficiary {
                        account_id,
                        multipliers,
                        unclaimed_payments: 0,
                        last_updated_period_block: old(self).spec_current_period_start(
                            current_block,
                        ) as u32,
                    },
                )
                &&& *old(self) == (OpenPayroll {
                    beneficiaries: old(self).beneficiaries,
                    ..*final(self)
                })
            },
    {
        self.ensure_owner(caller)?;
        if self.find_beneficiary_index(account_id).is_some() {
            return Err(Error::AccountAlreadyExists);
        }
        if self.beneficiaries.len() + 1 > MAX_BENEFICIARIES {
            return Err(Error::MaxBeneficiariesExceeded);
        }
        self.check_multipliers_are_valid(&multipliers)?;
        check_no_duplicate_multipliers(&multipliers)?;
        let last_updated_period_block = self.get_current_period_initial_block(current_block);
        proof {
            lemma_beneficiary_index_props(self.beneficiaries@, account_id);
        }
        self.beneficiaries.push(
            Beneficiary {
                account_id,
                multipliers,
                unclaimed_payments: 0,
                last_updated_period_block,
            },
        );
        proof {
            let s0 = old(self).beneficiaries@;
            let s1 = self.beneficiaries@;
            assert(forall|k: int| 0 <= k < s0.len() ==> s1[k] == s0[k]);
            assert(s1[s0.len() as int].account_id == account_id);
        }
        Ok(())
    }

    /// Replaces an existing beneficiary's weight list. Owner-only; the
    /// weights are validated as at registration. The owed-but-unclaimed
    /// balance up to now (computed on the old record, by the read-only query
    /// rule) is preserved into the new record's carryover, so changing
    /// weights never loses accrued value.
    pub fn update_beneficiary(
        &mut self,
        account_id: AccountId,
        multipliers: Vec<(MultiplierId, Multiplier)>,
        caller: AccountId,
        current_block: BlockNumber,
    ) -> (r: Result<(), Error>)
        requires
            old(self).wf(),
            old(self).clock_in_sync(current_block),
            (caller == old(self).owner && spec_has_beneficiary(
                old(self).beneficiaries@,
                account_id,
            )) ==> old(self).query_fits(account_id, current_block),
        ensures
            final(self).wf(),
            final(self).clock_in_sync(current_block),
            r is Err ==> *final(self) == *old(self),
            r == if caller != old(self).owner {
                Result::<(), Error>::Err(Error::NotOwner)
            } else if !spec_has_beneficiary(old(self).beneficiaries@, account_id) {
                Result::<(), Error>::Err(Error::AccountNotFound)
            } else if spec_validate_weights(multipliers@, old(self).base_multipliers@) is Err {
                spec_validate_weights(multipliers@, old(self).base_multipliers@)
            } else if !weights_unique(multipliers@) {
                Result::<(), Error>::Err(Error::DuplicatedMultipliers)
            } else {
                Result::<(), Error>::Ok(())
            },
            r is Ok ==> {
                let i = spec_beneficiary_index(old(self).beneficiaries@, account_id);
                let b = old(self).beneficiaries@[i];
                &&& final(self).beneficiaries@ == old(self).beneficiaries@.update(
                    i,
                    Beneficiary {
                        account_id,
                        multipliers,
                        unclaimed_payments: spec_owed(
                            b,
                            old(self).base_multipliers@,
                            old(self).base_payment,
                            old(self).periodicity,
                            current_block,
                            false,
                        ) as u128,
                        last_updated_period_block: old(self).spec_current_period_start(
                            current_block,
                        ) as u32,
                    },
                )
                &&& *old(self) == (OpenPayroll {
                    beneficiaries: old(self).beneficiaries,
                    ..*final(self)
                })
            },
    {
        self.ensure_owner(caller)?;
        let idx = match self.find_beneficiary_index(account_id) {
            Some(i) => i,
            None => {
                return Err(Error::AccountNotFound);
            },
        };
        self.check_multipliers_are_valid(&multipliers)?;
        check_no_duplicate_multipliers(&multipliers)?;
        proof {
            lemma_owed_nonneg(
                self.beneficiaries@[idx as int],
                self.base_multipliers@,
                self.base_payment,
                self.periodicity,
                current_block,
                false,
            );
        }
        let unclaimed_payments = self.amount_to_claim_in_block(
            &self.beneficiaries[idx],
            false,
            current_block,
        );
        let last_updated_period_block = self.get_current_period_initial_block(current_block);
        self.beneficiaries[idx] = Beneficiary {
            account_id,
            multipliers,
            unclaimed_payments,
            last_updated_period_block,
        };
        Ok(())
    }

    /// Removes a beneficiary from the registry and the index atomically,
    /// preserving the relative order of the remaining entries. Owner-only.
    pub fn remove_beneficiary(&mut self, account_id: AccountId, caller: AccountId) -> (r: Result<
        (),
        Error,
    >)
        requires
            old(self).wf(),
        ensures
            final(self).wf(),
            r is Err ==> *final(self) == *old(self),
            r == if caller != old(self).owner {
                Result::<(), Error>::Err(Error::NotOwner)
            } else if !spec_has_beneficiary(old(self).beneficiaries@, account_id) {
                Result::<(), Error>::Err(Error::AccountNotFound)
            } else {
                Result::<(), Error>::Ok(())
            },
            r is Ok ==> {
                &&& final(self).beneficiaries@ == old(self).beneficiaries@.remove(
                    spec_beneficiary_index(old(self).beneficiaries@, account_id),
                )
                &&& *old(self) == (OpenPayroll {
                    beneficiaries: old(self).beneficiaries,
                    ..*final(self)
                })
            },
    {
        self.ensure_owner(caller)?;
        let idx = match self.find_beneficiary_index(account_id) {
            Some(i) => i,
            None => {
                return Err(Error::AccountNotFound);
            },
        };
        self.beneficiaries.remove(idx);
        Ok(())
    }

    /// Removes from a weight list every weight whose multiplier's
    /// deactivation bound has been reached at `now`.
    fn sweep_expired(&self, m: &Vec<(MultiplierId, Multiplier)>, now: BlockNumber) -> (r: Vec<
        (MultiplierId, Multiplier),
    >)
        ensures
            r@ == spec_swept(m@, self.base_multipliers@, now),
    {
        let n = m.len();
        let mut out: Vec<(MultiplierId, Multiplier)> = Vec::new();
        let mut i: usize = 0;
        while i < n
            invariant
                i <= n,
                n == m.len(),
                out@ == spec_swept(m@.take(i as int), self.base_multipliers@, now),
            decreases n - i,
        {
            proof {
                assert(m@.take(i as int + 1).drop_last() =~= m@.take(i as int));
                assert(m@.take(i as int + 1).last() == m@[i as int]);
            }
            if self.multiplier_kept(m[i].0, now) {
                out.push(m[i]);
                proof {
                    assert(out@ =~= spec_swept(m@.take(i as int + 1), self.base_multipliers@, now));
                }
            } else {
                proof {
                    assert(out@ =~= spec_swept(m@.take(i as int + 1), self.base_multipliers@, now));
                }
            }
            i = i + 1;
        }
        proof {
            assert(m@.take(n as int) =~= m@);
        }
        out
    }

    /// Records one settlement event for the period starting at
    /// `claiming_period_block`.
    fn update_claims_in_period(&mut self, claiming_period_block: BlockNumber)
        requires
            old(self).claims_in_period.total_claims < u32::MAX,
        ensures
            final(self).claims_in_period == spec_record_claim(
                old(self).claims_in_period,
                claiming_period_block,
            ),
            *old(self) == (OpenPayroll {
                claims_in_period: old(self).claims_in_period,
                ..*final(self)
            }),
    {
        if claiming_period_block == self.claims_in_period.period {
            self.claims_in_period.total_claims = self.claims_in_period.total_claims + 1;
        } else {
            self.claims_in_period.period = claiming_period_block;
            self.claims_in_period.total_claims = 1;
        }
    }

    /// What a claim of any amount can pay `account_id` at `now`: the owed
    /// amount computed after the expiry sweep, every remaining stored weight
    /// counted.
    pub open spec fn spec_claim_total(self, account_id: AccountId, now: BlockNumber) -> int
        recommends
            spec_has_beneficiary(self.beneficiaries@, account_id),
    {
        let b = spec_lookup_beneficiary(self.beneficiaries@, account_id)->Some_0;
        spec_owed_parts(
            spec_swept(b.multipliers@, self.base_multipliers@, now),
            b.unclaimed_payments,
            b.last_updated_period_block,
            self.base_multipliers@,
            self.base_payment,
            self.periodicity,
            now,
            true,
        )
    }

    /// Whether a claim's computations for `account_id` fit the machine
    /// types; vacuously true for an unknown account.
    pub open spec fn claim_fits(self, account_id: AccountId, now: BlockNumber) -> bool {
        match spec_lookup_beneficiary(self.beneficiaries@, account_id) {
            Some(b) => {
                &&& sum_weights(b.multipliers@) * self.base_payment <= u128::MAX
                &&& self.spec_claim_total(account_id, now) <= u128::MAX
                &&& self.claims_in_period.total_claims < u32::MAX
            },
            None => true,
        }
    }

    /// Claims `amount` for `account_id` at `current_block`, against a
    /// treasury holding `treasury_balance`.
    ///
    /// On success the host must transfer `amount` to `account_id` (when
    /// positive) as the last step of the call, and discard the new state,
    /// answering `TransferFailed`, if that transfer fails: only then does a
    /// failed call leave the ledger unchanged.
    ///
    /// The record's expired weights are swept, its carryover becomes
    /// everything owed minus `amount`, and it is settled for the current
    /// period; one settlement event is recorded the first time the record
    /// settles this period, even for a zero amount, which is the sanctioned
    /// way to settle without withdrawing funds.
    pub fn claim_payment(
        &mut self,
        account_id: AccountId,
        amount: Balance,
        current_block: BlockNumber,
        treasury_balance: Balance,
    ) -> (r: Result<(), Error>)
        requires
            old(self).wf(),
            old(self).clock_in_sync(current_block),
            old(self).claim_fits(account_id, current_block),
        ensures
            final(self).wf(),
            final(self).clock_in_sync(current_block),
            r is Err ==> *final(self) == *old(self),
            r == if old(self).spec_is_paused() {
                Result::<(), Error>::Err(Error::ContractIsPaused)
            } else if !spec_has_beneficiary(old(self).beneficiaries@, account_id) {
                Result::<(), Error>::Err(Error::AccountNotFound)
            } else if amount > old(self).spec_claim_total(account_id, current_block) {
                Result::<(), Error>::Err(Error::ClaimedAmountIsBiggerThanAvailable)
            } else if amount > treasury_balance {
                Result::<(), Error>::Err(Error::NotEnoughBalanceInTreasury)
            } else {
                Result::<(), Error>::Ok(())
            },
            r is Ok ==> {
                let i = spec_beneficiary_index(old(self).beneficiaries@, account_id);
                let b = old(self).beneficiaries@[i];
                let cps = old(self).spec_current_period_start(current_block);
                &&& final(self).beneficiaries@ == old(self).beneficiaries@.update(
                    i,
                    final(self).beneficiaries@[i],
                )
                &&& final(self).beneficiaries@[i].account_id == account_id
                &&& final(self).beneficiaries@[i].multipliers@ == spec_swept(
                    b.multipliers@,
                    old(self).base_multipliers@,
                    current_block,
                )
                &&& final(self).beneficiaries@[i].unclaimed_payments == old(self).spec_claim_total(
                    account_id,
                    current_block,
                ) - amount
                &&& final(self).beneficiaries@[i].last_updated_period_block == cps
                &&& final(self).claims_in_period == if b.last_updated_period_block != cps {
                    spec_record_claim(old(self).claims_in_period, cps as u32)
                } else {
                    old(self).claims_in_period
                }
                &&& *old(self) == (OpenPayroll {
                    beneficiaries: old(self).beneficiaries,
                    claims_in_period: old(self).claims_in_period,
                    ..*final(self)
                })
            },
    {
        self.ensure_is_not_paused()?;
        let idx = match self.find_beneficiary_index(account_id) {
            Some(i) => i,
            None => {
                return Err(Error::AccountNotFound);
            },
        };
        let swept = self.sweep_expired(&self.beneficiaries[idx].multipliers, current_block);
        proof {
            lemma_sum_swept_le(
                self.beneficiaries@[idx as int].multipliers@,
                self.base_multipliers@,
                current_block,
            );
            lemma_mul_inequality(
                sum_weights(swept@),
                sum_weights(self.beneficiaries@[idx as int].multipliers@),
                self.base_payment as int,
            );
            lemma_swept_weights_unique(
                self.beneficiaries@[idx as int].multipliers@,
                self.base_multipliers@,
                current_block,
            );
        }
        let swept_record = Beneficiary {
            account_id,
            multipliers: swept,
            unclaimed_payments: self.beneficiaries[idx].unclaimed_payments,
            last_updated_period_block: self.beneficiaries[idx].last_updated_period_block,
        };
        let total_payment = self.amount_to_claim_in_block(&swept_record, true, current_block);
        if amount > total_payment {
            return Err(Error::ClaimedAmountIsBiggerThanAvailable);
        }
        if amount > treasury_balance {
            return Err(Error::NotEnoughBalanceInTreasury);
        }
        let claiming_period_block = self.get_current_period_initial_block(current_block);
        if self.beneficiaries[idx].last_updated_period_block != claiming_period_block {
            self.update_claims_in_period(claiming_period_block);
        }
        self.beneficiaries[idx] = Beneficiary {
            account_id,
            multipliers: swept_record.multipliers,
            unclaimed_payments: total_payment - amount,
            last_updated_period_block: claiming_period_block,
        };
        Ok(())
    }

    /// Creates the ledger: positive parameters, at most the bounded numbers
    /// of multipliers (named in order, with ids starting at 0) and
    /// beneficiaries (unique accounts, each with exactly one weight per
    /// multiplier, no id repeated). Every record starts with no carryover,
    /// settled at genesis.
    pub fn new(
        periodicity: u32,
        base_payment: Balance,
        initial_base_multipliers: Vec<String>,
        initial_beneficiaries: Vec<InitialBeneficiary>,
        owner: AccountId,
        initial_block: BlockNumber,
    ) -> (r: Result<OpenPayroll, Error>)
        ensures
            ({
                let ids = initial_beneficiaries@.map_values(|b: InitialBeneficiary| b.account_id);
                let verdict = if base_payment == 0 || periodicity == 0 {
                    Result::<(), Error>::Err(Error::InvalidParams)
                } else if !accounts_unique(ids) {
                    Result::<(), Error>::Err(Error::DuplicatedBeneficiaries)
                } else if initial_beneficiaries@.len() > MAX_BENEFICIARIES {
                    Result::<(), Error>::Err(Error::MaxBeneficiariesExceeded)
                } else if initial_base_multipliers@.len() > MAX_MULTIPLIERS {
                    Result::<(), Error>::Err(Error::MaxMultipliersExceeded)
                } else {
                    spec_validate_initial(
                        initial_beneficiaries@,
                        initial_base_multipliers@.len() as int,
                    )
                };
                match r {
                    Result::Err(e) => verdict == Result::<(), Error>::Err(e),
                    Result::Ok(c) => {
                        &&& verdict is Ok
                        &&& c.wf()
                        &&& c.owner == owner
                        &&& c.transfered_owner is None
                        &&& c.periodicity == periodicity
                        &&& c.base_payment == base_payment
                        &&& c.initial_block == initial_block
                        &&& c.paused_block_at is None
                        &&& c.next_multiplier_id == initial_base_multipliers@.len()
                        &&& c.claims_in_period == (ClaimsInPeriod { period: 0, total_claims: 0 })
                        &&& c.base_multipliers@.len() == initial_base_multipliers@.len()
                        &&& forall|i: int|
                            0 <= i < initial_base_multipliers@.len()
                                ==> #[trigger] c.base_multipliers@[i] == (
                                i as u32,
                                BaseMultiplier {
                                    name: initial_base_multipliers@[i],
                                    valid_until_block: None,
                                },
                            )
                        &&& c.beneficiaries@.len() == initial_beneficiaries@.len()
                        &&& forall|i: int|
                            0 <= i < initial_beneficiaries@.len() ==> {
                                &&& (#[trigger] c.beneficiaries@[i]).account_id
                                    == initial_beneficiaries@[i].account_id
                                &&& c.beneficiaries@[i].multipliers@
                                    == initial_beneficiaries@[i].multipliers@
                                &&& c.beneficiaries@[i].unclaimed_payments == 0
                                &&& c.beneficiaries@[i].last_updated_period_block == initial_block
                            }
                    },
                }
            }),
    {
        if base_payment == 0 || periodicity == 0 {
            return Err(Error::InvalidParams);
        }
        let n_beneficiaries = initial_beneficiaries.len();
        let mut ids: Vec<AccountId> = Vec::new();
        let mut i: usize = 0;
        while i < n_beneficiaries
            invariant
                i <= n_beneficiaries,
                n_beneficiaries == initial_beneficiaries.len(),
                ids@ == initial_beneficiaries@.take(i as int).map_values(
                    |b: InitialBeneficiary| b.account_id,
                ),
            decreases n_beneficiaries - i,
        {
            ids.push(initial_beneficiaries[i].account_id);
            proof {
                assert(ids@ =~= initial_beneficiaries@.take(i as int + 1).map_values(
                    |b: InitialBeneficiary| b.account_id,
                ));
            }
            i = i + 1;
        }
        proof {
            assert(initial_beneficiaries@.take(n_beneficiaries as int) =~= initial_beneficiaries@);
        }
        check_no_duplicate_beneficiaries(&ids)?;
        if initial_beneficiaries.len() > MAX_BENEFICIARIES {
            return Err(Error::MaxBeneficiariesExceeded);
        }
        let n_multipliers = initial_base_multipliers.len();
        if n_multipliers > MAX_MULTIPLIERS {
            return Err(Error::MaxMultipliersExceeded);
        }
        let mut base_multipliers: Vec<(MultiplierId, BaseMultiplier)> = Vec::new();
        let mut i: usize = 0;
        while i < n_multipliers
            invariant
                i <= n_multipliers,
                n_multipliers == initial_base_multipliers.len(),
                n_multipliers <= MAX_MULTIPLIERS,
                base_multipliers@.len() == i,
                forall|j: int|
                    0 <= j < i ==> #[trigger] base_multipliers@[j] == (
                        j as u32,
                        BaseMultiplier {
                            name: initial_base_multipliers@[j],
                            valid_until_block: None,
                        },
                    ),
            decreases n_multipliers - i,
        {
            base_multipliers.push(
                (i as u32, BaseMultiplier::new(initial_base_multipliers[i].clone())),
            );
            i = i + 1;
        }
        let mut beneficiaries: Vec<Beneficiary> = Vec::new();
        let mut i: usize = 0;
        proof {
            assert(initial_beneficiaries@.skip(0) =~= initial_beneficiaries@);
        }
        while i < n_beneficiaries
            invariant
                i <= n_beneficiaries,
                n_beneficiaries == initial_beneficiaries.len(),
                n_multipliers == initial_base_multipliers.len(),
                base_payment != 0,
                periodicity != 0,
                accounts_unique(
                    initial_beneficiaries@.map_values(|b: InitialBeneficiary| b.account_id),
                ),
                n_beneficiaries <= MAX_BENEFICIARIES,
                n_multipliers <= MAX_MULTIPLIERS,
                spec_validate_initial(initial_beneficiaries@, n_multipliers as int)
                    == spec_validate_initial(
                    initial_beneficiaries@.skip(i as int),
                    n_multipliers as int,
                ),
                beneficiaries@.len() == i,
                forall|j: int|
                    0 <= j < i ==> {
                        &&& (#[trigger] beneficiaries@[j]).account_id
                            == initial_beneficiaries@[j].account_id
                        &&& beneficiaries@[j].multipliers@
                            == initial_beneficiaries@[j].multipliers@
                        &&& beneficiaries@[j].unclaimed_payments == 0
                        &&& beneficiaries@[j].last_updated_period_block == initial_block
                        &&& weights_unique(beneficiaries@[j].multipliers@)
                    },
            decreases n_beneficiaries - i,
        {
            proof {
                assert(initial_beneficiaries@.skip(i as int)[0]
                    == initial_beneficiaries@[i as int]);
                assert(initial_beneficiaries@.skip(i as int).drop_first()
                    =~= initial_beneficiaries@.skip(i as int + 1));
            }
            if initial_beneficiaries[i].multipliers.len() != n_multipliers {
                return Err(Error::InvalidMultipliersLength);
            }
            check_no_duplicate_multipliers(&initial_beneficiaries[i].multipliers)?;
            beneficiaries.push(
                Beneficiary {
                    account_id: initial_beneficiaries[i].account_id,
                    multipliers: copy_weights(&initial_beneficiaries[i].multipliers),
                    unclaimed_payments: 0,
                    last_updated_period_block: initial_block,
                },
            );
            i = i + 1;
        }
        proof {
            assert(initial_beneficiaries@.skip(n_beneficiaries as int) =~= Seq::<
                InitialBeneficiary,
            >::empty());
            let f = |b: InitialBeneficiary| b.account_id;
            let mapped = initial_beneficiaries@.map_values(f);
            assert forall|p: int, q: int|
                0 <= p < q < beneficiaries@.len() implies beneficiaries@[p].account_id
                != beneficiaries@[q].account_id by {
                assert(mapped[p] == initial_beneficiaries@[p].account_id);
                assert(mapped[q] == initial_beneficiaries@[q].account_id);
            }
        }
        Ok(
            OpenPayroll {
                transfered_owner: None,
                owner,
                beneficiaries,
                periodicity,
                base_payment,
                initial_block,
                paused_block_at: None,
                next_multiplier_id: n_multipliers as u32,
                base_multipliers,
                claims_in_period: ClaimsInPeriod { period: 0, total_claims: 0 },
            },
        )
    }

    /// Every registered weight sum, scaled by the base payment, fits the
    /// balance type.
    pub open spec fn weights_fit_all(self) -> bool {
        forall|i: int|
            0 <= i < self.beneficiaries.len() ==> sum_weights(
                (#[trigger] self.beneficiaries@[i]).multipliers@,
            ) * self.base_payment <= u128::MAX
    }

    /// The total owed, by the read-only query rule, to the beneficiaries not
    /// settled for the period containing `now`.
    pub open spec fn spec_total_debts(self, now: BlockNumber) -> int {
        spec_debts(
            self.beneficiaries@,
            self.base_multipliers@,
            self.base_payment,
            self.periodicity,
            now,
            self.spec_current_period_start(now),
        )
    }

    /// The total owed to every beneficiary for one period.
    pub open spec fn spec_total_debt_for_next_period(self) -> int {
        spec_next_period_debts(self.beneficiaries@, self.base_multipliers@, self.base_payment)
    }

    /// The total everyone could claim at the next period start, carryovers
    /// included.
    pub open spec fn spec_total_debt_with_unclaimed(self, now: BlockNumber) -> int {
        spec_debts_at(
            self.beneficiaries@,
            self.base_multipliers@,
            self.base_payment,
            self.periodicity,
            (self.spec_current_period_start(now) + self.periodicity) as u32,
        )
    }

    /// The total owed right now to the beneficiaries that have not settled
    /// the current period: what the treasury would need to bring everyone
    /// current.
    pub fn get_total_debts(&self, current_block: BlockNumber) -> (r: Balance)
        requires
            self.wf(),
            self.clock_in_sync(current_block),
            self.weights_fit_all(),
            self.spec_total_debts(current_block) <= u128::MAX,
        ensures
            r as int == self.spec_total_debts(current_block),
    {
        let claiming_period_block = self.get_current_period_initial_block(current_block);
        let ghost cps = self.spec_current_period_start(current_block);
        let n = self.beneficiaries.len();
        let mut debts: u128 = 0;
        let mut i: usize = 0;
        while i < n
            invariant
                i <= n,
                n == self.beneficiaries.len(),
                self.wf(),
                self.clock_in_sync(current_block),
                self.weights_fit_all(),
                self.spec_total_debts(current_block) <= u128::MAX,
                claiming_period_block == cps,
                cps == self.spec_current_period_start(current_block),
                debts as int == spec_debts(
                    self.beneficiaries@.take(i as int),
                    self.base_multipliers@,
                    self.base_payment,
                    self.periodicity,
                    current_block,
                    cps,
                ),
            decreases n - i,
        {
            proof {
                assert(self.beneficiaries@.take(i as int + 1).drop_last() =~= self.beneficiaries@.take(i as int));
                assert(self.beneficiaries@.take(i as int + 1).last() == self.beneficiaries@[i as int]);
                lemma_debts_take_le(
                    self.beneficiaries@,
                    self.base_multipliers@,
                    self.base_payment,
                    self.periodicity,
                    current_block,
                    cps,
                    i as int + 1,
                );
                lemma_owed_nonneg(
                    self.beneficiaries@[i as int],
                    self.base_multipliers@,
                    self.base_payment,
                    self.periodicity,
                    current_block,
                    false,
                );
            }
            if self.beneficiaries[i].last_updated_period_block < claiming_period_block {
                let amount = self.amount_to_claim_in_block(
                    &self.beneficiaries[i],
                    false,
                    current_block,
                );
                debts = debts + amount;
            }
            i = i + 1;
        }
        proof {
            assert(self.beneficiaries@.take(n as int) =~= self.beneficiaries@);
        }
        debts
    }

    /// The total owed to every beneficiary for one period, weights of
    /// deactivated multipliers not counted.
    pub fn get_total_debt_for_next_period(&self) -> (r: Balance)
        requires
            self.wf(),
            self.weights_fit_all(),
            self.spec_total_debt_for_next_period() <= u128::MAX,
        ensures
            r as int == self.spec_total_debt_for_next_period(),
    {
        let n = self.beneficiaries.len();
        let mut total: u128 = 0;
        let mut i: usize = 0;
        while i < n
            invariant
                i <= n,
                n == self.beneficiaries.len(),
                self.wf(),
                self.weights_fit_all(),
                self.spec_total_debt_for_next_period() <= u128::MAX,
                total as int == spec_next_period_debts(
                    self.beneficiaries@.take(i as int),
                    self.base_multipliers@,
                    self.base_payment,
                ),
            decreases n - i,
        {
            proof {
                assert(self.beneficiaries@.take(i as int + 1).drop_last() =~= self.beneficiaries@.take(i as int));
                assert(self.beneficiaries@.take(i as int + 1).last() == self.beneficiaries@[i as int]);
                lemma_next_period_debts_take_le(
                    self.beneficiaries@,
                    self.base_multipliers@,
                    self.base_payment,
                    i as int + 1,
                );
                lemma_payment_per_period_nonneg(
                    self.beneficiaries@[i as int].multipliers@,
                    self.base_multipliers@,
                    self.base_payment,
                    false,
                );
            }
            let amount = self.amount_to_claim_for_one_period(&self.beneficiaries[i], false);
            total = total + amount;
            i = i + 1;
        }
        proof {
            assert(self.beneficiaries@.take(n as int) =~= self.beneficiaries@);
        }
        total
    }

    /// The total everyone could claim at the next period start, carryovers
    /// included, weights of deactivated multipliers not counted.
    pub fn get_total_debt_with_unclaimed_for_next_period(&self, current_block: BlockNumber) -> (r:
        Balance)
        requires
            self.wf(),
            self.clock_in_sync(current_block),
            self.spec_current_period_start(current_block) + self.periodicity <= u32::MAX,
            self.weights_fit_all(),
            self.spec_total_debt_with_unclaimed(current_block) <= u128::MAX,
        ensures
            r as int == self.spec_total_debt_with_unclaimed(current_block),
    {
        let block_next_period = self.get_next_block_period(current_block);
        proof {
            lemma_period_start_bounds(
                current_block as int,
                self.initial_block as int,
                self.periodicity as int,
            );
        }
        let n = self.beneficiaries.len();
        let mut total: u128 = 0;
        let mut i: usize = 0;
        while i < n
            invariant
                i <= n,
                n == self.beneficiaries.len(),
                self.wf(),
                self.clock_in_sync(current_block),
                self.weights_fit_all(),
                self.spec_total_debt_with_unclaimed(current_block) <= u128::MAX,
                current_block < block_next_period,
                block_next_period == self.spec_current_period_start(current_block)
                    + self.periodicity,
                total as int == spec_debts_at(
                    self.beneficiaries@.take(i as int),
                    self.base_multipliers@,
                    self.base_payment,
                    self.periodicity,
                    block_next_period,
                ),
            decreases n - i,
        {
            proof {
                assert(self.beneficiaries@.take(i as int + 1).drop_last() =~= self.beneficiaries@.take(i as int));
                assert(self.beneficiaries@.take(i as int + 1).last() == self.beneficiaries@[i as int]);
                lemma_debts_at_take_le(
                    self.beneficiaries@,
                    self.base_multipliers@,
                    self.base_payment,
                    self.periodicity,
                    block_next_period,
                    i as int + 1,
                );
                lemma_owed_nonneg(
                    self.beneficiaries@[i as int],
                    self.base_multipliers@,
                    self.base_payment,
                    self.periodicity,
                    block_next_period,
                    false,
                );
            }
            let amount = self.amount_to_claim_in_block(
                &self.beneficiaries[i],
                false,
                block_next_period,
            );
            total = total + amount;
            i = i + 1;
        }
        proof {
            assert(self.beneficiaries@.take(n as int) =~= self.beneficiaries@);
        }
        total
    }

    /// The treasury balance that would remain after paying every current
    /// debt.
    pub fn get_balance_with_debts(
        &self,
        treasury_balance: Balance,
        current_block: BlockNumber,
    ) -> (r: Balance)
        requires
            self.wf(),
            self.clock_in_sync(current_block),
            self.weights_fit_all(),
            self.spec_total_debts(current_block) <= treasury_balance,
        ensures
            r as int == treasury_balance - self.spec_total_debts(current_block),
    {
        proof {
            lemma_debts_take_le(
                self.beneficiaries@,
                self.base_multipliers@,
                self.base_payment,
                self.periodicity,
                current_block,
                self.spec_current_period_start(current_block),
                0,
            );
        }
        treasury_balance - self.get_total_debts(current_block)
    }

    /// The accounts that have not settled the current period, in
    /// registration order.
    pub fn get_unclaimed_beneficiaries(&self, current_block: BlockNumber) -> (r: Vec<AccountId>)
        requires
            self.wf(),
            self.initial_block <= current_block,
        ensures
            r@ == spec_unclaimed_accounts(
                self.beneficiaries@,
                self.spec_current_period_start(current_block),
            ),
    {
        let claiming_period_block = self.get_current_period_initial_block(current_block);
        let ghost cps = self.spec_current_period_start(current_block);
        let n = self.beneficiaries.len();
        let mut unclaimed: Vec<AccountId> = Vec::new();
        let mut i: usize = 0;
        while i < n
            invariant
                i <= n,
                n == self.beneficiaries.len(),
                claiming_period_block == cps,
                unclaimed@ == spec_unclaimed_accounts(self.beneficiaries@.take(i as int), cps),
            decreases n - i,
        {
            proof {
                assert(self.beneficiaries@.take(i as int + 1).drop_last() =~= self.beneficiaries@.take(i as int));
                assert(self.beneficiaries@.take(i as int + 1).last() == self.beneficiaries@[i as int]);
            }
            if self.beneficiaries[i].last_updated_period_block < claiming_period_block {
                unclaimed.push(self.beneficiaries[i].account_id);
            }
            proof {
                assert(unclaimed@ =~= spec_unclaimed_accounts(
                    self.beneficiaries@.take(i as int + 1),
                    cps,
                ));
            }
            i = i + 1;
        }
        proof {
            assert(self.beneficiaries@.take(n as int) =~= self.beneficiaries@);
        }
        unclaimed
    }

    /// How many accounts have not settled the current period.
    pub fn get_count_of_unclaim_beneficiaries(&self, current_block: BlockNumber) -> (r: u8)
        requires
            self.wf(),
            self.initial_block <= current_block,
        ensures
            r as int == spec_unclaimed_accounts(
                self.beneficiaries@,
                self.spec_current_period_start(current_block),
            ).len(),
    {
        let claiming_period_block = self.get_current_period_initial_block(current_block);
        let ghost cps = self.spec_current_period_start(current_block);
        let n = self.beneficiaries.len();
        let mut total: u8 = 0;
        let mut i: usize = 0;
        while i < n
            invariant
                i <= n,
                n == self.beneficiaries.len(),
                n <= MAX_BENEFICIARIES,
                claiming_period_block == cps,
                total as int <= i,
                total as int == spec_unclaimed_accounts(
                    self.beneficiaries@.take(i as int),
                    cps,
                ).len(),
            decreases n - i,
        {
            proof {
                assert(self.beneficiaries@.take(i as int + 1).drop_last() =~= self.beneficiaries@.take(i as int));
                assert(self.beneficiaries@.take(i as int + 1).last() == self.beneficiaries@[i as int]);
            }
            if self.beneficiaries[i].last_updated_period_block < claiming_period_block {
                total = total + 1;
            }
            i = i + 1;
        }
        proof {
            assert(self.beneficiaries@.take(n as int) =~= self.beneficiaries@);
        }
        total
    }

    /// The start of the period after the one containing `current_block`.
    pub fn get_next_block_period(&self, current_block: BlockNumber) -> (r: BlockNumber)
        requires
            self.wf(),
            self.initial_block <= current_block,
            self.spec_current_period_start(current_block) + self.periodicity <= u32::MAX,
        ensures
            r == self.spec_current_period_start(current_block) + self.periodicity,
    {
        self.get_current_period_initial_block(current_block) + self.periodicity
    }
}

} // verus!
