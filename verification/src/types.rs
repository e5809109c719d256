//! The data model of the ledger: multipliers, beneficiaries and the
//! per-period settlement tally, together with the spec-level views the
//! contracts are stated over.

use vstd::prelude::*;

verus! {

/// An account identifier supplied by the host.
pub type AccountId = u64;

/// A treasury amount.
pub type Balance = u128;

/// A block height supplied by the host's monotonic clock.
pub type BlockNumber = u32;

/// The id of a registered multiplier.
pub type MultiplierId = u32;

/// An integer weight contributing additively to a per-period payment.
pub type Multiplier = u128;

/// A named weight factor, optionally scheduled for deactivation.
/// `valid_until_block == None` means perpetually active; once scheduled,
/// the bound is immutable until the multiplier is deleted.
#[derive(Clone, Debug, PartialEq, Eq)]
pub struct BaseMultiplier {
    pub name: String,
    pub valid_until_block: Option<BlockNumber>,
}

impl BaseMultiplier {
    /// A fresh multiplier is perpetually active.
    pub fn new(name: String) -> (r: Self)
        ensures
            r.name == name,
            r.valid_until_block is None,
    {
        Self { name, valid_until_block: None }
    }
}

/// A registered participant: a set of multiplier weights (unique ids), the
/// residual owed balance not yet withdrawn, and the start of the last period
/// the record was settled for.
#[derive(Clone, Debug, PartialEq, Eq)]
pub struct Beneficiary {
    pub account_id: AccountId,
    pub multipliers: Vec<(MultiplierId, Multiplier)>,
    pub unclaimed_payments: Balance,
    pub last_updated_period_block: BlockNumber,
}

/// A beneficiary handed to the constructor: an account and its weight list.
#[derive(Clone, Debug, PartialEq, Eq)]
pub struct InitialBeneficiary {
    pub account_id: AccountId,
    pub multipliers: Vec<(MultiplierId, Multiplier)>,
}

/// The settlement tally: how many claim events were observed in the period
/// that starts at `period`. Reset whenever a claim is observed in a new
/// period.
#[derive(Clone, Copy, Debug, PartialEq, Eq, Structural)]
pub struct ClaimsInPeriod {
    pub period: BlockNumber,
    pub total_claims: u32,
}

/// What one settlement event does to the tally: increment it when the event
/// falls in the tally's period, else reset the tally to that period with one
/// event counted.
pub open spec fn spec_record_claim(c: ClaimsInPeriod, period: BlockNumber) -> ClaimsInPeriod {
    if period == c.period {
        ClaimsInPeriod { period: c.period, total_claims: (c.total_claims + 1) as u32 }
    } else {
        ClaimsInPeriod { period, total_claims: 1 }
    }
}

/// No multiplier id occurs twice in a weight list.
pub open spec fn weights_unique(s: Seq<(MultiplierId, Multiplier)>) -> bool {
    forall|i: int, j: int| 0 <= i < j < s.len() ==> s[i].0 != s[j].0
}

/// The sum of every weight in the list.
pub open spec fn sum_weights(s: Seq<(MultiplierId, Multiplier)>) -> int
    decreases s.len(),
{
    if s.len() == 0 {
        0
    } else {
        sum_weights(s.drop_last()) + s.last().1
    }
}

/// A sum of weights is never negative.
pub proof fn lemma_sum_weights_nonneg(s: Seq<(MultiplierId, Multiplier)>)
    ensures
        sum_weights(s) >= 0,
    decreases s.len(),
{
    if s.len() > 0 {
        lemma_sum_weights_nonneg(s.drop_last());
    }
}

/// The index of the first beneficiary registered under `id`, or -1.
pub open spec fn spec_beneficiary_index(s: Seq<Beneficiary>, id: AccountId) -> int
    decreases s.len(),
{
    if s.len() == 0 {
        -1
    } else if s[0].account_id == id {
        0
    } else {
        let r = spec_beneficiary_index(s.drop_first(), id);
        if r < 0 {
            -1
        } else {
            r + 1
        }
    }
}

/// Whether some beneficiary is registered under `id`.
pub open spec fn spec_has_beneficiary(s: Seq<Beneficiary>, id: AccountId) -> bool {
    spec_beneficiary_index(s, id) >= 0
}

/// The beneficiary registered under `id`, when there is one.
pub open spec fn spec_lookup_beneficiary(s: Seq<Beneficiary>, id: AccountId) -> Option<Beneficiary> {
    if spec_has_beneficiary(s, id) {
        Some(s[spec_beneficiary_index(s, id)])
    } else {
        None
    }
}

/// What `spec_beneficiary_index` finds: a valid index bearing `id`, before
/// which no entry bears `id`; or -1 when no entry does.
pub proof fn lemma_beneficiary_index_props(s: Seq<Beneficiary>, id: AccountId)
    ensures
        spec_beneficiary_index(s, id) >= 0 ==> {
            &&& spec_beneficiary_index(s, id) < s.len()
            &&& s[spec_beneficiary_index(s, id)].account_id == id
            &&& forall|j: int|
                0 <= j < spec_beneficiary_index(s, id) ==> s[j].account_id != id
        },
        spec_beneficiary_index(s, id) < 0 ==> forall|j: int|
            0 <= j < s.len() ==> s[j].account_id != id,
    decreases s.len(),
{
    if s.len() > 0 && s[0].account_id != id {
        lemma_beneficiary_index_props(s.drop_first(), id);
        let r = spec_beneficiary_index(s.drop_first(), id);
        if r >= 0 {
            assert(s[r + 1] == s.drop_first()[r]);
            assert forall|j: int| 0 <= j < r + 1 implies s[j].account_id != id by {
                if j > 0 {
                    assert(s[j] == s.drop_first()[j - 1]);
                }
            }
        } else {
            assert forall|j: int| 0 <= j < s.len() implies s[j].account_id != id by {
                if j > 0 {
                    assert(s[j] == s.drop_first()[j - 1]);
                }
            }
        }
    }
}

/// The first match determines `spec_beneficiary_index`.
pub proof fn lemma_beneficiary_index_of_match(s: Seq<Beneficiary>, id: AccountId, i: int)
    requires
        0 <= i < s.len(),
        s[i].account_id == id,
        forall|j: int| 0 <= j < i ==> s[j].account_id != id,
    ensures
        spec_beneficiary_index(s, id) == i,
    decreases i,
{
    if i > 0 {
        assert(s.drop_first()[i - 1] == s[i]);
        assert forall|j: int| 0 <= j < i - 1 implies s.drop_first()[j].account_id != id by {
            assert(s.drop_first()[j] == s[j + 1]);
        }
        lemma_beneficiary_index_of_match(s.drop_first(), id, i - 1);
    }
}

/// The index of the first registry entry with `id`, or -1.
pub open spec fn spec_multiplier_index(reg: Seq<(MultiplierId, BaseMultiplier)>, id: MultiplierId) -> int
    decreases reg.len(),
{
    if reg.len() == 0 {
        -1
    } else if reg[0].0 == id {
        0
    } else {
        let r = spec_multiplier_index(reg.drop_first(), id);
        if r < 0 {
            -1
        } else {
            r + 1
        }
    }
}

/// Whether some multiplier is registered under `id`.
pub open spec fn spec_has_multiplier(reg: Seq<(MultiplierId, BaseMultiplier)>, id: MultiplierId) -> bool {
    spec_multiplier_index(reg, id) >= 0
}

/// The registry entry under `id`, when there is one.
pub open spec fn spec_lookup_multiplier(
    reg: Seq<(MultiplierId, BaseMultiplier)>,
    id: MultiplierId,
) -> Option<BaseMultiplier> {
    if spec_has_multiplier(reg, id) {
        Some(reg[spec_multiplier_index(reg, id)].1)
    } else {
        None
    }
}

/// What `spec_multiplier_index` finds, as `lemma_beneficiary_index_props`.
pub proof fn lemma_multiplier_index_props(reg: Seq<(MultiplierId, BaseMultiplier)>, id: MultiplierId)
    ensures
        spec_multiplier_index(reg, id) >= 0 ==> {
            &&& spec_multiplier_index(reg, id) < reg.len()
            &&& reg[spec_multiplier_index(reg, id)].0 == id
            &&& forall|j: int| 0 <= j < spec_multiplier_index(reg, id) ==> reg[j].0 != id
        },
        spec_multiplier_index(reg, id) < 0 ==> forall|j: int| 0 <= j < reg.len() ==> reg[j].0 != id,
    decreases reg.len(),
{
    if reg.len() > 0 && reg[0].0 != id {
        lemma_multiplier_index_props(reg.drop_first(), id);
        let r = spec_multiplier_index(reg.drop_first(), id);
        if r >= 0 {
            assert(reg[r + 1] == reg.drop_first()[r]);
            assert forall|j: int| 0 <= j < r + 1 implies reg[j].0 != id by {
                if j > 0 {
                    assert(reg[j] == reg.drop_first()[j - 1]);
                }
            }
        } else {
            assert forall|j: int| 0 <= j < reg.len() implies reg[j].0 != id by {
                if j > 0 {
                    assert(reg[j] == reg.drop_first()[j - 1]);
                }
            }
        }
    }
}

/// Whether the multiplier registered under `id` is currently active: it
/// exists and has no deactivation schedule. A weight whose id is not in the
/// registry counts as inactive.
pub open spec fn multiplier_is_active(
    reg: Seq<(MultiplierId, BaseMultiplier)>,
    id: MultiplierId,
) -> bool {
    match spec_lookup_multiplier(reg, id) {
        Some(m) => m.valid_until_block is None,
        None => false,
    }
}

/// Whether a claim's expiry sweep at height `now` keeps the weight under
/// `id`: its multiplier exists and is either perpetually active or
/// scheduled to expire only after `now`. A weight whose id is not in the
/// registry counts as expired.
pub open spec fn keep_multiplier(
    reg: Seq<(MultiplierId, BaseMultiplier)>,
    id: MultiplierId,
    now: BlockNumber,
) -> bool {
    match spec_lookup_multiplier(reg, id) {
        Some(m) => match m.valid_until_block {
            None => true,
            Some(v) => v > now,
        },
        None => false,
    }
}

/// The sum of the weights whose multiplier is currently active.
pub open spec fn sum_active_weights(
    s: Seq<(MultiplierId, Multiplier)>,
    reg: Seq<(MultiplierId, BaseMultiplier)>,
) -> int
    decreases s.len(),
{
    if s.len() == 0 {
        0
    } else {
        sum_active_weights(s.drop_last(), reg) + if multiplier_is_active(reg, s.last().0) {
            s.last().1 as int
        } else {
            0
        }
    }
}

/// The active sum lies between 0 and the full sum.
pub proof fn lemma_sum_active_weights_le(
    s: Seq<(MultiplierId, Multiplier)>,
    reg: Seq<(MultiplierId, BaseMultiplier)>,
)
    ensures
        0 <= sum_active_weights(s, reg) <= sum_weights(s),
    decreases s.len(),
{
    if s.len() > 0 {
        lemma_sum_active_weights_le(s.drop_last(), reg);
    }
}

/// A sum over a prefix never exceeds the sum over the whole list.
pub proof fn lemma_sum_weights_take_le(s: Seq<(MultiplierId, Multiplier)>, i: int)
    requires
        0 <= i <= s.len(),
    ensures
        sum_weights(s.take(i)) <= sum_weights(s),
    decreases s.len() - i,
{
    if i == s.len() {
        assert(s.take(i) =~= s);
    } else {
        assert(s.take(i + 1).drop_last() =~= s.take(i));
        assert(s.take(i + 1).last() == s[i]);
        lemma_sum_weights_take_le(s, i + 1);
    }
}

/// The weight list a claim's expiry sweep leaves behind: the weights kept
/// by `keep_multiplier`, in their original order.
pub open spec fn spec_swept(
    s: Seq<(MultiplierId, Multiplier)>,
    reg: Seq<(MultiplierId, BaseMultiplier)>,
    now: BlockNumber,
) -> Seq<(MultiplierId, Multiplier)>
    decreases s.len(),
{
    if s.len() == 0 {
        Seq::empty()
    } else {
        spec_swept(s.drop_last(), reg, now) + if keep_multiplier(reg, s.last().0, now) {
            seq![s.last()]
        } else {
            Seq::empty()
        }
    }
}

/// Every entry the sweep keeps stands somewhere in the original list.
pub proof fn lemma_swept_membership(
    s: Seq<(MultiplierId, Multiplier)>,
    reg: Seq<(MultiplierId, BaseMultiplier)>,
    now: BlockNumber,
)
    ensures
        forall|j: int|
            0 <= j < spec_swept(s, reg, now).len() ==> exists|k: int|
                0 <= k < s.len() && s[k] == #[trigger] spec_swept(s, reg, now)[j],
    decreases s.len(),
{
    if s.len() > 0 {
        lemma_swept_membership(s.drop_last(), reg, now);
        let sw = spec_swept(s, reg, now);
        let swd = spec_swept(s.drop_last(), reg, now);
        assert forall|j: int| 0 <= j < sw.len() implies exists|k: int|
            0 <= k < s.len() && s[k] == #[trigger] sw[j] by {
            if j < swd.len() {
                let k = choose|k: int| 0 <= k < s.drop_last().len() && s.drop_last()[k] == swd[j];
                assert(s[k] == sw[j]);
            } else {
                assert(sw[j] == s.last());
                assert(s[s.len() - 1] == sw[j]);
            }
        }
    }
}

/// The sweep preserves uniqueness of the multiplier ids.
pub proof fn lemma_swept_weights_unique(
    s: Seq<(MultiplierId, Multiplier)>,
    reg: Seq<(MultiplierId, BaseMultiplier)>,
    now: BlockNumber,
)
    requires
        weights_unique(s),
    ensures
        weights_unique(spec_swept(s, reg, now)),
    decreases s.len(),
{
    if s.len() > 0 {
        assert(weights_unique(s.drop_last()));
        lemma_swept_weights_unique(s.drop_last(), reg, now);
        lemma_swept_membership(s.drop_last(), reg, now);
        let sw = spec_swept(s, reg, now);
        let swd = spec_swept(s.drop_last(), reg, now);
        assert forall|i: int, j: int| 0 <= i < j < sw.len() implies sw[i].0 != sw[j].0 by {
            if j < swd.len() {
                assert(swd[i].0 != swd[j].0);
            } else if keep_multiplier(reg, s.last().0, now) {
                // sw[j] is the original last entry; sw[i] comes from the front.
                let k = choose|k: int| 0 <= k < s.drop_last().len() && s.drop_last()[k] == swd[i];
                assert(s[k] == sw[i]);
                assert(s[k].0 != s.last().0);
            }
        }
    }
}

/// The swept sum never exceeds the full sum.
pub proof fn lemma_sum_swept_le(
    s: Seq<(MultiplierId, Multiplier)>,
    reg: Seq<(MultiplierId, BaseMultiplier)>,
    now: BlockNumber,
)
    ensures
        0 <= sum_weights(spec_swept(s, reg, now)) <= sum_weights(s),
    decreases s.len(),
{
    if s.len() == 0 {
    } else {
        lemma_sum_swept_le(s.drop_last(), reg, now);
        let swd = spec_swept(s.drop_last(), reg, now);
        if keep_multiplier(reg, s.last().0, now) {
            assert((swd + seq![s.last()]).drop_last() =~= swd);
        } else {
            assert(swd + Seq::<(MultiplierId, Multiplier)>::empty() =~= swd);
        }
    }
}

/// The weight an owed computation applies for one period: the sum of the
/// relevant weights, or 1 when the weight list is empty, meaning the full
/// unscaled base payment. `use_all` sums every stored weight (the mutating
/// claim path, once the sweep has discarded expired ones); otherwise only
/// weights of currently active multipliers count (the read-only query path,
/// which must not assume a sweep happened).
pub open spec fn spec_weight_total(
    mults: Seq<(MultiplierId, Multiplier)>,
    reg: Seq<(MultiplierId, BaseMultiplier)>,
    use_all: bool,
) -> int {
    if mults.len() == 0 {
        1
    } else if use_all {
        sum_weights(mults)
    } else {
        sum_active_weights(mults, reg)
    }
}

/// The amount owed for one whole period: the weight total times the base
/// payment, divided by 100 with truncation.
pub open spec fn spec_payment_per_period(
    mults: Seq<(MultiplierId, Multiplier)>,
    reg: Seq<(MultiplierId, BaseMultiplier)>,
    base_payment: Balance,
    use_all: bool,
) -> int {
    spec_weight_total(mults, reg, use_all) * base_payment / 100
}

/// How many whole periods have elapsed between a record's last settlement
/// height and `block`.
pub open spec fn spec_elapsed_periods(
    last_updated: BlockNumber,
    block: BlockNumber,
    periodicity: u32,
) -> int {
    (block - last_updated) / periodicity as int
}

/// The amount a record with weight list `mults`, carryover `unclaimed` and
/// settlement height `last_updated` can claim at `block`: the pure carryover
/// when no whole period has elapsed, else the per-period amount for every
/// elapsed period plus the carryover.
pub open spec fn spec_owed_parts(
    mults: Seq<(MultiplierId, Multiplier)>,
    unclaimed: Balance,
    last_updated: BlockNumber,
    reg: Seq<(MultiplierId, BaseMultiplier)>,
    base_payment: Balance,
    periodicity: u32,
    block: BlockNumber,
    use_all: bool,
) -> int {
    let periods = spec_elapsed_periods(last_updated, block, periodicity);
    if periods == 0 {
        unclaimed as int
    } else {
        spec_payment_per_period(mults, reg, base_payment, use_all) * periods + unclaimed
    }
}

/// `spec_owed_parts` applied to a beneficiary record.
pub open spec fn spec_owed(
    b: Beneficiary,
    reg: Seq<(MultiplierId, BaseMultiplier)>,
    base_payment: Balance,
    periodicity: u32,
    block: BlockNumber,
    use_all: bool,
) -> int {
    spec_owed_parts(
        b.multipliers@,
        b.unclaimed_payments,
        b.last_updated_period_block,
        reg,
        base_payment,
        periodicity,
        block,
        use_all,
    )
}

/// Within the period a record was last settled for, the record is owed
/// exactly its carryover: a claim that left `unclaimed_payments` behind is
/// reflected verbatim by every later query until the next period begins.
pub proof fn lemma_carryover_is_owed(
    b: Beneficiary,
    reg: Seq<(MultiplierId, BaseMultiplier)>,
    base_payment: Balance,
    periodicity: u32,
    block: BlockNumber,
    use_all: bool,
)
    requires
        periodicity > 0,
        b.last_updated_period_block <= block,
        block - b.last_updated_period_block < periodicity,
    ensures
        spec_owed(b, reg, base_payment, periodicity, block, use_all) == b.unclaimed_payments,
{
    vstd::arithmetic::div_mod::lemma_basic_div(
        block - b.last_updated_period_block,
        periodicity as int,
    );
}

/// The per-period amount is never negative.
pub proof fn lemma_payment_per_period_nonneg(
    mults: Seq<(MultiplierId, Multiplier)>,
    reg: Seq<(MultiplierId, BaseMultiplier)>,
    base_payment: Balance,
    use_all: bool,
)
    ensures
        spec_payment_per_period(mults, reg, base_payment, use_all) >= 0,
{
    lemma_sum_weights_nonneg(mults);
    lemma_sum_active_weights_le(mults, reg);
    let wt = spec_weight_total(mults, reg, use_all);
    vstd::arithmetic::mul::lemma_mul_nonnegative(wt, base_payment as int);
    vstd::arithmetic::div_mod::lemma_div_pos_is_pos(wt * base_payment, 100);
}

/// The owed amount is never negative.
pub proof fn lemma_owed_nonneg(
    b: Beneficiary,
    reg: Seq<(MultiplierId, BaseMultiplier)>,
    base_payment: Balance,
    periodicity: u32,
    block: BlockNumber,
    use_all: bool,
)
    requires
        periodicity > 0,
        b.last_updated_period_block <= block,
    ensures
        spec_owed(b, reg, base_payment, periodicity, block, use_all) >= 0,
        spec_owed(b, reg, base_payment, periodicity, block, use_all) >= b.unclaimed_payments,
{
    let periods = spec_elapsed_periods(b.last_updated_period_block, block, periodicity);
    vstd::arithmetic::div_mod::lemma_div_pos_is_pos(
        block - b.last_updated_period_block,
        periodicity as int,
    );
    if periods != 0 {
        lemma_payment_per_period_nonneg(b.multipliers@, reg, base_payment, use_all);
        vstd::arithmetic::mul::lemma_mul_nonnegative(
            spec_payment_per_period(b.multipliers@, reg, base_payment, use_all),
            periods,
        );
    }
}

/// The first match determines `spec_multiplier_index`.
pub proof fn lemma_multiplier_index_of_match(
    reg: Seq<(MultiplierId, BaseMultiplier)>,
    id: MultiplierId,
    i: int,
)
    requires
        0 <= i < reg.len(),
        reg[i].0 == id,
        forall|j: int| 0 <= j < i ==> reg[j].0 != id,
    ensures
        spec_multiplier_index(reg, id) == i,
    decreases i,
{
    if i > 0 {
        assert(reg.drop_first()[i - 1] == reg[i]);
        assert forall|j: int| 0 <= j < i - 1 implies reg.drop_first()[j].0 != id by {
            assert(reg.drop_first()[j] == reg[j + 1]);
        }
        lemma_multiplier_index_of_match(reg.drop_first(), id, i - 1);
    }
}

} // verus!
