//! Validator sets and staking: stake moves into the next validator set, which
//! takes effect two blocks ahead, and its total weight is always the sum of
//! its validators' weights.

use vstd::prelude::*;
use crate::bytes::bytes_eq;
use crate::service::{RejectReason, TransactionError};

verus! {

/// The consensus key a validator signs with.
#[derive(Debug, Clone, Copy)]
pub struct ActiveKeyRecord {
    /// The signature suite, by its numeric id.
    pub suite: u8,
    pub public_key_hash: [u8; 32],
    pub since_height: u64,
}

/// A validator and its voting weight.
#[derive(Debug, Clone, Copy)]
pub struct ValidatorV1 {
    pub account_id: [u8; 32],
    pub weight: u128,
    pub consensus_key: ActiveKeyRecord,
}

/// A validator set and the height from which it applies.
#[derive(Debug, Clone)]
pub struct ValidatorSetV1 {
    pub effective_from_height: u64,
    pub total_weight: u128,
    pub validators: Vec<ValidatorV1>,
}

/// The current validator set and the pending next one.
#[derive(Debug, Clone)]
pub struct ValidatorSetsV1 {
    pub current: ValidatorSetV1,
    pub next: Option<ValidatorSetV1>,
}

/// The sum of the validators' weights.
pub open spec fn spec_total_weight(vs: Seq<ValidatorV1>) -> nat
    decreases vs.len(),
{
    if vs.len() == 0 { 0 } else { spec_total_weight(vs.drop_last()) + vs.last().weight as nat }
}

/// The index of the first validator of an account.
pub open spec fn spec_find(vs: Seq<ValidatorV1>, account: [u8; 32]) -> Option<int>
    decreases vs.len(),
{
    if vs.len() == 0 {
        None
    } else {
        match spec_find(vs.drop_last(), account) {
            Some(i) => Some(i),
            None => if vs.last().account_id == account { Some(vs.len() - 1) } else { None },
        }
    }
}

/// The pending set a change applies to: the existing next set, or a copy of
/// the current set that takes effect at `target`.
pub open spec fn spec_next_base(current: ValidatorSetV1, next: Option<ValidatorSetV1>, target: u64) -> (u64, Seq<ValidatorV1>) {
    match next {
        Some(n) => (n.effective_from_height, n.validators@),
        None => (target, current.validators@),
    }
}

/// The validators of the pending set after staking `amount`: a validator of
/// the account gains the amount (saturating); otherwise the account joins with
/// the amount as its weight and its active key, which it must have.
pub open spec fn spec_stake_validators(vs: Seq<ValidatorV1>, staker: [u8; 32], amount: u64, key: Option<ActiveKeyRecord>)
    -> Result<Seq<ValidatorV1>, TransactionError>
{
    match spec_find(vs, staker) {
        Some(i) => {
            let w = if vs[i].weight + amount > u128::MAX { u128::MAX } else { (vs[i].weight + amount) as u128 };
            Ok(vs.update(i, ValidatorV1 { weight: w, ..vs[i] }))
        }
        None => match key {
            None => Err(TransactionError::Invalid(RejectReason::NoActiveKey)),
            Some(k) => Ok(vs.push(ValidatorV1 { account_id: staker, weight: amount as u128, consensus_key: k })),
        },
    }
}

/// The validators of the pending set after unstaking `amount`: each validator
/// of the account loses the amount (saturating at zero) and leaves the set
/// when nothing is left; the others stay in order.
pub open spec fn spec_unstake_validators(vs: Seq<ValidatorV1>, staker: [u8; 32], amount: u64) -> Seq<ValidatorV1>
    decreases vs.len(),
{
    if vs.len() == 0 {
        Seq::empty()
    } else {
        let rest = spec_unstake_validators(vs.drop_last(), staker, amount);
        let v = vs.last();
        if v.account_id == staker {
            if v.weight > amount {
                rest.push(ValidatorV1 { weight: (v.weight - amount) as u128, ..v })
            } else {
                rest
            }
        } else {
            rest.push(v)
        }
    }
}

/// Whether the validators' weights add up within `u128`.
pub open spec fn spec_weights_fit(vs: Seq<ValidatorV1>) -> bool {
    spec_total_weight(vs) <= u128::MAX
}

pub(crate) fn find_validator(vs: &Vec<ValidatorV1>, account: &[u8; 32]) -> (r: Option<usize>)
    ensures
        match r {
            Some(i) => spec_find(vs@, *account) == Some(i as int) && i < vs@.len(),
            None => spec_find(vs@, *account) is None,
        },
{
    let n = vs.len();
    let mut i: usize = 0;
    while i < n
        invariant
            n == vs@.len(),
            i <= n,
            spec_find(vs@.subrange(0, i as int), *account) is None,
        decreases n - i,
    {
        let ghost pre = vs@.subrange(0, i + 1);
        assert(pre.drop_last() =~= vs@.subrange(0, i as int));
        if bytes_eq(vs[i].account_id.as_slice(), account.as_slice()) {
            proof {
                assert(vs[i as int].account_id@ == account@);
                assert(vs[i as int].account_id =~= *account);
                lemma_find_prefix(vs@, *account, i as int + 1);
            }
            return Some(i);
        }
        proof {
            assert(vs[i as int].account_id != *account);
        }
        i = i + 1;
    }
    assert(vs@.subrange(0, n as int) =~= vs@);
    None
}

proof fn lemma_find_prefix(vs: Seq<ValidatorV1>, account: [u8; 32], k: int)
    requires
        0 < k <= vs.len(),
        spec_find(vs.subrange(0, k), account) == Some(k - 1),
    ensures
        spec_find(vs, account) == Some(k - 1),
    decreases vs.len(),
{
    if k < vs.len() {
        assert(vs.drop_last().subrange(0, k) =~= vs.subrange(0, k));
        lemma_find_prefix(vs.drop_last(), account, k);
    } else {
        assert(vs.subrange(0, k) =~= vs);
    }
}

/// Sums the validators' weights.
pub fn total_weight(vs: &Vec<ValidatorV1>) -> (t: u128)
    requires
        spec_weights_fit(vs@),
    ensures
        t == spec_total_weight(vs@),
{
    let n = vs.len();
    let mut t: u128 = 0;
    let mut i: usize = 0;
    while i < n
        invariant
            n == vs@.len(),
            i <= n,
            spec_weights_fit(vs@),
            t == spec_total_weight(vs@.subrange(0, i as int)),
        decreases n - i,
    {
        assert(vs@.subrange(0, i + 1).drop_last() =~= vs@.subrange(0, i as int));
        proof {
            lemma_total_weight_prefix(vs@, i + 1);
        }
        t = t + vs[i].weight;
        i = i + 1;
    }
    assert(vs@.subrange(0, n as int) =~= vs@);
    t
}

proof fn lemma_total_weight_prefix(vs: Seq<ValidatorV1>, k: int)
    requires
        0 <= k <= vs.len(),
    ensures
        spec_total_weight(vs.subrange(0, k)) <= spec_total_weight(vs),
    decreases vs.len(),
{
    if k < vs.len() {
        assert(vs.drop_last().subrange(0, k) =~= vs.subrange(0, k));
        lemma_total_weight_prefix(vs.drop_last(), k);
    } else {
        assert(vs.subrange(0, k) =~= vs);
    }
}

pub(crate) fn copy_validators(vs: &Vec<ValidatorV1>) -> (r: Vec<ValidatorV1>)
    ensures
        r@ == vs@,
{
    let mut r: Vec<ValidatorV1> = Vec::new();
    let n = vs.len();
    let mut i: usize = 0;
    while i < n
        invariant
            n == vs@.len(),
            i <= n,
            r@ == vs@.subrange(0, i as int),
        decreases n - i,
    {
        r.push(vs[i]);
        i = i + 1;
    }
    assert(vs@.subrange(0, n as int) =~= vs@);
    r
}

/// The pending set to change: the next set, or a copy of the current one
/// effective at `target`.
fn next_base(sets: &ValidatorSetsV1, target: u64) -> (r: (u64, Vec<ValidatorV1>))
    ensures
        (r.0, r.1@) == spec_next_base(sets.current, sets.next, target),
{
    match &sets.next {
        Some(n) => (n.effective_from_height, copy_validators(&n.validators)),
        None => (target, copy_validators(&sets.current.validators)),
    }
}

/// The outcome of staking: the pending set changed as
/// [`spec_stake_validators`] says, with its total recomputed.
pub open spec fn spec_stake(sets: ValidatorSetsV1, staker: [u8; 32], amount: u64, key: Option<ActiveKeyRecord>, height: u64)
    -> Result<(u64, Seq<ValidatorV1>), TransactionError>
{
    let (from, base) = spec_next_base(sets.current, sets.next, (height + 2) as u64);
    match spec_stake_validators(base, staker, amount, key) {
        Ok(vs) => Ok((from, vs)),
        Err(e) => Err(e),
    }
}

/// Stakes `amount` for `staker` in the next validator set. `key` is the
/// staker's active consensus key, needed when it joins the set. Returns the
/// updated sets and whether the staker joined.
pub fn stake(sets: ValidatorSetsV1, staker: &[u8; 32], amount: u64, key: Option<ActiveKeyRecord>, height: u64)
    -> (r: Result<(ValidatorSetsV1, bool), TransactionError>)
    requires
        height + 2 <= u64::MAX,
        spec_stake(sets, *staker, amount, key, height) matches Ok((_, vs)) ==> spec_weights_fit(vs),
    ensures
        match (r, spec_stake(sets, *staker, amount, key, height)) {
            (Ok((s, joined)), Ok((from, vs))) => {
                &&& s.current == sets.current
                &&& s.next matches Some(n) && n.effective_from_height == from && n.validators@ == vs
                    && n.total_weight == spec_total_weight(vs)
                &&& joined == (spec_find(spec_next_base(sets.current, sets.next, (height + 2) as u64).1, *staker) is None)
            },
            (Err(e), Err(f)) => e == f,
            _ => false,
        },
{
    let (from, mut vs) = next_base(&sets, height + 2);
    let joined = match find_validator(&vs, staker) {
        Some(i) => {
            let v = vs[i];
            let w = v.weight.saturating_add(amount as u128);
            vs.set(i, ValidatorV1 { weight: w, ..v });
            false
        }
        None => match key {
            None => return Err(TransactionError::Invalid(RejectReason::NoActiveKey)),
            Some(k) => {
                vs.push(ValidatorV1 { account_id: *staker, weight: amount as u128, consensus_key: k });
                true
            }
        },
    };
    let t = total_weight(&vs);
    let next = ValidatorSetV1 { effective_from_height: from, total_weight: t, validators: vs };
    Ok((ValidatorSetsV1 { current: sets.current, next: Some(next) }, joined))
}

/// The outcome of unstaking: refused without a validator set or when the
/// staker is not in the pending set; else the pending set as
/// [`spec_unstake_validators`] says.
pub open spec fn spec_unstake(sets: Option<ValidatorSetsV1>, staker: [u8; 32], amount: u64, height: u64)
    -> Result<(u64, Seq<ValidatorV1>), TransactionError>
{
    match sets {
        None => Err(TransactionError::Invalid(RejectReason::NoValidatorSet)),
        Some(s) => {
            let (from, base) = spec_next_base(s.current, s.next, (height + 2) as u64);
            if spec_find(base, staker) is None {
                Err(TransactionError::Invalid(RejectReason::NotValidator))
            } else {
                Ok((from, spec_unstake_validators(base, staker, amount)))
            }
        }
    }
}

/// Unstaking never raises the total weight of the pending set.
pub proof fn lemma_unstake_weight_bound(vs: Seq<ValidatorV1>, staker: [u8; 32], amount: u64)
    ensures
        spec_total_weight(spec_unstake_validators(vs, staker, amount)) <= spec_total_weight(vs),
    decreases vs.len(),
{
    if vs.len() > 0 {
        lemma_unstake_weight_bound(vs.drop_last(), staker, amount);
        let rest = spec_unstake_validators(vs.drop_last(), staker, amount);
        let v = vs.last();
        assert(rest.push(v).drop_last() =~= rest);
        assert(rest.push(ValidatorV1 { weight: (v.weight - amount) as u128, ..v }).drop_last() =~= rest);
    }
}

/// Unstakes `amount` for `staker` from the next validator set.
pub fn unstake(sets: Option<ValidatorSetsV1>, staker: &[u8; 32], amount: u64, height: u64)
    -> (r: Result<ValidatorSetsV1, TransactionError>)
    requires
        height + 2 <= u64::MAX,
        sets matches Some(s) ==> spec_weights_fit(spec_next_base(s.current, s.next, (height + 2) as u64).1),
    ensures
        match (r, spec_unstake(sets, *staker, amount, height)) {
            (Ok(s), Ok((from, vs))) => {
                &&& s.current == sets->0.current
                &&& s.next matches Some(n) && n.effective_from_height == from && n.validators@ == vs
                    && n.total_weight == spec_total_weight(vs)
            },
            (Err(e), Err(f)) => e == f,
            _ => false,
        },
{
    let sets = match sets {
        None => return Err(TransactionError::Invalid(RejectReason::NoValidatorSet)),
        Some(s) => s,
    };
    let (from, base) = next_base(&sets, height + 2);
    if find_validator(&base, staker).is_none() {
        return Err(TransactionError::Invalid(RejectReason::NotValidator));
    }
    let mut kept: Vec<ValidatorV1> = Vec::new();
    let n = base.len();
    let mut i: usize = 0;
    while i < n
        invariant
            n == base@.len(),
            i <= n,
            kept@ == spec_unstake_validators(base@.subrange(0, i as int), *staker, amount),
        decreases n - i,
    {
        let v = base[i];
        assert(base@.subrange(0, i + 1).drop_last() =~= base@.subrange(0, i as int));
        if bytes_eq(v.account_id.as_slice(), staker.as_slice()) {
            assert(v.account_id =~= *staker);
            if v.weight > amount as u128 {
                kept.push(ValidatorV1 { weight: v.weight - amount as u128, ..v });
            }
        } else {
            kept.push(v);
        }
        i = i + 1;
    }
    assert(base@.subrange(0, n as int) =~= base@);
    proof {
        lemma_unstake_weight_bound(base@, *staker, amount);
    }
    let t = total_weight(&kept);
    let next = ValidatorSetV1 { effective_from_height: from, total_weight: t, validators: kept };
    Ok(ValidatorSetsV1 { current: sets.current, next: Some(next) })
}

proof fn lemma_unstake_absent(vs: Seq<ValidatorV1>, staker: [u8; 32], amount: u64)
    requires
        forall|j: int| 0 <= j < vs.len() ==> (#[trigger] vs[j]).account_id != staker,
    ensures
        spec_unstake_validators(vs, staker, amount) == vs,
    decreases vs.len(),
{
    if vs.len() > 0 {
        assert forall|j: int| 0 <= j < vs.drop_last().len() implies (#[trigger] vs.drop_last()[j]).account_id != staker by {
            assert(vs.drop_last()[j] == vs[j]);
        }
        lemma_unstake_absent(vs.drop_last(), staker, amount);
        assert(vs.drop_last().push(vs.last()) =~= vs);
    }
}

proof fn lemma_find_none(vs: Seq<ValidatorV1>, staker: [u8; 32])
    requires
        spec_find(vs, staker) is None,
    ensures
        forall|j: int| 0 <= j < vs.len() ==> (#[trigger] vs[j]).account_id != staker,
    decreases vs.len(),
{
    if vs.len() > 0 {
        lemma_find_none(vs.drop_last(), staker);
        assert forall|j: int| 0 <= j < vs.len() implies (#[trigger] vs[j]).account_id != staker by {
            if j < vs.len() - 1 {
                assert(vs.drop_last()[j] == vs[j]);
            }
        }
    }
}

proof fn lemma_unstake_bumped(vs: Seq<ValidatorV1>, staker: [u8; 32], amount: u64, i: int)
    requires
        0 <= i < vs.len(),
        vs[i].account_id == staker,
        forall|j: int| 0 <= j < vs.len() && (#[trigger] vs[j]).account_id == staker ==> j == i,
        vs[i].weight > 0,
        vs[i].weight + amount <= u128::MAX,
    ensures
        spec_unstake_validators(
            vs.update(i, ValidatorV1 { weight: (vs[i].weight + amount) as u128, ..vs[i] }), staker, amount) == vs,
    decreases vs.len(),
{
    let bumped = ValidatorV1 { weight: (vs[i].weight + amount) as u128, ..vs[i] };
    let u = vs.update(i, bumped);
    if i == vs.len() - 1 {
        assert(u.drop_last() =~= vs.drop_last());
        assert forall|j: int| 0 <= j < vs.drop_last().len() implies (#[trigger] vs.drop_last()[j]).account_id != staker by {
            assert(vs.drop_last()[j] == vs[j]);
        }
        lemma_unstake_absent(vs.drop_last(), staker, amount);
        assert(vs.drop_last().push(vs[i]) =~= vs);
    } else {
        let d = vs.drop_last();
        assert(u.drop_last() =~= d.update(i, bumped));
        assert forall|j: int| 0 <= j < d.len() && (#[trigger] d[j]).account_id == staker implies j == i by {
            assert(d[j] == vs[j]);
        }
        lemma_unstake_bumped(d, staker, amount, i);
        assert(u.last() == vs.last());
        assert(vs.last().account_id != staker);
        assert(d.push(vs.last()) =~= vs);
    }
}

/// Unstaking what was just staked restores the pending set: a new staker
/// leaves again, and an existing staker, listed once with some weight, gets
/// back its old weight (where the sum did not saturate).
pub proof fn lemma_unstake_undoes_stake(vs: Seq<ValidatorV1>, staker: [u8; 32], amount: u64, key: ActiveKeyRecord)
    requires
        amount > 0,
        forall|j: int, k: int| 0 <= j < k < vs.len() ==> (#[trigger] vs[j]).account_id != (#[trigger] vs[k]).account_id,
        spec_find(vs, staker) matches Some(i) ==> vs[i].weight > 0 && vs[i].weight + amount <= u128::MAX,
    ensures
        spec_stake_validators(vs, staker, amount, Some(key)) matches Ok(after)
            && spec_unstake_validators(after, staker, amount) == vs,
{
    match spec_find(vs, staker) {
        Some(i) => {
            lemma_find_bounds(vs, staker);
            assert forall|j: int| 0 <= j < vs.len() && (#[trigger] vs[j]).account_id == staker implies j == i by {
                if j < i {
                    assert(vs[j].account_id != vs[i].account_id);
                } else if j > i {
                    assert(vs[i].account_id != vs[j].account_id);
                }
            }
            lemma_unstake_bumped(vs, staker, amount, i);
        }
        None => {
            lemma_find_none(vs, staker);
            let joined = vs.push(ValidatorV1 { account_id: staker, weight: amount as u128, consensus_key: key });
            assert(joined.drop_last() =~= vs);
            lemma_unstake_absent(vs, staker, amount);
        }
    }
}

proof fn lemma_find_bounds(vs: Seq<ValidatorV1>, account: [u8; 32])
    ensures
        spec_find(vs, account) matches Some(i) ==> 0 <= i < vs.len() && vs[i].account_id == account,
    decreases vs.len(),
{
    if vs.len() > 0 {
        lemma_find_bounds(vs.drop_last(), account);
    }
}

} // verus!
