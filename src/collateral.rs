//! Collateral sets: distinct assets with positive amounts, and their adjustment.

use vstd::prelude::*;

use crate::types::{fits, Action, CollateralChange, CollateralInput, LendingError};
use crate::valuation::positive_amounts;

verus! {

/// Position of the holding of `asset` in `cols`, or -1 when there is none.
pub open spec fn asset_index(cols: Seq<CollateralInput>, asset: u64) -> int {
    if exists|i: int| 0 <= i < cols.len() && cols[i].token_address == asset {
        choose|i: int| 0 <= i < cols.len() && cols[i].token_address == asset
    } else {
        -1
    }
}

/// Amount of `asset` held in `cols` (zero when there is no holding).
pub open spec fn held(cols: Seq<CollateralInput>, asset: u64) -> int {
    let i = asset_index(cols, asset);
    if i >= 0 {
        cols[i].amount as int
    } else {
        0
    }
}

/// No asset appears twice.
pub open spec fn distinct_assets(cols: Seq<CollateralInput>) -> bool {
    forall|i: int, j: int|
        0 <= i < cols.len() && 0 <= j < cols.len() && i != j ==> cols[i].token_address
            != cols[j].token_address
}

/// A well-formed collateral set: distinct assets with positive amounts.
pub open spec fn collateral_set(cols: Seq<CollateralInput>) -> bool {
    distinct_assets(cols) && positive_amounts(cols)
}

/// `cols` with `amount` more of `asset`: the holding grows, or a new one is appended.
pub open spec fn added(cols: Seq<CollateralInput>, asset: u64, amount: int) -> Seq<CollateralInput> {
    let i = asset_index(cols, asset);
    if i >= 0 {
        cols.update(i, CollateralInput { token_address: asset, amount: (cols[i].amount + amount) as i128 })
    } else {
        cols.push(CollateralInput { token_address: asset, amount: amount as i128 })
    }
}

/// `cols` with `amount` less of `asset`: the holding shrinks, or goes when it reaches zero.
pub open spec fn removed(cols: Seq<CollateralInput>, asset: u64, amount: int) -> Seq<CollateralInput> {
    let i = asset_index(cols, asset);
    if cols[i].amount == amount {
        cols.remove(i)
    } else {
        cols.update(i, CollateralInput { token_address: asset, amount: (cols[i].amount - amount) as i128 })
    }
}

/// One adjustment applied to `cols`: `InvalidAmount` for a non-positive amount,
/// `InsufficientCollateral` for a removal of more than is held, `Overflow` for an
/// addition past the range of `i128`.
pub open spec fn changed(cols: Seq<CollateralInput>, change: CollateralChange) -> Result<
    Seq<CollateralInput>,
    LendingError,
> {
    if change.amount <= 0 {
        Err(LendingError::InvalidAmount)
    } else {
        match change.action {
            Action::Add => if fits(held(cols, change.token_address) + change.amount) {
                Ok(added(cols, change.token_address, change.amount as int))
            } else {
                Err(LendingError::Overflow)
            },
            Action::Remove => if held(cols, change.token_address) < change.amount {
                Err(LendingError::InsufficientCollateral)
            } else {
                Ok(removed(cols, change.token_address, change.amount as int))
            },
        }
    }
}

/// The adjustments `changes` applied to `cols` in order; the first refusal wins.
pub open spec fn changed_all(cols: Seq<CollateralInput>, changes: Seq<CollateralChange>) -> Result<
    Seq<CollateralInput>,
    LendingError,
>
    decreases changes.len(),
{
    if changes.len() == 0 {
        Ok(cols)
    } else {
        match changed_all(cols, changes.drop_last()) {
            Ok(c) => changed(c, changes.last()),
            Err(e) => Err(e),
        }
    }
}

/// Finds the position of the holding of `asset`.
pub fn find_asset(cols: &Vec<CollateralInput>, asset: u64) -> (r: Option<usize>)
    requires
        distinct_assets(cols@),
    ensures
        match r {
            Some(i) => i == asset_index(cols@, asset) && i < cols@.len(),
            None => asset_index(cols@, asset) == -1,
        },
{
    let mut i: usize = 0;
    while i < cols.len()
        invariant
            i <= cols.len(),
            distinct_assets(cols@),
            forall|j: int| 0 <= j < i ==> cols@[j].token_address != asset,
        decreases cols.len() - i,
    {
        if cols[i].token_address == asset {
            let ghost k = asset_index(cols@, asset);
            assert(0 <= k < cols@.len() && cols@[k].token_address == asset);
            assert(k == i) by {
                if k != i {
                    assert(cols@[k].token_address != cols@[i as int].token_address);
                }
            }
            return Some(i);
        }
        i = i + 1;
    }
    None
}

/// Adds `change.amount` of `change.token_address` to the set.
fn add_to_collateral(collaterals: &mut Vec<CollateralInput>, change: &CollateralChange) -> (r: Result<
    (),
    LendingError,
>)
    requires
        collateral_set(old(collaterals)@),
        change.amount > 0,
    ensures
        match r {
            Ok(()) => fits(held(old(collaterals)@, change.token_address) + change.amount) && final(collaterals)@
                == added(old(collaterals)@, change.token_address, change.amount as int),
            Err(e) => e == LendingError::Overflow && !fits(
                held(old(collaterals)@, change.token_address) + change.amount,
            ) && final(collaterals)@ == old(collaterals)@,
        },
        collateral_set(final(collaterals)@),
{
    match find_asset(collaterals, change.token_address) {
        Some(i) => {
            let current = collaterals[i].amount;
            match current.checked_add(change.amount) {
                Some(total) => {
                    collaterals.set(i, CollateralInput { token_address: change.token_address, amount: total });
                    Ok(())
                },
                None => Err(LendingError::Overflow),
            }
        },
        None => {
            collaterals.push(CollateralInput { token_address: change.token_address, amount: change.amount });
            Ok(())
        },
    }
}

/// Takes `change.amount` of `change.token_address` out of the set.
fn remove_from_collateral(collaterals: &mut Vec<CollateralInput>, change: &CollateralChange) -> (r:
    Result<(), LendingError>)
    requires
        collateral_set(old(collaterals)@),
        change.amount > 0,
    ensures
        match r {
            Ok(()) => held(old(collaterals)@, change.token_address) >= change.amount && final(collaterals)@
                == removed(old(collaterals)@, change.token_address, change.amount as int),
            Err(e) => e == LendingError::InsufficientCollateral && held(
                old(collaterals)@,
                change.token_address,
            ) < change.amount && final(collaterals)@ == old(collaterals)@,
        },
        collateral_set(final(collaterals)@),
{
    match find_asset(collaterals, change.token_address) {
        Some(i) => {
            let current = collaterals[i].amount;
            if current < change.amount {
                return Err(LendingError::InsufficientCollateral);
            }
            if current == change.amount {
                collaterals.remove(i);
                proof {
                    let s = old(collaterals)@;
                    let t = collaterals@;
                    assert forall|a: int, b: int|
                        0 <= a < t.len() && 0 <= b < t.len() && a != b implies t[a].token_address
                        != t[b].token_address by {
                        let a2 = if a < i { a } else { a + 1 };
                        let b2 = if b < i { b } else { b + 1 };
                        assert(t[a] == s[a2] && t[b] == s[b2]);
                    }
                    assert forall|a: int| 0 <= a < t.len() implies #[trigger] t[a].amount > 0 by {
                        let a2 = if a < i { a } else { a + 1 };
                        assert(t[a] == s[a2]);
                    }
                }
            } else {
                collaterals.set(
                    i,
                    CollateralInput { token_address: change.token_address, amount: current - change.amount },
                );
            }
            Ok(())
        },
        None => Err(LendingError::InsufficientCollateral),
    }
}

/// Applies one adjustment to the set; on refusal the set is unchanged.
pub fn apply_change(collaterals: &mut Vec<CollateralInput>, change: &CollateralChange) -> (r: Result<
    (),
    LendingError,
>)
    requires
        collateral_set(old(collaterals)@),
    ensures
        match r {
            Ok(()) => changed(old(collaterals)@, *change) == Ok::<Seq<CollateralInput>, LendingError>(
                final(collaterals)@,
            ),
            Err(e) => changed(old(collaterals)@, *change) == Err::<Seq<CollateralInput>, LendingError>(e)
                && final(collaterals)@ == old(collaterals)@,
        },
        collateral_set(final(collaterals)@),
{
    if change.amount <= 0 {
        return Err(LendingError::InvalidAmount);
    }
    match change.action {
        Action::Add => add_to_collateral(collaterals, change),
        Action::Remove => remove_from_collateral(collaterals, change),
    }
}


/// Applies the adjustments `changes` in order, all or nothing: on refusal the set is
/// unchanged and the error of the first refused adjustment is returned.
pub fn apply_changes(collaterals: &mut Vec<CollateralInput>, changes: &Vec<CollateralChange>) -> (r: Result<
    (),
    LendingError,
>)
    requires
        collateral_set(old(collaterals)@),
    ensures
        collateral_set(final(collaterals)@),
        match r {
            Ok(()) => changed_all(old(collaterals)@, changes@) == Ok::<Seq<CollateralInput>, LendingError>(
                final(collaterals)@,
            ),
            Err(e) => changed_all(old(collaterals)@, changes@) == Err::<Seq<CollateralInput>, LendingError>(e)
                && final(collaterals)@ == old(collaterals)@,
        },
{
    let ghost start = collaterals@;
    let mut work = copy_collaterals(collaterals);
    let mut i: usize = 0;
    assert(changes@.take(0) =~= Seq::<CollateralChange>::empty());
    while i < changes.len()
        invariant
            i <= changes.len(),
            start == old(collaterals)@,
            collaterals@ == start,
            collateral_set(start),
            collateral_set(work@),
            changed_all(start, changes@.take(i as int)) == Ok::<Seq<CollateralInput>, LendingError>(work@),
        decreases changes.len() - i,
    {
        assert(changes@.take(i + 1).drop_last() =~= changes@.take(i as int));
        assert(changes@.take(i + 1).last() == changes@[i as int]);
        match apply_change(&mut work, &changes[i]) {
            Ok(()) => {},
            Err(e) => {
                proof {
                    assert(changed_all(start, changes@.take(i + 1)) == Err::<Seq<CollateralInput>, LendingError>(e));
                    lemma_changed_all_refused(start, changes@, i + 1);
                }
                return Err(e);
            },
        }
        i = i + 1;
    }
    assert(changes@.take(i as int) =~= changes@);
    *collaterals = work;
    Ok(())
}

/// A refusal within the first `k` adjustments is the refusal of the whole list.
pub proof fn lemma_changed_all_refused(cols: Seq<CollateralInput>, changes: Seq<CollateralChange>, k: int)
    requires
        0 <= k <= changes.len(),
        changed_all(cols, changes.take(k)) is Err,
    ensures
        changed_all(cols, changes) == changed_all(cols, changes.take(k)),
    decreases changes.len() - k,
{
    if k < changes.len() {
        assert(changes.take(k + 1).drop_last() =~= changes.take(k));
        lemma_changed_all_refused(cols, changes, k + 1);
    } else {
        assert(changes.take(k) =~= changes);
    }
}

/// A copy of the holdings.
pub fn copy_collaterals(cols: &Vec<CollateralInput>) -> (r: Vec<CollateralInput>)
    ensures
        r@ == cols@,
{
    let mut r: Vec<CollateralInput> = Vec::new();
    let mut i: usize = 0;
    while i < cols.len()
        invariant
            i <= cols.len(),
            r@ == cols@.take(i as int),
        decreases cols.len() - i,
    {
        r.push(cols[i]);
        i = i + 1;
        assert(r@ =~= cols@.take(i as int));
    }
    assert(cols@.take(i as int) =~= cols@);
    r
}

/// The additions that put the holdings `cols` into an empty collateral set.
pub open spec fn additions(cols: Seq<CollateralInput>) -> Seq<CollateralChange> {
    cols.map_values(
        |c: CollateralInput|
            CollateralChange { action: Action::Add, token_address: c.token_address, amount: c.amount },
    )
}

/// The additions that put the holdings `cols` into a collateral set.
pub fn additions_of(cols: &Vec<CollateralInput>) -> (r: Vec<CollateralChange>)
    ensures
        r@ == additions(cols@),
{
    let mut r: Vec<CollateralChange> = Vec::new();
    let mut i: usize = 0;
    while i < cols.len()
        invariant
            i <= cols.len(),
            r@ == additions(cols@.take(i as int)),
        decreases cols.len() - i,
    {
        let c = cols[i];
        r.push(CollateralChange { action: Action::Add, token_address: c.token_address, amount: c.amount });
        i = i + 1;
        assert(r@ =~= additions(cols@.take(i as int)));
    }
    assert(cols@.take(i as int) =~= cols@);
    r
}
} // verus!
