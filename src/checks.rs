//! Run-time checks of the pool's invariants, used when state is read back from storage.

use vstd::prelude::*;

use crate::collateral::{collateral_set, distinct_assets};
use crate::model::{
    deposit_wf, deposits_wf, distinct_borrowers, loan_wf, loans_wf, principals, seq_sum,
};
use crate::types::{CollateralInput, LPDeposit, Loan, BPS_DENOMINATOR, MAX_WARNINGS};
use crate::valuation::positive_amounts;

verus! {

pub open spec fn all_distinct(keys: Seq<u64>) -> bool {
    forall|i: int, j: int| 0 <= i < keys.len() && 0 <= j < keys.len() && i != j ==> keys[i] != keys[j]
}

/// Whether no key occurs twice.
pub fn distinct_keys(keys: &Vec<u64>) -> (r: bool)
    ensures
        r == all_distinct(keys@),
{
    let mut i: usize = 0;
    while i < keys.len()
        invariant
            i <= keys.len(),
            forall|a: int, b: int| 0 <= a < i && 0 <= b < i && a != b ==> keys@[a] != keys@[b],
        decreases keys.len() - i,
    {
        let mut j: usize = 0;
        while j < i
            invariant
                i < keys.len(),
                j <= i,
                forall|a: int, b: int| 0 <= a < i && 0 <= b < i && a != b ==> keys@[a] != keys@[b],
                forall|b: int| 0 <= b < j ==> keys@[b] != keys@[i as int],
            decreases i - j,
        {
            if keys[j] == keys[i] {
                assert(!all_distinct(keys@)) by {
                    assert(keys@[j as int] == keys@[i as int]);
                }
                return false;
            }
            j = j + 1;
        }
        i = i + 1;
    }
    true
}

/// Whether `cols` is a collateral set: distinct assets, positive amounts.
pub fn check_collateral_set(cols: &Vec<CollateralInput>) -> (r: bool)
    ensures
        r == collateral_set(cols@),
{
    let mut keys: Vec<u64> = Vec::new();
    let mut i: usize = 0;
    while i < cols.len()
        invariant
            i <= cols.len(),
            keys@.len() == i,
            forall|k: int| 0 <= k < i ==> keys@[k] == cols@[k].token_address,
            forall|k: int| 0 <= k < i ==> #[trigger] cols@[k].amount > 0,
        decreases cols.len() - i,
    {
        if cols[i].amount <= 0 {
            assert(!positive_amounts(cols@)) by {
                assert(!(cols@[i as int].amount > 0));
            }
            return false;
        }
        keys.push(cols[i].token_address);
        i = i + 1;
    }
    let d = distinct_keys(&keys);
    assert(d == distinct_assets(cols@)) by {
        if d {
            assert forall|a: int, b: int|
                0 <= a < cols@.len() && 0 <= b < cols@.len() && a != b implies cols@[a].token_address
                != cols@[b].token_address by {
                assert(keys@[a] != keys@[b]);
            }
        } else {
            let (a, b) = choose|a: int, b: int|
                0 <= a < keys@.len() && 0 <= b < keys@.len() && a != b && keys@[a] == keys@[b];
            assert(cols@[a].token_address == cols@[b].token_address);
        }
    }
    d
}

/// Whether the record is well formed.
pub fn check_deposit(d: &LPDeposit) -> (r: bool)
    ensures
        r == deposit_wf(*d),
{
    0 <= d.available_amount && d.available_amount <= d.total_deposited
}

/// Whether the records form a ledger: one per depositor, each well formed.
pub fn check_deposits(ds: &Vec<LPDeposit>) -> (r: bool)
    ensures
        r == deposits_wf(ds@),
{
    let mut keys: Vec<u64> = Vec::new();
    let mut i: usize = 0;
    while i < ds.len()
        invariant
            i <= ds.len(),
            keys@.len() == i,
            forall|k: int| 0 <= k < i ==> keys@[k] == ds@[k].depositor,
            forall|k: int| 0 <= k < i ==> #[trigger] deposit_wf(ds@[k]),
        decreases ds.len() - i,
    {
        if !check_deposit(&ds[i]) {
            return false;
        }
        keys.push(ds[i].depositor);
        i = i + 1;
    }
    let d = distinct_keys(&keys);
    assert(d == deposits_wf(ds@)) by {
        if d {
            assert forall|a: int, b: int|
                0 <= a < ds@.len() && 0 <= b < ds@.len() && a != b implies ds@[a].depositor
                != ds@[b].depositor by {
                assert(keys@[a] != keys@[b]);
            }
        } else {
            let (a, b) = choose|a: int, b: int|
                0 <= a < keys@.len() && 0 <= b < keys@.len() && a != b && keys@[a] == keys@[b];
            assert(ds@[a].depositor == ds@[b].depositor);
        }
    }
    d
}

/// Whether the loan is well formed.
pub fn check_loan(l: &Loan) -> (r: bool)
    ensures
        r == loan_wf(l@),
{
    check_collateral_set(&l.collaterals) && l.principal > 0 && l.outstanding_debt > 0 && l.penalties >= 0
        && l.interest_rate >= 0 && 0 <= l.yield_share_percent && l.yield_share_percent <= BPS_DENOMINATOR
        && l.warnings_issued <= MAX_WARNINGS && l.start_time <= l.last_interest_update
}

proof fn lemma_prefix_sum_bounded(s: Seq<int>, n: int)
    requires
        0 <= n <= s.len(),
        forall|i: int| 0 <= i < s.len() ==> s[i] >= 0,
    ensures
        forall|i: int| 0 <= i <= n ==> 0 <= #[trigger] seq_sum(s.take(i)) <= seq_sum(s.take(n)),
    decreases n,
{
    if n > 0 {
        lemma_prefix_sum_bounded(s, n - 1);
        assert(s.take(n).drop_last() =~= s.take(n - 1));
        assert(s.take(n).last() == s[n - 1]);
        assert(seq_sum(s.take(n)) == seq_sum(s.take(n - 1)) + s[n - 1]);
    } else {
        assert(s.take(0) =~= Seq::<int>::empty());
    }
}

/// Whether the loans form a ledger whose principals sum to `locked`.
pub fn check_loans(loans: &Vec<Loan>, locked: i128) -> (r: bool)
    ensures
        r == (loans_wf(loans@.map_values(|l: Loan| l@)) && locked == seq_sum(
            principals(loans@.map_values(|l: Loan| l@)),
        )),
{
    let ghost views = loans@.map_values(|l: Loan| l@);
    let mut keys: Vec<u64> = Vec::new();
    let mut i: usize = 0;
    while i < loans.len()
        invariant
            i <= loans.len(),
            views == loans@.map_values(|l: Loan| l@),
            keys@.len() == i,
            forall|k: int| 0 <= k < i ==> keys@[k] == views[k].borrower,
            forall|k: int| 0 <= k < i ==> #[trigger] loan_wf(views[k]),
        decreases loans.len() - i,
    {
        if !check_loan(&loans[i]) {
            assert(!loan_wf(views[i as int]));
            return false;
        }
        keys.push(loans[i].borrower);
        i = i + 1;
    }
    let d = distinct_keys(&keys);
    assert(d == distinct_borrowers(views)) by {
        if d {
            assert forall|a: int, b: int|
                0 <= a < views.len() && 0 <= b < views.len() && a != b implies views[a].borrower
                != views[b].borrower by {
                assert(keys@[a] != keys@[b]);
            }
        } else {
            let (a, b) = choose|a: int, b: int|
                0 <= a < keys@.len() && 0 <= b < keys@.len() && a != b && keys@[a] == keys@[b];
            assert(views[a].borrower == views[b].borrower);
        }
    }
    if !d {
        return false;
    }
    let ghost ps = principals(views);
    proof {
        assert forall|k: int| 0 <= k < ps.len() implies ps[k] >= 0 by {
            assert(loan_wf(views[k]));
        }
        lemma_prefix_sum_bounded(ps, ps.len() as int);
        assert(ps.take(ps.len() as int) =~= ps);
    }
    let mut sum: i128 = 0;
    let mut i: usize = 0;
    while i < loans.len()
        invariant
            i <= loans.len(),
            views == loans@.map_values(|l: Loan| l@),
            ps == principals(views),
            sum == seq_sum(ps.take(i as int)),
            forall|k: int| 0 <= k <= ps.len() ==> 0 <= #[trigger] seq_sum(ps.take(k)) <= seq_sum(ps),
        decreases loans.len() - i,
    {
        assert(ps.take(i + 1).drop_last() =~= ps.take(i as int));
        assert(ps.take(i + 1).last() == ps[i as int]);
        assert(ps[i as int] == loans@[i as int].principal);
        assert(seq_sum(ps.take(i + 1)) == sum + ps[i as int]);
        match sum.checked_add(loans[i].principal) {
            Some(s) => {
                sum = s;
            },
            None => {
                return false;
            },
        }
        i = i + 1;
    }
    assert(ps.take(i as int) =~= ps);
    sum == locked
}

} // verus!
