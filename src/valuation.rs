//! Collateral valuation at oracle prices, with the freshness check.

use vstd::arithmetic::div_mod::lemma_div_pos_is_pos;
use vstd::arithmetic::mul::lemma_mul_strictly_positive;
use vstd::prelude::*;

use crate::types::{fits, AssetPrice, CollateralInput, LendingError, PRICE_FRESHNESS_WINDOW};

verus! {

/// The first price in `quotes` for `asset`, if any.
pub open spec fn quote_for(quotes: Seq<AssetPrice>, asset: u64) -> Option<AssetPrice>
    decreases quotes.len(),
{
    if quotes.len() == 0 {
        None
    } else if quotes[0].asset == asset {
        Some(quotes[0])
    } else {
        quote_for(quotes.drop_first(), asset)
    }
}

/// A price can be used at `now` when it is positive and at most the freshness window old.
pub open spec fn quote_usable(q: AssetPrice, now: u64) -> bool {
    q.price > 0 && now <= q.timestamp + PRICE_FRESHNESS_WINDOW
}

/// Whether the asset of `c` has a usable price in `quotes`.
pub open spec fn priced(c: CollateralInput, quotes: Seq<AssetPrice>, now: u64) -> bool {
    match quote_for(quotes, c.token_address) {
        Some(q) => quote_usable(q, now),
        None => false,
    }
}

pub open spec fn all_priced(cols: Seq<CollateralInput>, quotes: Seq<AssetPrice>, now: u64) -> bool {
    forall|i: int| 0 <= i < cols.len() ==> #[trigger] priced(cols[i], quotes, now)
}

pub open spec fn positive_amounts(cols: Seq<CollateralInput>) -> bool {
    forall|i: int| 0 <= i < cols.len() ==> #[trigger] cols[i].amount > 0
}

pub open spec fn pow10(d: nat) -> int
    decreases d,
{
    if d == 0 {
        1
    } else {
        10 * pow10((d - 1) as nat)
    }
}

/// Value in the stable asset of the holding `c` at the price `q`.
pub open spec fn asset_value(c: CollateralInput, q: AssetPrice) -> int {
    c.amount * q.price / pow10(q.decimals as nat)
}

pub open spec fn quoted_value(c: CollateralInput, quotes: Seq<AssetPrice>) -> int {
    asset_value(c, quote_for(quotes, c.token_address).unwrap())
}

/// Sum of the values of all holdings.
pub open spec fn total_value(cols: Seq<CollateralInput>, quotes: Seq<AssetPrice>) -> int
    decreases cols.len(),
{
    if cols.len() == 0 {
        0
    } else {
        total_value(cols.drop_last(), quotes) + quoted_value(cols.last(), quotes)
    }
}

/// Whether the unit and the product of the value of holding `c` fit in an `i128`.
pub open spec fn term_representable(c: CollateralInput, quotes: Seq<AssetPrice>) -> bool {
    let q = quote_for(quotes, c.token_address).unwrap();
    fits(pow10(q.decimals as nat)) && fits(c.amount * q.price)
}

pub open spec fn value_representable(cols: Seq<CollateralInput>, quotes: Seq<AssetPrice>) -> bool {
    &&& forall|i: int| 0 <= i < cols.len() ==> #[trigger] term_representable(cols[i], quotes)
    &&& total_value(cols, quotes) <= i128::MAX
}

/// Collateral valuation: `InvalidAmount` when a holding is not positive,
/// `StaleOracleData` when a holding has no usable price, `Overflow` when the arithmetic
/// leaves `i128`, else the total value.
pub open spec fn valuation(cols: Seq<CollateralInput>, quotes: Seq<AssetPrice>, now: u64) -> Result<
    int,
    LendingError,
> {
    if !positive_amounts(cols) {
        Err(LendingError::InvalidAmount)
    } else if !all_priced(cols, quotes, now) {
        Err(LendingError::StaleOracleData)
    } else if !value_representable(cols, quotes) {
        Err(LendingError::Overflow)
    } else {
        Ok(total_value(cols, quotes))
    }
}

proof fn lemma_pow10_grows(a: nat, b: nat)
    requires
        a <= b,
    ensures
        1 <= pow10(a) <= pow10(b),
    decreases b,
{
    if b > 0 {
        if a < b {
            lemma_pow10_grows(a, (b - 1) as nat);
        }
    }
    if a > 0 {
        lemma_pow10_grows((a - 1) as nat, (a - 1) as nat);
    }
}

proof fn lemma_quoted_value_nonnegative(c: CollateralInput, quotes: Seq<AssetPrice>, now: u64)
    requires
        c.amount > 0,
        priced(c, quotes, now),
    ensures
        quoted_value(c, quotes) >= 0,
{
    let q = quote_for(quotes, c.token_address).unwrap();
    lemma_mul_strictly_positive(c.amount as int, q.price as int);
    lemma_pow10_grows(0, q.decimals as nat);
    lemma_div_pos_is_pos(c.amount * q.price, pow10(q.decimals as nat));
}

proof fn lemma_total_value_prefix(cols: Seq<CollateralInput>, quotes: Seq<AssetPrice>, now: u64, n: int)
    requires
        0 <= n <= cols.len(),
        positive_amounts(cols),
        all_priced(cols, quotes, now),
    ensures
        forall|i: int| 0 <= i <= n ==> 0 <= #[trigger] total_value(cols.take(i), quotes) <= total_value(cols.take(n), quotes),
    decreases n,
{
    if n > 0 {
        lemma_total_value_prefix(cols, quotes, now, n - 1);
        assert(cols.take(n).drop_last() =~= cols.take(n - 1));
        assert(cols.take(n).last() == cols[n - 1]);
        assert(priced(cols[n - 1], quotes, now));
        lemma_quoted_value_nonnegative(cols[n - 1], quotes, now);
        assert(total_value(cols.take(n), quotes) == total_value(cols.take(n - 1), quotes) + quoted_value(
            cols[n - 1],
            quotes,
        ));
    } else {
        assert(cols.take(0) =~= Seq::<CollateralInput>::empty());
    }
}

/// Looks up the first price for `asset`.
pub fn find_quote(quotes: &Vec<AssetPrice>, asset: u64) -> (r: Option<AssetPrice>)
    ensures
        r == quote_for(quotes@, asset),
{
    let mut i: usize = 0;
    assert(quotes@.subrange(0, quotes@.len() as int) =~= quotes@);
    while i < quotes.len()
        invariant
            i <= quotes.len(),
            quote_for(quotes@, asset) == quote_for(quotes@.subrange(i as int, quotes@.len() as int), asset),
        decreases quotes.len() - i,
    {
        assert(quotes@.subrange(i as int, quotes@.len() as int).drop_first() =~= quotes@.subrange(
            i + 1,
            quotes@.len() as int,
        ));
        if quotes[i].asset == asset {
            return Some(quotes[i]);
        }
        i = i + 1;
    }
    assert(quotes@.subrange(i as int, quotes@.len() as int) =~= Seq::<AssetPrice>::empty());
    None
}

/// `10^d`, or `None` where it does not fit in an `i128`.
fn checked_pow10(d: u32) -> (r: Option<i128>)
    ensures
        match r {
            Some(p) => fits(pow10(d as nat)) && p == pow10(d as nat),
            None => !fits(pow10(d as nat)),
        },
{
    let mut p: i128 = 1;
    let mut k: u32 = 0;
    while k < d
        invariant
            k <= d,
            p == pow10(k as nat),
        decreases d - k,
    {
        match p.checked_mul(10) {
            Some(q) => {
                p = q;
            },
            None => {
                proof {
                    lemma_pow10_grows((k + 1) as nat, d as nat);
                }
                return None;
            },
        }
        k = k + 1;
    }
    proof {
        lemma_pow10_grows(0, d as nat);
    }
    Some(p)
}

/// Total value, in the stable asset, of the holdings `cols` at the prices `quotes`
/// observed no later than the freshness window before `now`.
pub fn collateral_value(cols: &Vec<CollateralInput>, quotes: &Vec<AssetPrice>, now: u64) -> (r: Result<
    i128,
    LendingError,
>)
    ensures
        match r {
            Ok(v) => valuation(cols@, quotes@, now) == Ok::<int, LendingError>(v as int),
            Err(e) => valuation(cols@, quotes@, now) == Err::<int, LendingError>(e),
        },
        r matches Ok(v) ==> v >= 0,
{
    let mut i: usize = 0;
    while i < cols.len()
        invariant
            i <= cols.len(),
            forall|j: int| 0 <= j < i ==> #[trigger] cols@[j].amount > 0,
        decreases cols.len() - i,
    {
        if cols[i].amount <= 0 {
            assert(!(cols@[i as int].amount > 0));
            return Err(LendingError::InvalidAmount);
        }
        i = i + 1;
    }
    assert(positive_amounts(cols@));
    let mut i: usize = 0;
    while i < cols.len()
        invariant
            i <= cols.len(),
            positive_amounts(cols@),
            forall|j: int| 0 <= j < i ==> #[trigger] priced(cols@[j], quotes@, now),
        decreases cols.len() - i,
    {
        let q = find_quote(quotes, cols[i].token_address);
        match q {
            Some(q) => {
                if q.price <= 0 || (now as u128) > (q.timestamp as u128) + (PRICE_FRESHNESS_WINDOW as u128) {
                    assert(!priced(cols@[i as int], quotes@, now));
                    return Err(LendingError::StaleOracleData);
                }
            },
            None => {
                assert(!priced(cols@[i as int], quotes@, now));
                return Err(LendingError::StaleOracleData);
            },
        }
        i = i + 1;
    }
    assert(all_priced(cols@, quotes@, now));
    proof {
        lemma_total_value_prefix(cols@, quotes@, now, cols@.len() as int);
        assert(cols@.take(cols@.len() as int) =~= cols@);
    }
    let mut sum: i128 = 0;
    let mut i: usize = 0;
    while i < cols.len()
        invariant
            i <= cols.len(),
            positive_amounts(cols@),
            all_priced(cols@, quotes@, now),
            sum == total_value(cols@.take(i as int), quotes@),
            forall|j: int| 0 <= j < i ==> #[trigger] term_representable(cols@[j], quotes@),
            forall|j: int|
                0 <= j <= cols@.len() ==> 0 <= #[trigger] total_value(cols@.take(j), quotes@) <= total_value(cols@, quotes@),
        decreases cols.len() - i,
    {
        let c = cols[i];
        let q = match find_quote(quotes, c.token_address) {
            Some(q) => q,
            None => {
                assert(priced(cols@[i as int], quotes@, now));
                return Err(LendingError::StaleOracleData);
            },
        };
        assert(cols@.take(i + 1).drop_last() =~= cols@.take(i as int));
        assert(cols@.take(i + 1).last() == c);
        let unit = match checked_pow10(q.decimals) {
            Some(p) => p,
            None => {
                assert(!term_representable(cols@[i as int], quotes@));
                return Err(LendingError::Overflow);
            },
        };
        let product = match c.amount.checked_mul(q.price) {
            Some(p) => p,
            None => {
                assert(!term_representable(cols@[i as int], quotes@));
                return Err(LendingError::Overflow);
            },
        };
        assert(priced(cols@[i as int], quotes@, now));
        assert(cols@[i as int].amount > 0);
        proof {
            lemma_pow10_grows(0, q.decimals as nat);
            lemma_mul_strictly_positive(c.amount as int, q.price as int);
        }
        let term: i128 = product / unit;
        assert(term == quoted_value(c, quotes@));
        assert(total_value(cols@.take(i + 1), quotes@) == sum + term);
        match sum.checked_add(term) {
            Some(s) => {
                sum = s;
            },
            None => {
                assert(total_value(cols@.take(i + 1), quotes@) > i128::MAX);
                return Err(LendingError::Overflow);
            },
        }
        i = i + 1;
    }
    assert(cols@.take(cols@.len() as int) =~= cols@);
    Ok(sum)
}

} // verus!
