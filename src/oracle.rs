//! A simple price feed: one authorized bot records the latest price of each asset.

use vstd::prelude::*;

use crate::types::PriceData;

verus! {

/// Why a price submission was refused.
#[derive(Clone, Copy, Debug, PartialEq, Eq)]
pub enum OracleError {
    /// The submitter is not the authorized price bot.
    Unauthorized,
    /// The price is zero or negative.
    NonPositivePrice,
}

/// A price feed written by one authorized bot: the latest price of each asset and when
/// it was observed.
pub struct MockOracle {
    bot: u64,
    prices: Vec<(u64, PriceData)>,
}

/// Position of the entry of `asset`, or -1.
pub open spec fn entry_index(entries: Seq<(u64, PriceData)>, asset: u64) -> int {
    if exists|i: int| 0 <= i < entries.len() && entries[i].0 == asset {
        choose|i: int| 0 <= i < entries.len() && entries[i].0 == asset
    } else {
        -1
    }
}

/// The price recorded for `asset`, if any.
pub open spec fn recorded(entries: Seq<(u64, PriceData)>, asset: u64) -> Option<PriceData> {
    let i = entry_index(entries, asset);
    if i >= 0 {
        Some(entries[i].1)
    } else {
        None
    }
}

pub open spec fn distinct_entries(entries: Seq<(u64, PriceData)>) -> bool {
    forall|i: int, j: int|
        0 <= i < entries.len() && 0 <= j < entries.len() && i != j ==> entries[i].0 != entries[j].0
}

impl MockOracle {
    pub closed spec fn bot_address(&self) -> u64 {
        self.bot
    }

    /// The recorded prices, by asset.
    pub closed spec fn price_map(&self) -> Map<u64, PriceData> {
        Map::new(|a: u64| recorded(self.prices@, a) is Some, |a: u64| recorded(self.prices@, a)->Some_0)
    }

    pub closed spec fn wf(&self) -> bool {
        distinct_entries(self.prices@)
    }

    /// A feed with no prices whose prices only `bot_address` may submit.
    pub fn new(bot_address: u64) -> (r: MockOracle)
        ensures
            r.wf(),
            r.bot_address() == bot_address,
            r.price_map() == Map::<u64, PriceData>::empty(),
    {
        let r = MockOracle { bot: bot_address, prices: Vec::new() };
        assert(r.price_map() =~= Map::<u64, PriceData>::empty());
        r
    }

    fn find(&self, asset: u64) -> (r: Option<usize>)
        requires
            self.wf(),
        ensures
            match r {
                Some(i) => i == entry_index(self.prices@, asset) && i < self.prices@.len(),
                None => entry_index(self.prices@, asset) == -1,
            },
    {
        let mut i: usize = 0;
        while i < self.prices.len()
            invariant
                i <= self.prices.len(),
                self.wf(),
                forall|j: int| 0 <= j < i ==> self.prices@[j].0 != asset,
            decreases self.prices.len() - i,
        {
            if self.prices[i].0 == asset {
                let ghost k = entry_index(self.prices@, asset);
                assert(k == i) by {
                    if k != i {
                        assert(self.prices@[k].0 != self.prices@[i as int].0);
                    }
                }
                return Some(i);
            }
            i = i + 1;
        }
        None
    }

    /// Records `data` as the price of `asset`.
    fn record(&mut self, asset: u64, data: PriceData)
        requires
            old(self).wf(),
        ensures
            final(self).wf(),
            final(self).bot_address() == old(self).bot_address(),
            final(self).price_map() == old(self).price_map().insert(asset, data),
    {
        let ghost before = self.prices@;
        match self.find(asset) {
            Some(i) => {
                self.prices.set(i, (asset, data));
                proof {
                    let after = self.prices@;
                    assert forall|a: u64| #[trigger] recorded(after, a) == (if a == asset {
                        Some(data)
                    } else {
                        recorded(before, a)
                    }) by {
                        if a != asset {
                            let k = entry_index(before, a);
                            if k >= 0 {
                                assert(after[k].0 == a);
                            }
                            if exists|j: int| 0 <= j < after.len() && after[j].0 == a {
                                let j = choose|j: int| 0 <= j < after.len() && after[j].0 == a;
                                assert(before[j].0 == a);
                            }
                        } else {
                            assert(after[i as int].0 == asset);
                            let k = entry_index(after, a);
                            if k != i {
                                assert(after[k].0 != after[i as int].0);
                            }
                        }
                    }
                }
            },
            None => {
                self.prices.push((asset, data));
                proof {
                    let after = self.prices@;
                    assert forall|a: u64| #[trigger] recorded(after, a) == (if a == asset {
                        Some(data)
                    } else {
                        recorded(before, a)
                    }) by {
                        if a != asset {
                            let k = entry_index(before, a);
                            if k >= 0 {
                                assert(after[k].0 == a);
                            }
                            if exists|j: int| 0 <= j < after.len() && after[j].0 == a {
                                let j = choose|j: int| 0 <= j < after.len() && after[j].0 == a;
                                assert(before[j].0 == a);
                            }
                        } else {
                            let n = before.len() as int;
                            assert(after[n].0 == asset);
                            let k = entry_index(after, a);
                            if k != n {
                                assert(before[k].0 == asset);
                            }
                        }
                    }
                }
            },
        }
        assert(self.price_map() =~= old(self).price_map().insert(asset, data));
    }

    /// The bot submits `price` for `asset`, observed at `now`.
    pub fn submit_price(&mut self, bot: u64, asset: u64, price: i128, now: u64) -> (r: Result<
        (),
        OracleError,
    >)
        requires
            old(self).wf(),
        ensures
            final(self).wf(),
            final(self).bot_address() == old(self).bot_address(),
            if bot != old(self).bot_address() {
                r == Err::<(), OracleError>(OracleError::Unauthorized) && final(self).price_map() == old(
                    self,
                ).price_map()
            } else if price <= 0 {
                r == Err::<(), OracleError>(OracleError::NonPositivePrice) && final(self).price_map() == old(
                    self,
                ).price_map()
            } else {
                r == Ok::<(), OracleError>(()) && final(self).price_map() == old(self).price_map().insert(
                    asset,
                    PriceData { price, timestamp: now },
                )
            },
    {
        if bot != self.bot {
            return Err(OracleError::Unauthorized);
        }
        if price <= 0 {
            return Err(OracleError::NonPositivePrice);
        }
        self.record(asset, PriceData { price, timestamp: now });
        Ok(())
    }

    /// The bot, as `source`, sets `price` for `asset` observed at `timestamp`; a zero
    /// timestamp stands for `now`.
    pub fn set_price(&mut self, asset_address: u64, price: i128, timestamp: u64, source: u64, now: u64) -> (r:
        Result<(), OracleError>)
        requires
            old(self).wf(),
        ensures
            final(self).wf(),
            final(self).bot_address() == old(self).bot_address(),
            if source != old(self).bot_address() {
                r == Err::<(), OracleError>(OracleError::Unauthorized) && final(self).price_map() == old(
                    self,
                ).price_map()
            } else if price <= 0 {
                r == Err::<(), OracleError>(OracleError::NonPositivePrice) && final(self).price_map() == old(
                    self,
                ).price_map()
            } else {
                r == Ok::<(), OracleError>(()) && final(self).price_map() == old(self).price_map().insert(
                    asset_address,
                    PriceData {
                        price,
                        timestamp: if timestamp > 0 {
                            timestamp
                        } else {
                            now
                        },
                    },
                )
            },
    {
        if source != self.bot {
            return Err(OracleError::Unauthorized);
        }
        if price <= 0 {
            return Err(OracleError::NonPositivePrice);
        }
        let observed = if timestamp > 0 {
            timestamp
        } else {
            now
        };
        self.record(asset_address, PriceData { price, timestamp: observed });
        Ok(())
    }

    /// The latest price of `asset`, or zero when none was recorded.
    pub fn get_price(&self, asset: u64) -> (r: i128)
        requires
            self.wf(),
        ensures
            r == (if self.price_map().contains_key(asset) {
                self.price_map()[asset].price
            } else {
                0
            }),
    {
        match self.find(asset) {
            Some(i) => self.prices[i].1.price,
            None => 0,
        }
    }

    /// The latest price of `asset` and when it was observed, or `(0, 0)` when none was
    /// recorded.
    pub fn get_price_data(&self, asset: u64) -> (r: (i128, u64))
        requires
            self.wf(),
        ensures
            r == (if self.price_map().contains_key(asset) {
                (self.price_map()[asset].price, self.price_map()[asset].timestamp)
            } else {
                (0i128, 0u64)
            }),
    {
        match self.find(asset) {
            Some(i) => (self.prices[i].1.price, self.prices[i].1.timestamp),
            None => (0, 0),
        }
    }

    /// The authorized price bot.
    pub fn get_bot(&self) -> (r: u64)
        ensures
            r == self.bot_address(),
    {
        self.bot
    }
}

} // verus!
