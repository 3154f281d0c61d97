//! Helpers of a stable-swap pool: picking the two sides of a swap among the
//! pool's assets, the amplification on its way from one value to the next,
//! and amounts in another precision.

use vstd::prelude::*;
use itertools::Itertools;
use crate::asset::{AssetInfoValidated, AssetModel};
use crate::lookup::{find, lemma_absent, lemma_first_is_unique};
use crate::math::{checked_pow10, lemma_pow10_grows, pow10};

verus! {

/// Why a helper of the pool failed.
#[derive(Clone, Copy, Debug, PartialEq, Eq, Structural)]
pub enum PoolError {
    /// An asset is none of the pool's.
    AssetMismatch {},
    /// Neither side of the swap is named, or one side is missing in a pool
    /// of more than two assets.
    VariableAssetMissed {},
    /// Both sides of the swap are the same asset.
    SameAssets {},
    /// An amount does not fit into 128 bits.
    Overflow {},
    /// The amplification changes over no time.
    DivideByZero {},
}

/// A number of 256 bits with eighteen decimal places, as its high and low
/// halves.
#[derive(Clone, Copy, Debug, PartialEq, Eq, Structural)]
pub struct Decimal256 {
    pub high: u128,
    pub low: u128,
}

impl Decimal256 {
    /// Whether the number is zero.
    pub fn is_zero(&self) -> (r: bool)
        ensures
            r == (self.high == 0 && self.low == 0),
    {
        self.high == 0 && self.low == 0
    }
}

/// What a pool holds of one asset.
#[derive(Debug, PartialEq, Eq)]
pub struct DecimalAsset {
    pub info: AssetInfoValidated,
    pub amount: Decimal256,
}

impl View for DecimalAsset {
    type V = (AssetModel, Decimal256);

    open spec fn view(&self) -> (AssetModel, Decimal256) {
        (self.info@, self.amount)
    }
}

impl Clone for DecimalAsset {
    fn clone(&self) -> (r: Self)
        ensures
            r@ == self@,
    {
        DecimalAsset { info: self.info.clone(), amount: self.amount }
    }
}

/// The assets of the pools, in their order.
pub open spec fn pool_infos(pools: Seq<DecimalAsset>) -> Seq<AssetModel> {
    Seq::new(pools.len(), |i: int| pools[i].info@)
}

/// Calls `itertools::Itertools::find_position` on the pools, with the
/// predicate that a pool's asset is `info`. The outside function walks the
/// pools in their order and returns the first position at which the
/// predicate holds, or nothing where it holds at none; the pool that it
/// returns with the position is dropped here.
#[verifier::external_body]
fn position_of(pools: &[DecimalAsset], info: &AssetInfoValidated) -> (r: Option<usize>)
    ensures
        match r {
            Some(i) => find(pool_infos(pools@), info@) == Some(i as int) && i < pools@.len(),
            None => find(pool_infos(pools@), info@) == None::<int>,
        },
{
    pools.iter().find_position(|pool| pool.info.same(info)).map(|found| found.0)
}

/// The first pool of `info`, found by a walk through the pools.
fn first_pool(pools: &[DecimalAsset], info: &AssetInfoValidated) -> (r: Option<usize>)
    ensures
        match r {
            Some(i) => find(pool_infos(pools@), info@) == Some(i as int) && i < pools@.len(),
            None => find(pool_infos(pools@), info@) == None::<int>,
        },
{
    let n: usize = pools.len();
    let mut i: usize = 0;
    while i < n
        invariant
            n == pools@.len(),
            0 <= i <= n,
            forall|j: int| 0 <= j < i ==> pool_infos(pools@)[j] != info@,
        decreases n - i,
    {
        if pools[i].info.same(info) {
            proof {
                lemma_first_is_unique(pool_infos(pools@), i as int, info@);
            }
            return Some(i);
        }
        i = i + 1;
    }
    proof {
        lemma_absent(pool_infos(pools@), info@);
    }
    None
}

/// An optional asset as its model.
pub open spec fn info_view(info: Option<&AssetInfoValidated>) -> Option<AssetModel> {
    match info {
        Some(i) => Some(i@),
        None => None,
    }
}

/// The positions of the offer pool and the ask pool among `infos`, or why
/// there are none.
///
/// Among two pools one named side is enough, the offer side first: the other
/// pool is the other side. Among more, both sides must be named, and must
/// differ.
pub open spec fn selection(
    offer: Option<AssetModel>,
    ask: Option<AssetModel>,
    infos: Seq<AssetModel>,
) -> Result<(int, int), PoolError> {
    if infos.len() == 2 {
        match (offer, ask) {
            (Some(o), _) => match find(infos, o) {
                Some(i) => Ok((i, (i + 1) % 2)),
                None => Err(PoolError::AssetMismatch {  }),
            },
            (None, Some(a)) => match find(infos, a) {
                Some(i) => Ok(((i + 1) % 2, i)),
                None => Err(PoolError::AssetMismatch {  }),
            },
            (None, None) => Err(PoolError::VariableAssetMissed {  }),
        }
    } else {
        match (offer, ask) {
            (Some(o), Some(a)) => if a == o {
                Err(PoolError::SameAssets {  })
            } else {
                match (find(infos, o), find(infos, a)) {
                    (Some(i), Some(j)) => Ok((i, j)),
                    _ => Err(PoolError::AssetMismatch {  }),
                }
            },
            _ => Err(PoolError::VariableAssetMissed {  }),
        }
    }
}

/// Select offer and ask pools based on given offer and ask infos. Returns
/// copies of the offer pool and of the ask pool, in this order, or the
/// reason why the two cannot be told: exactly as `selection` says.
pub fn select_pools(
    offer_asset_info: Option<&AssetInfoValidated>,
    ask_asset_info: Option<&AssetInfoValidated>,
    pools: &[DecimalAsset],
) -> (r: Result<(DecimalAsset, DecimalAsset), PoolError>)
    ensures
        match selection(info_view(offer_asset_info), info_view(ask_asset_info), pool_infos(pools@)) {
            Ok((i, j)) => r matches Ok((offer_pool, ask_pool)) && 0 <= i < pools@.len() && 0 <= j
                < pools@.len() && offer_pool@ == pools@[i]@ && ask_pool@ == pools@[j]@,
            Err(e) => r matches Err(f) && f == e,
        },
{
    if pools.len() == 2 {
        match (offer_asset_info, ask_asset_info) {
            (Some(offer_asset_info), _) => {
                let offer_ind: usize = match position_of(pools, offer_asset_info) {
                    Some(i) => i,
                    None => {
                        return Err(PoolError::AssetMismatch {  });
                    },
                };
                Ok((pools[offer_ind].clone(), pools[(offer_ind + 1) % 2].clone()))
            },
            (None, Some(ask_asset_info)) => {
                let ask_ind: usize = match position_of(pools, ask_asset_info) {
                    Some(i) => i,
                    None => {
                        return Err(PoolError::AssetMismatch {  });
                    },
                };
                Ok((pools[(ask_ind + 1) % 2].clone(), pools[ask_ind].clone()))
            },
            (None, None) => Err(PoolError::VariableAssetMissed {  }),
        }
    } else {
        match (offer_asset_info, ask_asset_info) {
            (Some(offer_asset_info), Some(ask_asset_info)) => {
                if ask_asset_info.same(offer_asset_info) {
                    return Err(PoolError::SameAssets {  });
                }
                let offer_ind: usize = match first_pool(pools, offer_asset_info) {
                    Some(i) => i,
                    None => {
                        return Err(PoolError::AssetMismatch {  });
                    },
                };
                let ask_ind: usize = match first_pool(pools, ask_asset_info) {
                    Some(i) => i,
                    None => {
                        return Err(PoolError::AssetMismatch {  });
                    },
                };
                Ok((pools[offer_ind].clone(), pools[ask_ind].clone()))
            },
            _ => Err(PoolError::VariableAssetMissed {  }),
        }
    }
}

/// The amplification of a pool on its way from one value to the next.
#[derive(Clone, Copy, Debug, PartialEq, Eq, Structural)]
pub struct AmpConfig {
    /// The amplification at the start of the change.
    pub init_amp: u64,
    /// The time at which the change starts, in seconds.
    pub init_amp_time: u64,
    /// The amplification at the end of the change.
    pub next_amp: u64,
    /// The time at which the change ends, in seconds.
    pub next_amp_time: u64,
}

impl AmpConfig {
    /// The seconds of the change that have passed at `block_time`.
    pub open spec fn elapsed(self, block_time: u64) -> int {
        if block_time >= self.init_amp_time {
            block_time - self.init_amp_time
        } else {
            0
        }
    }

    /// The seconds that the change takes.
    pub open spec fn time_range(self) -> int {
        if self.next_amp_time >= self.init_amp_time {
            self.next_amp_time - self.init_amp_time
        } else {
            0
        }
    }

    /// The amplification at `block_time`: the next one from the end of the
    /// change on; before that, the initial one moved towards the next by the
    /// share of the change that has passed, rounded towards the initial
    /// one; a division by zero where the change takes no time.
    pub open spec fn current(self, block_time: u64) -> Result<u64, PoolError> {
        if block_time >= self.next_amp_time {
            Ok(self.next_amp)
        } else if self.time_range() == 0 {
            Err(PoolError::DivideByZero {  })
        } else if self.next_amp > self.init_amp {
            Ok(
                (self.init_amp + (self.next_amp - self.init_amp) * self.elapsed(block_time)
                    / self.time_range()) as u64,
            )
        } else {
            Ok(
                (self.init_amp - (self.init_amp - self.next_amp) * self.elapsed(block_time)
                    / self.time_range()) as u64,
            )
        }
    }
}

/// Compute the current pool amplification coefficient (AMP) at
/// `block_time`. The result lies between the initial and the next
/// amplification.
pub fn compute_current_amp(config: &AmpConfig, block_time: u64) -> (r: Result<u64, PoolError>)
    ensures
        r == config.current(block_time),
        r matches Ok(amp) ==> (config.init_amp <= amp <= config.next_amp || config.next_amp <= amp
            <= config.init_amp),
{
    if block_time < config.next_amp_time {
        let elapsed_time: u128 = if block_time >= config.init_amp_time {
            (block_time - config.init_amp_time) as u128
        } else {
            0
        };
        let time_range: u128 = if config.next_amp_time >= config.init_amp_time {
            (config.next_amp_time - config.init_amp_time) as u128
        } else {
            0
        };
        if time_range == 0 {
            return Err(PoolError::DivideByZero {  });
        }
        let init_amp: u128 = config.init_amp as u128;
        let next_amp: u128 = config.next_amp as u128;
        if next_amp > init_amp {
            let amp_range: u128 = next_amp - init_amp;
            proof {
                lemma_share_bounds(amp_range as int, elapsed_time as int, time_range as int);
            }
            let res: u128 = init_amp + (amp_range * elapsed_time) / time_range;
            Ok(res as u64)
        } else {
            let amp_range: u128 = init_amp - next_amp;
            proof {
                lemma_share_bounds(amp_range as int, elapsed_time as int, time_range as int);
            }
            let res: u128 = init_amp - (amp_range * elapsed_time) / time_range;
            Ok(res as u64)
        }
    } else {
        Ok(config.next_amp)
    }
}

/// A share of a range is not negative and not more than the range.
pub proof fn lemma_share_bounds(range: int, part: int, whole: int)
    requires
        0 <= range < 0x1_0000_0000_0000_0000,
        0 <= part <= whole < 0x1_0000_0000_0000_0000,
        0 < whole,
    ensures
        0 <= range * part <= u128::MAX,
        0 <= (range * part) / whole <= range,
{
    assert(0 <= range * part <= range * whole) by (nonlinear_arith)
        requires
            0 <= range,
            0 <= part <= whole,
    ;
    assert(range * whole <= 0xffff_ffff_ffff_ffff * 0xffff_ffff_ffff_ffff) by (nonlinear_arith)
        requires
            0 <= range <= 0xffff_ffff_ffff_ffff,
            0 <= whole <= 0xffff_ffff_ffff_ffff,
    ;
    assert((range * part) / whole <= range) by (nonlinear_arith)
        requires
            0 <= range * part <= range * whole,
            0 < whole,
    ;
    assert(0 <= (range * part) / whole) by (nonlinear_arith)
        requires
            0 <= range * part,
            0 < whole,
    ;
}

/// `value` with `new_precision` decimal places in place of
/// `current_precision`: multiplied by a power of ten where the places
/// become more, divided and rounded down where they become fewer; an
/// overflow where the power of ten or the product does not fit into 128
/// bits.
pub open spec fn adjusted(value: u128, current_precision: u8, new_precision: u8) -> Result<
    u128,
    PoolError,
> {
    if current_precision == new_precision {
        Ok(value)
    } else if current_precision < new_precision {
        let factor = pow10((new_precision - current_precision) as nat);
        if factor > u128::MAX || value as int * factor as int > u128::MAX {
            Err(PoolError::Overflow {  })
        } else {
            Ok((value as int * factor as int) as u128)
        }
    } else {
        let factor = pow10((current_precision - new_precision) as nat);
        if factor > u128::MAX {
            Err(PoolError::Overflow {  })
        } else {
            Ok((value as int / factor as int) as u128)
        }
    }
}

/// Returns a value using a newly specified precision.
///
/// Fails with an overflow exactly as `adjusted` says.
pub fn adjust_precision(value: u128, current_precision: u8, new_precision: u8) -> (r: Result<
    u128,
    PoolError,
>)
    ensures
        r == adjusted(value, current_precision, new_precision),
{
    if current_precision == new_precision {
        Ok(value)
    } else if current_precision < new_precision {
        let factor: u128 = match checked_pow10(new_precision - current_precision) {
            Some(v) => v,
            None => {
                return Err(PoolError::Overflow {  });
            },
        };
        match value.checked_mul(factor) {
            Some(v) => Ok(v),
            None => Err(PoolError::Overflow {  }),
        }
    } else {
        let factor: u128 = match checked_pow10(current_precision - new_precision) {
            Some(v) => v,
            None => {
                return Err(PoolError::Overflow {  });
            },
        };
        proof {
            lemma_pow10_grows(0, (current_precision - new_precision) as nat);
        }
        Ok(value / factor)
    }
}


/// The decimal places of the accumulated prices.
pub const TWAP_PRECISION: u8 = 6;

/// The result of a swap.
#[derive(Clone, Copy, Debug, PartialEq, Eq, Structural)]
pub struct SwapResult {
    pub return_amount: u128,
    pub spread_amount: u128,
}

/// Returns the result of a swap, from what the ask pool holds before the
/// swap and what it is computed to hold after it. The rate of a stable swap
/// is taken as one to one: what the offer exceeds the return by is spread.
///
/// Fails with an overflow exactly when the ask pool is to hold more after
/// the swap than before.
pub fn compute_swap(ask_pool_amount: u128, new_ask_pool: u128, offer_asset_amount: u128) -> (r: Result<
    SwapResult,
    PoolError,
>)
    ensures
        r == (if new_ask_pool > ask_pool_amount {
            Err::<SwapResult, PoolError>(PoolError::Overflow {  })
        } else {
            Ok(
                SwapResult {
                    return_amount: (ask_pool_amount - new_ask_pool) as u128,
                    spread_amount: if offer_asset_amount >= ask_pool_amount - new_ask_pool {
                        (offer_asset_amount - (ask_pool_amount - new_ask_pool)) as u128
                    } else {
                        0
                    },
                },
            )
        }),
{
    if new_ask_pool > ask_pool_amount {
        return Err(PoolError::Overflow {  });
    }
    let return_amount: u128 = ask_pool_amount - new_ask_pool;
    let spread_amount: u128 = if offer_asset_amount >= return_amount {
        offer_asset_amount - return_amount
    } else {
        0
    };
    Ok(SwapResult { return_amount, spread_amount })
}

/// What a swap of one unit of a pair's first asset returns of its second,
/// and the decimal places of that amount.
#[derive(Clone, Copy, Debug, PartialEq, Eq, Structural)]
pub struct Quote {
    pub return_amount: u128,
    pub precision: u8,
}

/// The prices of a pool, accumulated over time.
#[derive(Debug)]
pub struct PriceConfig {
    /// The time of the last accumulation, in seconds.
    pub block_time_last: u64,
    /// For each pair of assets, the sum over time of the price of the first
    /// in the second, which wraps at 128 bits.
    pub cumulative_prices: Vec<(AssetInfoValidated, AssetInfoValidated, u128)>,
}

/// The pairs of the accumulated prices.
pub open spec fn price_pairs(prices: Seq<(AssetInfoValidated, AssetInfoValidated, u128)>) -> Seq<
    (AssetModel, AssetModel),
> {
    Seq::new(prices.len(), |i: int| (prices[i].0@, prices[i].1@))
}

/// The accumulated values.
pub open spec fn price_values(prices: Seq<(AssetInfoValidated, AssetInfoValidated, u128)>) -> Seq<
    u128,
> {
    Seq::new(prices.len(), |i: int| prices[i].2)
}

/// Every pool holds something.
pub open spec fn all_funded(pools: Seq<DecimalAsset>) -> bool {
    forall|i: int|
        0 <= i < pools.len() ==> !((#[trigger] pools[i]).amount.high == 0 && pools[i].amount.low
            == 0)
}

/// Whether every pool holds something.
pub fn pools_funded(pools: &[DecimalAsset]) -> (r: bool)
    ensures
        r == all_funded(pools@),
{
    let n: usize = pools.len();
    let mut i: usize = 0;
    while i < n
        invariant
            n == pools@.len(),
            0 <= i <= n,
            forall|j: int|
                0 <= j < i ==> !((#[trigger] pools@[j]).amount.high == 0 && pools@[j].amount.low
                    == 0),
        decreases n - i,
    {
        if pools[i].amount.is_zero() {
            return false;
        }
        i = i + 1;
    }
    true
}

/// What `quote`, weighted by `time_elapsed` seconds, adds to an accumulated
/// price, or why it cannot be added: its amount cannot be brought to the
/// precision of the accumulated prices, or the weighted amount does not fit
/// into 128 bits.
pub open spec fn weighted_price(time_elapsed: u64, quote: Quote) -> Result<u128, PoolError> {
    match adjusted(quote.return_amount, quote.precision, TWAP_PRECISION) {
        Err(e) => Err(e),
        Ok(price) => if time_elapsed * price > u128::MAX {
            Err(PoolError::Overflow {  })
        } else {
            Ok((time_elapsed * price) as u128)
        },
    }
}

/// The accumulation over `time_elapsed` seconds fails for pair `i`: the
/// pools of the pair cannot be told, or the weighted price cannot be
/// computed.
pub open spec fn accumulation_error(
    pairs: Seq<(AssetModel, AssetModel)>,
    pools: Seq<AssetModel>,
    time_elapsed: u64,
    quotes: Seq<Quote>,
    i: int,
) -> Option<PoolError> {
    match selection(Some(pairs[i].0), Some(pairs[i].1), pools) {
        Err(e) => Some(e),
        Ok(_) => match weighted_price(time_elapsed, quotes[i]) {
            Err(e) => Some(e),
            Ok(_) => None,
        },
    }
}

/// Accumulate token prices for the assets in the pool, up to `block_time`.
/// `quotes` holds, for each pair of the accumulated prices, what a swap of
/// one unit returns now. Returns whether the prices were brought up to the
/// time: they are not where the time has not moved on. Where some pool is
/// empty, only the time is taken.
///
/// Each price grows by its quote, in six decimal places, times the seconds
/// since the last accumulation, and wraps at 128 bits. Fails, and changes
/// nothing, with the error of the first pair for which that cannot be
/// computed.
pub fn accumulate_prices(
    config: &mut PriceConfig,
    block_time: u64,
    pools: &[DecimalAsset],
    quotes: &Vec<Quote>,
) -> (r: Result<bool, PoolError>)
    requires
        quotes@.len() == old(config).cumulative_prices@.len(),
    ensures
        block_time <= old(config).block_time_last ==> r == Ok::<bool, PoolError>(false)
            && *final(config) == *old(config),
        block_time > old(config).block_time_last && !all_funded(pools@) ==> r == Ok::<
            bool,
            PoolError,
        >(true) && final(config).block_time_last == block_time && final(config).cumulative_prices
            == old(config).cumulative_prices,
        block_time > old(config).block_time_last && all_funded(pools@) ==> {
            let pairs = price_pairs(old(config).cumulative_prices@);
            let elapsed = (block_time - old(config).block_time_last) as u64;
            &&& r is Err <==> exists|i: int|
                0 <= i < pairs.len() && #[trigger] accumulation_error(
                    pairs,
                    pool_infos(pools@),
                    elapsed,
                    quotes@,
                    i,
                ) is Some
            &&& r is Err ==> *final(config) == *old(config) && exists|i: int|
                0 <= i < pairs.len() && #[trigger] accumulation_error(
                    pairs,
                    pool_infos(pools@),
                    elapsed,
                    quotes@,
                    i,
                ) == Some(r->Err_0) && forall|j: int|
                    0 <= j < i ==> #[trigger] accumulation_error(
                        pairs,
                        pool_infos(pools@),
                        elapsed,
                        quotes@,
                        j,
                    ) is None
            &&& r is Ok ==> r == Ok::<bool, PoolError>(true) && final(config).block_time_last
                == block_time && price_pairs(final(config).cumulative_prices@) == pairs
                && price_values(final(config).cumulative_prices@) == Seq::new(
                pairs.len(),
                |i: int|
                    ((old(config).cumulative_prices@[i].2 + weighted_price(
                        elapsed,
                        quotes@[i],
                    )->Ok_0) % (u128::MAX + 1)) as u128,
            )
        },
{
    if block_time <= config.block_time_last {
        return Ok(false);
    }
    let time_elapsed: u64 = block_time - config.block_time_last;
    if pools_funded(pools) {
        let n: usize = config.cumulative_prices.len();
        let ghost pairs = price_pairs(config.cumulative_prices@);
        let ghost infos = pool_infos(pools@);
        let mut values: Vec<u128> = Vec::new();
        let mut i: usize = 0;
        while i < n
            invariant
                n == config.cumulative_prices@.len(),
                n == quotes@.len(),
                *config == *old(config),
                pairs == price_pairs(config.cumulative_prices@),
                infos == pool_infos(pools@),
                all_funded(pools@),
                block_time > config.block_time_last,
                time_elapsed == block_time - config.block_time_last,
                0 <= i <= n,
                values@.len() == i,
                forall|j: int|
                    0 <= j < i ==> #[trigger] accumulation_error(
                        pairs,
                        infos,
                        time_elapsed,
                        quotes@,
                        j,
                    ) is None,
                forall|j: int|
                    0 <= j < i ==> (#[trigger] values@[j]) == ((config.cumulative_prices@[j].2
                        + weighted_price(time_elapsed, quotes@[j])->Ok_0)
                        % (u128::MAX + 1)) as u128,
            decreases n - i,
        {
            let entry: &(AssetInfoValidated, AssetInfoValidated, u128) =
                &config.cumulative_prices[i];
            proof {
                assert(pairs[i as int] == (entry.0@, entry.1@));
            }
            match select_pools(Some(&entry.0), Some(&entry.1), pools) {
                Ok(_) => {},
                Err(e) => {
                    assert(accumulation_error(pairs, infos, time_elapsed, quotes@, i as int)
                        == Some(e));
                    return Err(e);
                },
            }
            let quote: Quote = quotes[i];
            let price: u128 = match adjust_precision(
                quote.return_amount,
                quote.precision,
                TWAP_PRECISION,
            ) {
                Ok(v) => v,
                Err(e) => {
                    assert(accumulation_error(pairs, infos, time_elapsed, quotes@, i as int)
                        == Some(e));
                    return Err(e);
                },
            };
            let weighted: u128 = match (time_elapsed as u128).checked_mul(price) {
                Some(v) => v,
                None => {
                    assert(accumulation_error(pairs, infos, time_elapsed, quotes@, i as int)
                        == Some(PoolError::Overflow {  }));
                    return Err(PoolError::Overflow {  });
                },
            };
            values.push(entry.2.wrapping_add(weighted));
            i = i + 1;
        }
        let mut k: usize = 0;
        while k < n
            invariant
                n == config.cumulative_prices@.len(),
                n == old(config).cumulative_prices@.len(),
                n == values@.len(),
                0 <= k <= n,
                config.block_time_last == old(config).block_time_last,
                price_pairs(config.cumulative_prices@) == price_pairs(
                    old(config).cumulative_prices@,
                ),
                forall|j: int|
                    0 <= j < k ==> (#[trigger] config.cumulative_prices@[j]).2 == values@[j],
            decreases n - k,
        {
            let ghost before = config.cumulative_prices@;
            config.cumulative_prices[k].2 = values[k];
            assert(price_pairs(config.cumulative_prices@) =~= price_pairs(before));
            k = k + 1;
        }
        assert(price_values(config.cumulative_prices@) =~= values@);
        assert(values@ =~= Seq::new(
            n as nat,
            |i: int|
                ((old(config).cumulative_prices@[i].2 + weighted_price(
                    time_elapsed,
                    quotes@[i],
                )->Ok_0) % (u128::MAX + 1)) as u128,
        ));
    }
    config.block_time_last = block_time;
    Ok(true)
}

/// The price of one asset in another.
#[derive(Debug, PartialEq, Eq)]
pub struct PricePoint {
    pub from: AssetInfoValidated,
    pub to: AssetInfoValidated,
    pub rate: u128,
}

/// The price points as triples of assets and rate.
pub open spec fn points_view(points: Seq<PricePoint>) -> Seq<(AssetModel, AssetModel, u128)> {
    Seq::new(points.len(), |i: int| (points[i].from@, points[i].to@, points[i].rate))
}

/// Calculates new prices for the assets in the pool: for each pair of the
/// accumulated prices, what `quotes` holds as the return of a swap of one
/// unit. Returns no prices where some pool is empty.
///
/// Fails with the error of the first pair whose pools cannot be told.
pub fn calc_new_prices(config: &PriceConfig, pools: &[DecimalAsset], quotes: &Vec<Quote>) -> (r: Result<
    Vec<PricePoint>,
    PoolError,
>)
    requires
        quotes@.len() == config.cumulative_prices@.len(),
    ensures
        !all_funded(pools@) ==> (r matches Ok(prices) && prices@.len() == 0),
        all_funded(pools@) ==> {
            let pairs = price_pairs(config.cumulative_prices@);
            &&& r is Err <==> exists|i: int|
                0 <= i < pairs.len() && #[trigger] selection(
                    Some(pairs[i].0),
                    Some(pairs[i].1),
                    pool_infos(pools@),
                ) is Err
            &&& r matches Err(e) ==> exists|i: int|
                0 <= i < pairs.len() && #[trigger] selection(
                    Some(pairs[i].0),
                    Some(pairs[i].1),
                    pool_infos(pools@),
                ) == Err::<(int, int), PoolError>(e) && forall|j: int|
                    0 <= j < i ==> #[trigger] selection(
                        Some(pairs[j].0),
                        Some(pairs[j].1),
                        pool_infos(pools@),
                    ) is Ok
            &&& r matches Ok(prices) ==> points_view(prices@) == Seq::new(
                pairs.len(),
                |i: int| (pairs[i].0, pairs[i].1, quotes@[i].return_amount),
            )
        },
{
    let mut prices: Vec<PricePoint> = Vec::new();
    if pools_funded(pools) {
        let n: usize = config.cumulative_prices.len();
        let ghost pairs = price_pairs(config.cumulative_prices@);
        let mut i: usize = 0;
        while i < n
            invariant
                n == config.cumulative_prices@.len(),
                n == quotes@.len(),
                pairs == price_pairs(config.cumulative_prices@),
                all_funded(pools@),
                0 <= i <= n,
                prices@.len() == i,
                forall|j: int|
                    0 <= j < i ==> #[trigger] selection(
                        Some(pairs[j].0),
                        Some(pairs[j].1),
                        pool_infos(pools@),
                    ) is Ok,
                forall|j: int|
                    0 <= j < i ==> (#[trigger] prices@[j]).from@ == pairs[j].0 && prices@[j].to@
                        == pairs[j].1 && prices@[j].rate == quotes@[j].return_amount,
            decreases n - i,
        {
            let entry: &(AssetInfoValidated, AssetInfoValidated, u128) =
                &config.cumulative_prices[i];
            proof {
                assert(pairs[i as int] == (entry.0@, entry.1@));
            }
            match select_pools(Some(&entry.0), Some(&entry.1), pools) {
                Ok(_) => {},
                Err(e) => {
                    assert(selection(
                        Some(pairs[i as int].0),
                        Some(pairs[i as int].1),
                        pool_infos(pools@),
                    ) == Err::<(int, int), PoolError>(e));
                    return Err(e);
                },
            }
            prices.push(
                PricePoint {
                    from: entry.0.clone(),
                    to: entry.1.clone(),
                    rate: quotes[i].return_amount,
                },
            );
            i = i + 1;
        }
        assert(points_view(prices@) =~= Seq::new(
            pairs.len(),
            |i: int| (pairs[i].0, pairs[i].1, quotes@[i].return_amount),
        ));
    }
    Ok(prices)
}

} // verus!
