use vstd::prelude::*;

use crate::markets::{BTC, ETH};

verus! {

/// Number of per-minute ticks that make one funding rate (eight hours).
pub const FUNDING_TICKS_PER_RATE: u16 = 480;

/// Fixed-point scale of premiums and funding rates.
pub const FUNDING_SCALE: u64 = 100_000;

/// The impact bid and ask that the liquidity monitor quoted for each token,
/// as (token, impact bid, impact ask).
pub struct FundingUpdateMessage {
    pub impact_prices: Vec<(u64, u64, u64)>,
}

/// `a / b` rounded toward zero.
pub open spec fn trunc_div(a: int, b: int) -> int {
    if a >= 0 {
        a / b
    } else {
        -((-a) / b)
    }
}

pub open spec fn clamp_i64(x: int) -> i64 {
    if x > i64::MAX {
        i64::MAX
    } else if x < i64::MIN {
        i64::MIN
    } else {
        x as i64
    }
}

/// The premium of one tick, scaled by FUNDING_SCALE: how far the impact bid
/// stands above the index price, less how far the impact ask stands below
/// it, relative to the index price. Nothing where the index price is 0.
pub open spec fn premium(impact_bid: u64, impact_ask: u64, index_price: u64) -> int {
    if index_price == 0 {
        0
    } else {
        let above = if impact_bid > index_price { impact_bid - index_price } else { 0 };
        let below = if index_price > impact_ask { index_price - impact_ask } else { 0 };
        trunc_div((above - below) * FUNDING_SCALE, index_price as int)
    }
}

/// A running sum after one more tick, held within `i64`.
pub open spec fn tick(sum: i64, impact_bid: u64, impact_ask: u64, index_price: u64) -> i64 {
    clamp_i64(sum + premium(impact_bid, impact_ask, index_price))
}

/// The impact prices quoted for `token`, the first quote where there are
/// several.
pub open spec fn impact_for(quotes: Seq<(u64, u64, u64)>, token: u64) -> Option<(u64, u64)>
    decreases quotes.len(),
{
    if quotes.len() == 0 {
        None
    } else if quotes[0].0 == token {
        Some((quotes[0].1, quotes[0].2))
    } else {
        impact_for(quotes.drop_first(), token)
    }
}

/// The tracked tokens, by slot.
pub open spec fn slot_token(j: int) -> u64 {
    if j == 0 {
        BTC
    } else {
        ETH
    }
}

/// The running sum of a slot after one tick; a token without a quote keeps
/// its sum.
pub open spec fn ticked_sum(sum: i64, quotes: Seq<(u64, u64, u64)>, j: int, index_price: u64) -> i64 {
    match impact_for(quotes, slot_token(j)) {
        Some((bid, ask)) => tick(sum, bid, ask, index_price),
        None => sum,
    }
}

/// The funding state in the abstract.
pub struct FundingView {
    pub sums: Seq<i64>,
    pub count: int,
    pub rates: Seq<(i64, i64)>,
    pub prices: Seq<(u64, u64)>,
    pub idx: int,
}

/// The funding state after one per-minute tick, with the quotes of that
/// minute and the latest index prices by slot.
pub open spec fn funding_step(v: FundingView, quotes: Seq<(u64, u64, u64)>, index_prices: Seq<u64>) -> FundingView {
    let s0 = ticked_sum(v.sums[0], quotes, 0, index_prices[0]);
    let s1 = ticked_sum(v.sums[1], quotes, 1, index_prices[1]);
    if v.count + 1 == FUNDING_TICKS_PER_RATE {
        FundingView {
            sums: seq![0i64, 0i64],
            count: 0,
            rates: v.rates.push((trunc_div(s0 as int, FUNDING_TICKS_PER_RATE as int) as i64, trunc_div(s1 as int, FUNDING_TICKS_PER_RATE as int) as i64)),
            prices: v.prices.push((index_prices[0], index_prices[1])),
            idx: v.idx + 1,
        }
    } else {
        FundingView { sums: seq![s0, s1], count: v.count + 1, ..v }
    }
}

/// The funding state after a run of ticks.
pub open spec fn funding_steps(v: FundingView, quotes: Seq<Seq<(u64, u64, u64)>>, index_prices: Seq<Seq<u64>>) -> FundingView
    decreases quotes.len(),
{
    if quotes.len() == 0 {
        v
    } else {
        funding_step(
            funding_steps(v, quotes.drop_last(), index_prices.drop_last()),
            quotes.last(),
            index_prices[quotes.len() - 1],
        )
    }
}

proof fn lemma_steps_count(v: FundingView, quotes: Seq<Seq<(u64, u64, u64)>>, index_prices: Seq<Seq<u64>>)
    requires
        v.count == 0,
        v.sums.len() == 2,
        quotes.len() < FUNDING_TICKS_PER_RATE,
        index_prices.len() >= quotes.len(),
    ensures
        funding_steps(v, quotes, index_prices).count == quotes.len(),
        funding_steps(v, quotes, index_prices).idx == v.idx,
        funding_steps(v, quotes, index_prices).rates == v.rates,
        funding_steps(v, quotes, index_prices).prices == v.prices,
        funding_steps(v, quotes, index_prices).sums.len() == 2,
    decreases quotes.len(),
{
    if quotes.len() > 0 {
        lemma_steps_count(v, quotes.drop_last(), index_prices.drop_last());
    }
}

/// Starting a rate period, exactly FUNDING_TICKS_PER_RATE ticks make one new
/// funding rate and price per token: the funding index grows by one, each
/// token's rate and price history by one entry, and the running sums start
/// again from zero.
pub proof fn lemma_funding_accumulation(v: FundingView, quotes: Seq<Seq<(u64, u64, u64)>>, index_prices: Seq<Seq<u64>>)
    requires
        v.count == 0,
        v.sums.len() == 2,
        quotes.len() == FUNDING_TICKS_PER_RATE,
        index_prices.len() == quotes.len(),
        forall|k: int| 0 <= k < index_prices.len() ==> (#[trigger] index_prices[k]).len() == 2,
    ensures
        funding_steps(v, quotes, index_prices).idx == v.idx + 1,
        funding_steps(v, quotes, index_prices).rates.len() == v.rates.len() + 1,
        funding_steps(v, quotes, index_prices).prices.len() == v.prices.len() + 1,
        funding_steps(v, quotes, index_prices).sums == seq![0i64, 0i64],
        funding_steps(v, quotes, index_prices).count == 0,
{
    lemma_steps_count(v, quotes.drop_last(), index_prices.drop_last());
}

/// Per-token funding: the running sums of this rate period, the ticks taken
/// in it, and the history of rates and index prices, one entry per funding
/// index.
pub struct FundingState {
    pub running_funding_tick_sums: Vec<i64>,
    pub current_funding_count: u16,
    pub funding_rates: Vec<(i64, i64)>,
    pub funding_prices: Vec<(u64, u64)>,
    pub current_funding_idx: u32,
    pub min_funding_idxs: Vec<u32>,
}

fn premium_exec(impact_bid: u64, impact_ask: u64, index_price: u64) -> (r: i128)
    ensures
        r == premium(impact_bid, impact_ask, index_price),
        -0x1_0000_0000_0000_0000 * 100_000 <= r <= 0x1_0000_0000_0000_0000 * 100_000,
{
    if index_price == 0 {
        return 0;
    }
    let above: u64 = if impact_bid > index_price { impact_bid - index_price } else { 0 };
    let below: u64 = if index_price > impact_ask { index_price - impact_ask } else { 0 };
    if above >= below {
        let num: u128 = (above - below) as u128 * 100_000;
        let q: u128 = num / index_price as u128;
        assert(q <= num) by (nonlinear_arith)
            requires
                q == num / index_price as u128,
                index_price >= 1,
        ;
        q as i128
    } else {
        let num: u128 = (below - above) as u128 * 100_000;
        let q: u128 = num / index_price as u128;
        assert(q <= num) by (nonlinear_arith)
            requires
                q == num / index_price as u128,
                index_price >= 1,
        ;
        -(q as i128)
    }
}

fn tick_exec(sum: i64, impact_bid: u64, impact_ask: u64, index_price: u64) -> (r: i64)
    ensures
        r == tick(sum, impact_bid, impact_ask, index_price),
{
    let x: i128 = sum as i128 + premium_exec(impact_bid, impact_ask, index_price);
    if x > i64::MAX as i128 {
        i64::MAX
    } else if x < i64::MIN as i128 {
        i64::MIN
    } else {
        x as i64
    }
}

fn rate_of(sum: i64) -> (r: i64)
    ensures
        r == trunc_div(sum as int, FUNDING_TICKS_PER_RATE as int),
{
    if sum >= 0 {
        sum / 480
    } else {
        let m: i128 = -(sum as i128);
        -((m / 480) as i64)
    }
}

fn impact_for_exec(quotes: &Vec<(u64, u64, u64)>, token: u64) -> (r: Option<(u64, u64)>)
    ensures
        r == impact_for(quotes@, token),
{
    let mut i: usize = 0;
    assert(quotes@.subrange(0, quotes@.len() as int) =~= quotes@);
    while i < quotes.len()
        invariant
            i <= quotes@.len(),
            impact_for(quotes@, token) == impact_for(quotes@.subrange(i as int, quotes@.len() as int), token),
        decreases quotes@.len() - i,
    {
        let q = quotes[i];
        proof {
            let rest = quotes@.subrange(i as int, quotes@.len() as int);
            assert(rest[0] == q);
            assert(rest.drop_first() =~= quotes@.subrange(i + 1, quotes@.len() as int));
        }
        if q.0 == token {
            return Some((q.1, q.2));
        }
        i = i + 1;
    }
    assert(quotes@.subrange(i as int, quotes@.len() as int) =~= Seq::<(u64, u64, u64)>::empty());
    None
}

impl FundingState {
    pub open spec fn wf(&self) -> bool {
        &&& self.running_funding_tick_sums@.len() == 2
        &&& self.min_funding_idxs@.len() == 2
        &&& self.current_funding_count < FUNDING_TICKS_PER_RATE
        &&& self.funding_rates@.len() == self.funding_prices@.len()
    }

    pub open spec fn view(&self) -> FundingView {
        FundingView {
            sums: self.running_funding_tick_sums@,
            count: self.current_funding_count as int,
            rates: self.funding_rates@,
            prices: self.funding_prices@,
            idx: self.current_funding_idx as int,
        }
    }

    /// No tick taken and no rate yet.
    pub fn new() -> (r: FundingState)
        ensures
            r.wf(),
            r.view() == (FundingView { sums: seq![0i64, 0i64], count: 0, rates: Seq::empty(), prices: Seq::empty(), idx: 0 }),
            r.min_funding_idxs@ == seq![0u32, 0u32],
    {
        let r = FundingState {
            running_funding_tick_sums: vec![0, 0],
            current_funding_count: 0,
            funding_rates: Vec::new(),
            funding_prices: Vec::new(),
            current_funding_idx: 0,
            min_funding_idxs: vec![0, 0],
        };
        assert(r.view().sums =~= seq![0i64, 0i64]);
        assert(r.min_funding_idxs@ =~= seq![0u32, 0u32]);
        assert(r.view().rates =~= Seq::<(i64, i64)>::empty());
        assert(r.view().prices =~= Seq::<(u64, u64)>::empty());
        r
    }

    /// Takes one per-minute tick: adds each quoted token's premium to its
    /// running sum; at the end of a rate period turns the sums into funding
    /// rates, records them with the index prices, and moves to the next
    /// funding index. Returns whether a new rate was made.
    pub fn per_minute_funding_updates(&mut self, funding_update: &FundingUpdateMessage, index_prices: &Vec<u64>) -> (r: bool)
        requires
            old(self).wf(),
            index_prices@.len() == 2,
            old(self).current_funding_idx < u32::MAX,
        ensures
            final(self).wf(),
            final(self).view() == funding_step(old(self).view(), funding_update.impact_prices@, index_prices@),
            final(self).min_funding_idxs@ == old(self).min_funding_idxs@,
            r == (old(self).current_funding_count + 1 == FUNDING_TICKS_PER_RATE),
    {
        let q0 = impact_for_exec(&funding_update.impact_prices, BTC);
        let q1 = impact_for_exec(&funding_update.impact_prices, ETH);
        let s0 = match q0 {
            Some((bid, ask)) => tick_exec(self.running_funding_tick_sums[0], bid, ask, index_prices[0]),
            None => self.running_funding_tick_sums[0],
        };
        let s1 = match q1 {
            Some((bid, ask)) => tick_exec(self.running_funding_tick_sums[1], bid, ask, index_prices[1]),
            None => self.running_funding_tick_sums[1],
        };
        if self.current_funding_count + 1 == FUNDING_TICKS_PER_RATE {
            self.funding_rates.push((rate_of(s0), rate_of(s1)));
            self.funding_prices.push((index_prices[0], index_prices[1]));
            self.current_funding_idx = self.current_funding_idx + 1;
            self.current_funding_count = 0;
            self.running_funding_tick_sums = vec![0, 0];
            assert(self.running_funding_tick_sums@ =~= seq![0i64, 0i64]);
            true
        } else {
            self.current_funding_count = self.current_funding_count + 1;
            self.running_funding_tick_sums = vec![s0, s1];
            assert(self.running_funding_tick_sums@ =~= seq![s0, s1]);
            false
        }
    }

    /// Notes that a position of slot `j` was settled from funding index
    /// `idx` in this batch.
    pub fn note_funding_idx(&mut self, j: usize, idx: u32)
        requires
            old(self).wf(),
            j < 2,
        ensures
            final(self).wf(),
            final(self).view() == old(self).view(),
            final(self).min_funding_idxs@ == old(self).min_funding_idxs@.update(
                j as int,
                if idx < old(self).min_funding_idxs@[j as int] { idx } else { old(self).min_funding_idxs@[j as int] },
            ),
    {
        if idx < self.min_funding_idxs[j] {
            self.min_funding_idxs.set(j, idx);
        }
        assert(self.min_funding_idxs@ =~= old(self).min_funding_idxs@.update(
            j as int,
            if idx < old(self).min_funding_idxs@[j as int] { idx } else { old(self).min_funding_idxs@[j as int] },
        ));
    }

    /// Starts the next batch: every token's least funding index touched is
    /// the current one.
    pub fn reset_min_funding_idxs(&mut self)
        requires
            old(self).wf(),
        ensures
            final(self).wf(),
            final(self).view() == old(self).view(),
            final(self).min_funding_idxs@ == seq![old(self).current_funding_idx, old(self).current_funding_idx],
    {
        self.min_funding_idxs = vec![self.current_funding_idx, self.current_funding_idx];
        assert(self.min_funding_idxs@ =~= seq![old(self).current_funding_idx, old(self).current_funding_idx]);
    }
}

/// The rate of slot `j` in a funding entry.
pub open spec fn rate_at(e: (i64, i64), j: int) -> i64 {
    if j == 0 {
        e.0
    } else {
        e.1
    }
}

/// The price of slot `j` in a funding entry.
pub open spec fn price_at(e: (u64, u64), j: int) -> u64 {
    if j == 0 {
        e.0
    } else {
        e.1
    }
}

/// The first entry of a funding window that starts at index `from`.
pub open spec fn window_start(len: nat, from: u32) -> int {
    if from <= len {
        from as int
    } else {
        len as int
    }
}

/// The rates of slot `j` from funding index `from` on.
pub open spec fn window_rates(rates: Seq<(i64, i64)>, j: int, from: u32) -> Seq<i64> {
    let start = window_start(rates.len(), from);
    Seq::new((rates.len() - start) as nat, |k: int| rate_at(rates[start + k], j))
}

/// The index prices of slot `j` from funding index `from` on.
pub open spec fn window_prices(prices: Seq<(u64, u64)>, j: int, from: u32) -> Seq<u64> {
    let start = window_start(prices.len(), from);
    Seq::new((prices.len() - start) as nat, |k: int| price_at(prices[start + k], j))
}

/// The funding that a perpetual swap settles: the rates and index prices of
/// its token from the earliest funding index of its positions on.
pub struct SwapFundingInfo {
    pub current_funding_idx: u32,
    pub min_swap_funding_idx: u32,
    pub swap_funding_rates: Vec<i64>,
    pub swap_funding_prices: Vec<u64>,
}

/// The earliest funding index of two optional positions, the current one
/// where there is none.
pub open spec fn min_funding_start(current: u32, a: Option<u32>, b: Option<u32>) -> u32 {
    let x = match a {
        Some(i) => if i < current { i } else { current },
        None => current,
    };
    match b {
        Some(i) => if i < x { i } else { x },
        None => x,
    }
}

impl FundingState {
    /// The funding window of slot `j` from the earliest last funding index of
    /// the positions on either side (absent for a position being opened).
    pub fn swap_funding_info(&self, j: usize, last_funding_idx_a: Option<u32>, last_funding_idx_b: Option<u32>) -> (r: SwapFundingInfo)
        requires
            self.wf(),
            j < 2,
        ensures
            r.current_funding_idx == self.current_funding_idx,
            r.min_swap_funding_idx == min_funding_start(self.current_funding_idx, last_funding_idx_a, last_funding_idx_b),
            r.swap_funding_rates@ == window_rates(self.funding_rates@, j as int, r.min_swap_funding_idx),
            r.swap_funding_prices@ == window_prices(self.funding_prices@, j as int, r.min_swap_funding_idx),
    {
        let current = self.current_funding_idx;
        let mut from = current;
        if let Some(i) = last_funding_idx_a {
            if i < from {
                from = i;
            }
        }
        if let Some(i) = last_funding_idx_b {
            if i < from {
                from = i;
            }
        }
        let n = self.funding_rates.len();
        let start: usize = if (from as usize) <= n { from as usize } else { n };
        let mut rates: Vec<i64> = Vec::new();
        let mut prices: Vec<u64> = Vec::new();
        let mut k: usize = start;
        while k < n
            invariant
                start <= k <= n,
                n == self.funding_rates@.len(),
                n == self.funding_prices@.len(),
                rates@ =~= Seq::new((k - start) as nat, |q: int| rate_at(self.funding_rates@[start + q], j as int)),
                prices@ =~= Seq::new((k - start) as nat, |q: int| price_at(self.funding_prices@[start + q], j as int)),
            decreases n - k,
        {
            let e = self.funding_rates[k];
            let p = self.funding_prices[k];
            rates.push(if j == 0 { e.0 } else { e.1 });
            prices.push(if j == 0 { p.0 } else { p.1 });
            k = k + 1;
        }
        SwapFundingInfo { current_funding_idx: current, min_swap_funding_idx: from, swap_funding_rates: rates, swap_funding_prices: prices }
    }
}

} // verus!
