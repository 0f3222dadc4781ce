use vstd::prelude::*;

use crate::hash::FieldElement;
use crate::markets::{OrderSide, BTC, ETH, USDC};

verus! {

/// A signature over an order.
#[derive(Clone, Copy, Debug, PartialEq, Eq, Structural)]
pub struct Signature {
    pub r: FieldElement,
    pub s: FieldElement,
}

/// A spot limit order: an intent to spend one token for another.
#[derive(Clone, Copy, Debug, PartialEq, Eq, Structural)]
pub struct LimitOrder {
    pub order_id: u64,
    pub expiration_timestamp: u64,
    pub token_spent: u64,
    pub token_received: u64,
    pub amount_spent: u64,
    pub amount_received: u64,
    pub fee_limit: u64,
}

/// A perpetual order on a synthetic token, settled in collateral.
#[derive(Clone, Copy, Debug, PartialEq, Eq, Structural)]
pub struct PerpOrder {
    pub order_id: u64,
    pub expiration_timestamp: u64,
    pub order_side: OrderSide,
    pub synthetic_token: u64,
    pub synthetic_amount: u64,
    pub collateral_amount: u64,
    pub fee_limit: u64,
}

/// The order carried by a fill.
#[derive(Clone, Copy, Debug, PartialEq, Eq, Structural)]
pub enum Order {
    Spot(LimitOrder),
    Perp(PerpOrder),
}

/// How an order was placed in the book.
#[derive(Clone, Copy, Debug, PartialEq, Eq, Structural)]
pub enum OrderType {
    Limit,
    Market,
}

/// A successful event of the order book.
#[derive(Clone, Copy, Debug, PartialEq, Eq, Structural)]
pub enum Success {
    Accepted { id: u64, order_type: OrderType, ts: u64 },
    Filled {
        order: Order,
        signature: Signature,
        side: OrderSide,
        order_type: OrderType,
        price: u64,
        qty: u64,
        quote_qty: u64,
        partially_filled: bool,
        ts: u64,
        user_id: u64,
    },
    Cancelled { id: u64, ts: u64 },
    Amended { id: u64, new_price: u64, ts: u64 },
}

/// A failure of the order book, with its context.
#[derive(Clone, Debug)]
pub enum Failed {
    ValidationFailed(String),
    DuplicateOrderID(String),
    NoMatch(String),
    OrderNotFound(String),
    TooMuchSlippage(String),
}

/// One outcome of the order book.
pub type MatchResult = Result<Success, Failed>;

/// Why a sequence of order-book outcomes could not be turned into swaps.
#[derive(Clone, Debug)]
pub enum MatchingEngineError {
    /// No outcome at all.
    InvalidOrDuplicateOrder,
    /// A single outcome that is a fill.
    InvalidMatchingResponse,
    /// A number of outcomes that cannot hold a status and pairs of fills.
    InvalidMatchingResponseLength,
    /// A fill that carries an order of the other market kind.
    InvalidOrderType,
    /// A status where a fill was expected.
    UnexpectedResponse,
    /// A failure reported by the order book.
    OrderBook(Failed),
}

/// A settled spot trade between a buyer (a) and a seller (b).
#[derive(Clone, Copy, Debug, PartialEq, Eq, Structural)]
pub struct Swap {
    pub order_a: LimitOrder,
    pub order_b: LimitOrder,
    pub signature_a: Signature,
    pub signature_b: Signature,
    pub spent_amount_a: u64,
    pub spent_amount_b: u64,
    pub fee_taken_a: u64,
    pub fee_taken_b: u64,
}

/// A settled perpetual trade between a buyer (a) and a seller (b).
#[derive(Clone, Copy, Debug, PartialEq, Eq, Structural)]
pub struct PerpSwap {
    pub order_a: PerpOrder,
    pub order_b: PerpOrder,
    pub signature_a: Option<Signature>,
    pub signature_b: Option<Signature>,
    pub spent_collateral: u64,
    pub spent_synthetic: u64,
    pub fee_taken_a: u64,
    pub fee_taken_b: u64,
}

/// What the spot reducer hands back: the swaps, if the order traded, and the
/// id of the order that entered the book (0 when none did).
pub struct MatchingProcessedResult {
    pub swaps: Option<Vec<(Swap, u64, u64)>>,
    pub new_order_id: u64,
}

/// What the perpetual reducer hands back.
pub struct PerpMatchingProcessedResult {
    pub perp_swaps: Option<Vec<(PerpSwap, u64, u64)>>,
    pub new_order_id: u64,
}

impl View for MatchingProcessedResult {
    type V = (Option<Seq<(Swap, u64, u64)>>, u64);

    open spec fn view(&self) -> Self::V {
        (
            match self.swaps {
                Some(v) => Some(v@),
                None => None,
            },
            self.new_order_id,
        )
    }
}

impl View for PerpMatchingProcessedResult {
    type V = (Option<Seq<(PerpSwap, u64, u64)>>, u64);

    open spec fn view(&self) -> Self::V {
        (
            match self.perp_swaps {
                Some(v) => Some(v@),
                None => None,
            },
            self.new_order_id,
        )
    }
}

/// The spot reducer's result, seen through the view of its swaps.
pub open spec fn spot_result_view(r: Result<MatchingProcessedResult, MatchingEngineError>) -> Result<
    (Option<Seq<(Swap, u64, u64)>>, u64),
    MatchingEngineError,
> {
    match r {
        Ok(p) => Ok(p@),
        Err(e) => Err(e),
    }
}

/// The perpetual reducer's result, seen through the view of its swaps.
pub open spec fn perp_result_view(
    r: Result<PerpMatchingProcessedResult, MatchingEngineError>,
) -> Result<(Option<Seq<(PerpSwap, u64, u64)>>, u64), MatchingEngineError> {
    match r {
        Ok(p) => Ok(p@),
        Err(e) => Err(e),
    }
}

// ---------------------------------------------------------------------------
// Amounts
/// Number of decimals in the smallest unit of a token: nine for the listed
/// base tokens, six for every other token (USDC among them).
pub open spec fn asset_decimals(token: u64) -> nat {
    if token == BTC || token == ETH {
        9
    } else {
        6
    }
}

/// Number of decimals of a price.
pub const PRICE_DECIMALS: u64 = 6;

/// The power of ten that turns `base amount × price` into a quote amount.
pub open spec fn quote_shift(base_token: u64, quote_token: u64) -> nat {
    (asset_decimals(base_token) + PRICE_DECIMALS - asset_decimals(quote_token)) as nat
}

pub open spec fn pow10(e: nat) -> nat
    decreases e,
{
    if e == 0 {
        1
    } else {
        10 * pow10((e - 1) as nat)
    }
}

/// The quote amount that `base_amount` of `base_token` is worth at `price`
/// (quote token per whole base token, with PRICE_DECIMALS decimals), rounded
/// down and capped at the largest `u64`.
pub open spec fn quote_amount(base_token: u64, quote_token: u64, base_amount: u64, price: u64) -> u64 {
    let q = (base_amount * price) / (pow10(quote_shift(base_token, quote_token)) as int);
    if q > u64::MAX {
        u64::MAX
    } else {
        q as u64
    }
}

/// The taker fee on a spent amount: five basis points, rounded down.
pub open spec fn taker_fee(spent: u64) -> u64 {
    spent / 2000
}

fn decimals_of(token: u64) -> (r: u32)
    ensures
        r as nat == asset_decimals(token),
{
    if token == BTC || token == ETH {
        9
    } else {
        6
    }
}

proof fn lemma_pow10_positive(e: nat)
    ensures
        pow10(e) >= 1,
    decreases e,
{
    if e > 0 {
        lemma_pow10_positive((e - 1) as nat);
    }
}

/// The quote amount of a base amount at a price; see `quote_amount`.
pub fn calculate_quote_amount(base_token: u64, quote_token: u64, base_amount: u64, price: u64) -> (r:
    u64)
    ensures
        r == quote_amount(base_token, quote_token, base_amount, price),
{
    let shift: u32 = decimals_of(base_token) + 6 - decimals_of(quote_token);
    let mut divisor: u128 = 1;
    let mut i: u32 = 0;
    while i < shift
        invariant
            i <= shift,
            shift <= 9,
            divisor as nat == pow10(i as nat),
            divisor <= 1_000_000_000,
        decreases shift - i,
    {
        proof {
            assert(pow10((i + 1) as nat) == 10 * pow10(i as nat));
        }
        assert(i + 1 <= 9);
        assert(divisor <= 100_000_000) by {
            lemma_pow10_le(i as nat);
        }
        divisor = divisor * 10;
        i = i + 1;
    }
    assert(shift as nat == quote_shift(base_token, quote_token));
    proof {
        lemma_pow10_positive(shift as nat);
    }
    let a: u128 = base_amount as u128;
    let p: u128 = price as u128;
    assert(a * p <= 0xffff_ffff_ffff_ffffu128 * 0xffff_ffff_ffff_ffffu128) by (nonlinear_arith)
        requires
            a <= 0xffff_ffff_ffff_ffffu128,
            p <= 0xffff_ffff_ffff_ffffu128,
    ;
    let q: u128 = (a * p) / divisor;
    if q > u64::MAX as u128 {
        u64::MAX
    } else {
        q as u64
    }
}

proof fn lemma_pow10_le(i: nat)
    requires
        i < 9,
    ensures
        pow10(i) <= 100_000_000,
{
    reveal_with_fuel(pow10, 10);
}

/// A taker pays a fee on what its counterparty spent; a maker pays none.
fn fee_on(take_fee: bool, counterparty_spent: u64) -> (r: u64)
    ensures
        r == if take_fee {
            taker_fee(counterparty_spent)
        } else {
            0
        },
{
    if take_fee {
        counterparty_spent / 2000
    } else {
        0
    }
}

// ---------------------------------------------------------------------------
// The reducers' model
/// One side of a fill: the order, its signature, what it spent, its owner,
/// and whether it pays the taker fee.
#[derive(Clone, Copy, Debug, PartialEq, Eq, Structural)]
pub struct Leg<O> {
    pub order: O,
    pub signature: Signature,
    pub spent: u64,
    pub user_id: u64,
    pub take_fee: bool,
}

/// The error that a failure of the order book becomes.
pub open spec fn failed_error(f: Failed) -> MatchingEngineError {
    MatchingEngineError::OrderBook(f)
}

/// The new order id of a lone status outcome, or the error it gives.
pub open spec fn single_outcome(r: MatchResult) -> Result<u64, MatchingEngineError> {
    match r {
        Ok(Success::Accepted { id, .. }) => Ok(id),
        Ok(Success::Cancelled { .. }) => Ok(0),
        Ok(Success::Amended { .. }) => Ok(0),
        Ok(Success::Filled { .. }) => Err(MatchingEngineError::InvalidMatchingResponse),
        Err(f) => Err(failed_error(f)),
    }
}

/// The id carried by a leading `Accepted`, else 0.
pub open spec fn accepted_id(r: MatchResult) -> u64 {
    match r {
        Ok(Success::Accepted { id, .. }) => id,
        _ => 0,
    }
}

/// Whether an outcome is a fill of a spot order.
pub open spec fn is_spot_fill(r: MatchResult) -> bool {
    match r {
        Ok(Success::Filled { order: Order::Spot(_), .. }) => true,
        _ => false,
    }
}

/// Whether an outcome is a fill of a perpetual order.
pub open spec fn is_perp_fill(r: MatchResult) -> bool {
    match r {
        Ok(Success::Filled { order: Order::Perp(_), .. }) => true,
        _ => false,
    }
}

/// The error of an outcome that stands where a fill was expected.
pub open spec fn non_fill_error(r: MatchResult) -> MatchingEngineError {
    match r {
        Ok(Success::Filled { .. }) => MatchingEngineError::InvalidOrderType,
        Ok(_) => MatchingEngineError::UnexpectedResponse,
        Err(f) => failed_error(f),
    }
}

/// The side of a fill.
pub open spec fn fill_side(r: MatchResult) -> OrderSide {
    match r {
        Ok(Success::Filled { side, .. }) => side,
        _ => OrderSide::Bid,
    }
}

/// What an outcome is expected to be at some place of a sequence.
pub enum Expected {
    Success,
    SpotFill,
    PerpFill,
}

/// Whether an outcome is what was expected of it.
pub open spec fn meets(e: Expected, r: MatchResult) -> bool {
    match e {
        Expected::Success => r is Ok,
        Expected::SpotFill => is_spot_fill(r),
        Expected::PerpFill => is_perp_fill(r),
    }
}

/// The first index from `k` on whose outcome is not what was expected (the
/// length if none).
pub open spec fn first_unmet(rs: Seq<MatchResult>, k: int, e: Expected) -> int
    decreases rs.len() - k,
{
    if k >= rs.len() {
        rs.len() as int
    } else if meets(e, rs[k]) {
        first_unmet(rs, k + 1, e)
    } else {
        k
    }
}

/// The leg of a spot fill that is the `i`-th fill (from 0) after the status.
/// A seller spends the base quantity; a buyer spends the quote quantity, or,
/// where the book gave none, the base quantity's worth at the fill's price.
/// Fills come as taker, maker, taker, maker, ...
pub open spec fn spot_leg(r: MatchResult, i: int) -> Leg<LimitOrder> {
    match r {
        Ok(Success::Filled { order: Order::Spot(o), signature, side, price, qty, quote_qty, user_id, .. }) => Leg {
            order: o,
            signature,
            spent: if side == OrderSide::Ask {
                qty
            } else if quote_qty > 0 {
                quote_qty
            } else {
                quote_amount(o.token_received, o.token_spent, qty, price)
            },
            user_id,
            take_fee: i % 2 == 0,
        },
        _ => arbitrary(),
    }
}

/// The leg of a perpetual fill; a buyer spends collateral (USDC).
pub open spec fn perp_leg(r: MatchResult, i: int) -> Leg<PerpOrder> {
    match r {
        Ok(Success::Filled { order: Order::Perp(o), signature, side, price, qty, quote_qty, user_id, .. }) => Leg {
            order: o,
            signature,
            spent: if side == OrderSide::Ask {
                qty
            } else if quote_qty > 0 {
                quote_qty
            } else {
                quote_amount(o.synthetic_token, USDC, qty, price)
            },
            user_id,
            take_fee: i % 2 == 0,
        },
        _ => arbitrary(),
    }
}

/// The legs on `side` among the first `n` fills `rs[1..=n]`, in order.
pub open spec fn spot_legs(rs: Seq<MatchResult>, n: int, side: OrderSide) -> Seq<Leg<LimitOrder>>
    decreases n,
{
    if n <= 0 {
        Seq::empty()
    } else if fill_side(rs[n]) == side {
        spot_legs(rs, n - 1, side).push(spot_leg(rs[n], n - 1))
    } else {
        spot_legs(rs, n - 1, side)
    }
}

/// The legs on `side` among the first `n` perpetual fills, in order.
pub open spec fn perp_legs(rs: Seq<MatchResult>, n: int, side: OrderSide) -> Seq<Leg<PerpOrder>>
    decreases n,
{
    if n <= 0 {
        Seq::empty()
    } else if fill_side(rs[n]) == side {
        perp_legs(rs, n - 1, side).push(perp_leg(rs[n], n - 1))
    } else {
        perp_legs(rs, n - 1, side)
    }
}

/// The swap of a buyer leg `a` and a seller leg `b`, with its two users.
pub open spec fn spot_swap_of(a: Leg<LimitOrder>, b: Leg<LimitOrder>) -> (Swap, u64, u64) {
    (
        Swap {
            order_a: a.order,
            order_b: b.order,
            signature_a: a.signature,
            signature_b: b.signature,
            spent_amount_a: a.spent,
            spent_amount_b: b.spent,
            fee_taken_a: if a.take_fee { taker_fee(b.spent) } else { 0 },
            fee_taken_b: if b.take_fee { taker_fee(a.spent) } else { 0 },
        },
        a.user_id,
        b.user_id,
    )
}

/// The perpetual swap of a buyer leg `a` (collateral) and a seller leg `b`
/// (synthetic); both fees are taken on the collateral.
pub open spec fn perp_swap_of(a: Leg<PerpOrder>, b: Leg<PerpOrder>) -> (PerpSwap, u64, u64) {
    (
        PerpSwap {
            order_a: a.order,
            order_b: b.order,
            signature_a: Some(a.signature),
            signature_b: Some(b.signature),
            spent_collateral: a.spent,
            spent_synthetic: b.spent,
            fee_taken_a: if a.take_fee { taker_fee(a.spent) } else { 0 },
            fee_taken_b: if b.take_fee { taker_fee(a.spent) } else { 0 },
        },
        a.user_id,
        b.user_id,
    )
}

pub open spec fn min_len(a: int, b: int) -> int {
    if a <= b { a } else { b }
}

/// The j-th buyer paired with the j-th seller, for as many pairs as both have.
pub open spec fn spot_swaps(bids: Seq<Leg<LimitOrder>>, asks: Seq<Leg<LimitOrder>>) -> Seq<(Swap, u64, u64)> {
    Seq::new(min_len(bids.len() as int, asks.len() as int) as nat, |j: int| spot_swap_of(bids[j], asks[j]))
}

/// The perpetual pairing, as `spot_swaps`.
pub open spec fn perp_swaps(bids: Seq<Leg<PerpOrder>>, asks: Seq<Leg<PerpOrder>>) -> Seq<(PerpSwap, u64, u64)> {
    Seq::new(min_len(bids.len() as int, asks.len() as int) as nat, |j: int| perp_swap_of(bids[j], asks[j]))
}

/// The error of a sequence whose length is even: the first failure in it, or
/// else the length itself.
pub open spec fn even_length_error(rs: Seq<MatchResult>) -> MatchingEngineError {
    let k = first_unmet(rs, 0, Expected::Success);
    if k < rs.len() {
        non_fill_error(rs[k])
    } else {
        MatchingEngineError::InvalidMatchingResponseLength
    }
}

/// What the spot reducer owes for a sequence of order-book outcomes.
pub open spec fn spot_matching_outcome(rs: Seq<MatchResult>) -> Result<(Option<Seq<(Swap, u64, u64)>>, u64), MatchingEngineError> {
    let n = rs.len() as int;
    if n == 0 {
        Err(MatchingEngineError::InvalidOrDuplicateOrder)
    } else if n == 1 {
        match single_outcome(rs[0]) {
            Ok(id) => Ok((None, id)),
            Err(e) => Err(e),
        }
    } else if n % 2 == 0 {
        Err(even_length_error(rs))
    } else if rs[0] is Err {
        Err(non_fill_error(rs[0]))
    } else {
        let k = first_unmet(rs, 1, Expected::SpotFill);
        if k < n {
            Err(non_fill_error(rs[k]))
        } else {
            Ok((Some(spot_swaps(spot_legs(rs, n - 1, OrderSide::Bid), spot_legs(rs, n - 1, OrderSide::Ask))), accepted_id(rs[0])))
        }
    }
}

/// What the perpetual reducer owes; as the spot one.
pub open spec fn perp_matching_outcome(rs: Seq<MatchResult>) -> Result<(Option<Seq<(PerpSwap, u64, u64)>>, u64), MatchingEngineError> {
    let n = rs.len() as int;
    if n == 0 {
        Err(MatchingEngineError::InvalidOrDuplicateOrder)
    } else if n == 1 {
        match single_outcome(rs[0]) {
            Ok(id) => Ok((None, id)),
            Err(e) => Err(e),
        }
    } else if n % 2 == 0 {
        Err(even_length_error(rs))
    } else if rs[0] is Err {
        Err(non_fill_error(rs[0]))
    } else {
        let k = first_unmet(rs, 1, Expected::PerpFill);
        if k < n {
            Err(non_fill_error(rs[k]))
        } else {
            Ok((Some(perp_swaps(perp_legs(rs, n - 1, OrderSide::Bid), perp_legs(rs, n - 1, OrderSide::Ask))), accepted_id(rs[0])))
        }
    }
}

/// Whether a reducer consumes the fills of its input: it does when the input
/// has an odd length above one and does not start with a failure.
pub open spec fn drains_fills(rs: Seq<MatchResult>) -> bool {
    rs.len() >= 3 && rs.len() % 2 == 1 && rs[0] is Ok
}

proof fn lemma_first_unmet_skip(rs: Seq<MatchResult>, lo: int, k: int, p: Expected)
    requires
        0 <= lo <= k <= rs.len(),
        forall|j: int| lo <= j < k ==> #[trigger] meets(p, rs[j]),
    ensures
        first_unmet(rs, lo, p) == first_unmet(rs, k, p),
    decreases k - lo,
{
    if lo < k {
        lemma_first_unmet_skip(rs, lo + 1, k, p);
    }
}

fn handle_error(e: &Failed) -> (r: MatchingEngineError)
    ensures
        r == failed_error(*e),
{
    let f = match e {
        Failed::ValidationFailed(c) => Failed::ValidationFailed(c.clone()),
        Failed::DuplicateOrderID(c) => Failed::DuplicateOrderID(c.clone()),
        Failed::NoMatch(c) => Failed::NoMatch(c.clone()),
        Failed::OrderNotFound(c) => Failed::OrderNotFound(c.clone()),
        Failed::TooMuchSlippage(c) => Failed::TooMuchSlippage(c.clone()),
    };
    MatchingEngineError::OrderBook(f)
}

/// The first failure in `rs`, as an error, if there is one.
fn first_failure(rs: &Vec<MatchResult>) -> (r: Option<MatchingEngineError>)
    ensures
        first_unmet(rs@, 0, Expected::Success) < rs@.len() ==> r == Some(
            non_fill_error(rs@[first_unmet(rs@, 0, Expected::Success)]),
        ),
        first_unmet(rs@, 0, Expected::Success) >= rs@.len() ==> r is None,
{
    let mut i: usize = 0;
    while i < rs.len()
        invariant
            i <= rs@.len(),
            forall|j: int| 0 <= j < i ==> #[trigger] meets(Expected::Success, rs@[j]),
        decreases rs@.len() - i,
    {
        if let Err(e) = &rs[i] {
            proof {
                lemma_first_unmet_skip(rs@, 0, i as int, Expected::Success);
            }
            return Some(handle_error(e));
        }
        i = i + 1;
    }
    proof {
        lemma_first_unmet_skip(rs@, 0, i as int, Expected::Success);
    }
    None
}

/// Turns the outcomes that the order book gave for one spot order into
/// swaps. A lone status gives no swaps and the id of an accepted order; a
/// status followed by pairs of fills gives one swap per buyer and seller, the
/// taker of each pair paying five basis points of what its counterparty spent.
/// The fills are taken out of `results_vec`, which keeps its status.
pub fn proccess_spot_matching_result(results_vec: &mut Vec<MatchResult>) -> (r: Result<
    MatchingProcessedResult,
    MatchingEngineError,
>)
    ensures
        spot_result_view(r) == spot_matching_outcome(old(results_vec)@),
        drains_fills(old(results_vec)@) ==> final(results_vec)@ == old(results_vec)@.subrange(0, 1),
        !drains_fills(old(results_vec)@) ==> final(results_vec)@ == old(results_vec)@,
{
    let ghost rs = results_vec@;
    let n = results_vec.len();
    if n == 0 {
        return Err(MatchingEngineError::InvalidOrDuplicateOrder);
    } else if n == 1 {
        return match &results_vec[0] {
            Ok(Success::Accepted { id, .. }) => Ok(MatchingProcessedResult { swaps: None, new_order_id: *id }),
            Ok(Success::Cancelled { .. }) => Ok(MatchingProcessedResult { swaps: None, new_order_id: 0 }),
            Ok(Success::Amended { .. }) => Ok(MatchingProcessedResult { swaps: None, new_order_id: 0 }),
            Ok(Success::Filled { .. }) => Err(MatchingEngineError::InvalidMatchingResponse),
            Err(e) => Err(handle_error(e)),
        };
    } else if n % 2 == 0 {
        return match first_failure(results_vec) {
            Some(e) => Err(e),
            None => Err(MatchingEngineError::InvalidMatchingResponseLength),
        };
    }
    let mut new_order_id: u64 = 0;
    match &results_vec[0] {
        Ok(Success::Accepted { id, .. }) => {
            new_order_id = *id;
        },
        Ok(_) => {},
        Err(e) => {
            return Err(handle_error(e));
        },
    }
    let fills = results_vec.split_off(1);
    assert(fills@.len() == n - 1);
    let mut a_orders: Vec<Leg<LimitOrder>> = Vec::new();
    let mut b_orders: Vec<Leg<LimitOrder>> = Vec::new();
    let mut i: usize = 0;
    while i < fills.len()
        invariant
            rs == old(results_vec)@,
            n == rs.len(),
            n >= 3,
            n % 2 == 1,
            rs[0] is Ok,
            new_order_id == accepted_id(rs[0]),
            results_vec@ == rs.subrange(0, 1),
            fills@ == rs.subrange(1, n as int),
            fills@.len() == n - 1,
            i <= fills@.len(),
            forall|j: int| 1 <= j < i + 1 ==> #[trigger] meets(Expected::SpotFill, rs[j]),
            a_orders@ == spot_legs(rs, i as int, OrderSide::Bid),
            b_orders@ == spot_legs(rs, i as int, OrderSide::Ask),
        decreases fills@.len() - i,
    {
        assert(fills@[i as int] == rs[i + 1]);
        match &fills[i] {
            Ok(Success::Filled { order, signature, side, price, qty, quote_qty, user_id, .. }) => {
                match order {
                    Order::Spot(lim_order) => {
                        let take_fee = i % 2 == 0;
                        if *side == OrderSide::Ask {
                            b_orders.push(Leg { order: *lim_order, signature: *signature, spent: *qty, user_id: *user_id, take_fee });
                        } else {
                            let spent = if *quote_qty > 0 {
                                *quote_qty
                            } else {
                                calculate_quote_amount(lim_order.token_received, lim_order.token_spent, *qty, *price)
                            };
                            a_orders.push(Leg { order: *lim_order, signature: *signature, spent, user_id: *user_id, take_fee });
                        }
                    },
                    Order::Perp(_) => {
                        proof {
                            lemma_first_unmet_skip(rs, 1, i + 1, Expected::SpotFill);
                        }
                        return Err(MatchingEngineError::InvalidOrderType);
                    },
                }
            },
            Ok(_) => {
                proof {
                    lemma_first_unmet_skip(rs, 1, i + 1, Expected::SpotFill);
                }
                return Err(MatchingEngineError::UnexpectedResponse);
            },
            Err(e) => {
                proof {
                    lemma_first_unmet_skip(rs, 1, i + 1, Expected::SpotFill);
                }
                return Err(handle_error(e));
            },
        }
        i = i + 1;
    }
    proof {
        lemma_first_unmet_skip(rs, 1, n as int, Expected::SpotFill);
    }
    let mut swaps: Vec<(Swap, u64, u64)> = Vec::new();
    let m = if a_orders.len() <= b_orders.len() { a_orders.len() } else { b_orders.len() };
    let mut j: usize = 0;
    while j < m
        invariant
            j <= m,
            m == min_len(a_orders@.len() as int, b_orders@.len() as int),
            swaps@ =~= spot_swaps(a_orders@, b_orders@).subrange(0, j as int),
        decreases m - j,
    {
        let a = a_orders[j];
        let b = b_orders[j];
        let swap = Swap {
            order_a: a.order,
            order_b: b.order,
            signature_a: a.signature,
            signature_b: b.signature,
            spent_amount_a: a.spent,
            spent_amount_b: b.spent,
            fee_taken_a: fee_on(a.take_fee, b.spent),
            fee_taken_b: fee_on(b.take_fee, a.spent),
        };
        swaps.push((swap, a.user_id, b.user_id));
        j = j + 1;
    }
    assert(swaps@ =~= spot_swaps(a_orders@, b_orders@));
    Ok(MatchingProcessedResult { swaps: Some(swaps), new_order_id })
}

/// Turns the outcomes that the order book gave for one perpetual order into
/// perpetual swaps, as the spot reducer does; both fees of a pair are taken
/// on the collateral that the buyer spent.
pub fn proccess_perp_matching_result(results_vec: &mut Vec<MatchResult>) -> (r: Result<
    PerpMatchingProcessedResult,
    MatchingEngineError,
>)
    ensures
        perp_result_view(r) == perp_matching_outcome(old(results_vec)@),
        drains_fills(old(results_vec)@) ==> final(results_vec)@ == old(results_vec)@.subrange(0, 1),
        !drains_fills(old(results_vec)@) ==> final(results_vec)@ == old(results_vec)@,
{
    let ghost rs = results_vec@;
    let n = results_vec.len();
    if n == 0 {
        return Err(MatchingEngineError::InvalidOrDuplicateOrder);
    } else if n == 1 {
        return match &results_vec[0] {
            Ok(Success::Accepted { id, .. }) => Ok(PerpMatchingProcessedResult { perp_swaps: None, new_order_id: *id }),
            Ok(Success::Cancelled { .. }) => Ok(PerpMatchingProcessedResult { perp_swaps: None, new_order_id: 0 }),
            Ok(Success::Amended { .. }) => Ok(PerpMatchingProcessedResult { perp_swaps: None, new_order_id: 0 }),
            Ok(Success::Filled { .. }) => Err(MatchingEngineError::InvalidMatchingResponse),
            Err(e) => Err(handle_error(e)),
        };
    } else if n % 2 == 0 {
        return match first_failure(results_vec) {
            Some(e) => Err(e),
            None => Err(MatchingEngineError::InvalidMatchingResponseLength),
        };
    }
    let mut new_order_id: u64 = 0;
    match &results_vec[0] {
        Ok(Success::Accepted { id, .. }) => {
            new_order_id = *id;
        },
        Ok(_) => {},
        Err(e) => {
            return Err(handle_error(e));
        },
    }
    let fills = results_vec.split_off(1);
    assert(fills@.len() == n - 1);
    let mut a_orders: Vec<Leg<PerpOrder>> = Vec::new();
    let mut b_orders: Vec<Leg<PerpOrder>> = Vec::new();
    let mut i: usize = 0;
    while i < fills.len()
        invariant
            rs == old(results_vec)@,
            n == rs.len(),
            n >= 3,
            n % 2 == 1,
            rs[0] is Ok,
            new_order_id == accepted_id(rs[0]),
            results_vec@ == rs.subrange(0, 1),
            fills@ == rs.subrange(1, n as int),
            fills@.len() == n - 1,
            i <= fills@.len(),
            forall|j: int| 1 <= j < i + 1 ==> #[trigger] meets(Expected::PerpFill, rs[j]),
            a_orders@ == perp_legs(rs, i as int, OrderSide::Bid),
            b_orders@ == perp_legs(rs, i as int, OrderSide::Ask),
        decreases fills@.len() - i,
    {
        assert(fills@[i as int] == rs[i + 1]);
        match &fills[i] {
            Ok(Success::Filled { order, signature, side, price, qty, quote_qty, user_id, .. }) => {
                match order {
                    Order::Perp(perp_order) => {
                        let take_fee = i % 2 == 0;
                        if *side == OrderSide::Ask {
                            b_orders.push(Leg { order: *perp_order, signature: *signature, spent: *qty, user_id: *user_id, take_fee });
                        } else {
                            let spent = if *quote_qty > 0 {
                                *quote_qty
                            } else {
                                calculate_quote_amount(perp_order.synthetic_token, USDC, *qty, *price)
                            };
                            a_orders.push(Leg { order: *perp_order, signature: *signature, spent, user_id: *user_id, take_fee });
                        }
                    },
                    Order::Spot(_) => {
                        proof {
                            lemma_first_unmet_skip(rs, 1, i + 1, Expected::PerpFill);
                        }
                        return Err(MatchingEngineError::InvalidOrderType);
                    },
                }
            },
            Ok(_) => {
                proof {
                    lemma_first_unmet_skip(rs, 1, i + 1, Expected::PerpFill);
                }
                return Err(MatchingEngineError::UnexpectedResponse);
            },
            Err(e) => {
                proof {
                    lemma_first_unmet_skip(rs, 1, i + 1, Expected::PerpFill);
                }
                return Err(handle_error(e));
            },
        }
        i = i + 1;
    }
    proof {
        lemma_first_unmet_skip(rs, 1, n as int, Expected::PerpFill);
    }
    let mut swaps: Vec<(PerpSwap, u64, u64)> = Vec::new();
    let m = if a_orders.len() <= b_orders.len() { a_orders.len() } else { b_orders.len() };
    let mut j: usize = 0;
    while j < m
        invariant
            j <= m,
            m == min_len(a_orders@.len() as int, b_orders@.len() as int),
            swaps@ =~= perp_swaps(a_orders@, b_orders@).subrange(0, j as int),
        decreases m - j,
    {
        let a = a_orders[j];
        let b = b_orders[j];
        let swap = PerpSwap {
            order_a: a.order,
            order_b: b.order,
            signature_a: Some(a.signature),
            signature_b: Some(b.signature),
            spent_collateral: a.spent,
            spent_synthetic: b.spent,
            fee_taken_a: fee_on(a.take_fee, a.spent),
            fee_taken_b: fee_on(b.take_fee, a.spent),
        };
        swaps.push((swap, a.user_id, b.user_id));
        j = j + 1;
    }
    assert(swaps@ =~= perp_swaps(a_orders@, b_orders@));
    Ok(PerpMatchingProcessedResult { perp_swaps: Some(swaps), new_order_id })
}

// ---------------------------------------------------------------------------
// Laws of the reducers
/// Whether each pair of fills after the status joins a buyer and a seller.
pub open spec fn pairs_alternate(rs: Seq<MatchResult>) -> bool {
    forall|k: int| 0 <= k < (rs.len() - 1) / 2 ==> #[trigger] fill_side(rs[2 * k + 1]) != fill_side(rs[2 * k + 2])
}

/// A lone `Accepted` gives no swaps and its own id, in both reducers; and
/// whenever a reducer gives swaps, its input had an odd length of at least
/// three.
pub proof fn lemma_reducer_shape(rs: Seq<MatchResult>)
    ensures
        rs.len() == 1 && rs[0] is Ok && rs[0]->Ok_0 is Accepted ==> spot_matching_outcome(rs) == Ok::<
            (Option<Seq<(Swap, u64, u64)>>, u64),
            MatchingEngineError,
        >((None, accepted_id(rs[0]))) && perp_matching_outcome(rs) == Ok::<
            (Option<Seq<(PerpSwap, u64, u64)>>, u64),
            MatchingEngineError,
        >((None, accepted_id(rs[0]))),
        spot_matching_outcome(rs) is Ok && spot_matching_outcome(rs)->Ok_0.0 is Some ==> rs.len() >= 3
            && rs.len() % 2 == 1,
        perp_matching_outcome(rs) is Ok && perp_matching_outcome(rs)->Ok_0.0 is Some ==> rs.len() >= 3
            && rs.len() % 2 == 1,
{
}

proof fn lemma_spot_pairs(rs: Seq<MatchResult>, k: int)
    requires
        rs.len() >= 3,
        rs.len() % 2 == 1,
        0 <= k <= (rs.len() - 1) / 2,
        forall|j: int| 1 <= j < rs.len() ==> #[trigger] is_spot_fill(rs[j]),
        pairs_alternate(rs),
    ensures
        spot_legs(rs, 2 * k, OrderSide::Bid).len() == k,
        spot_legs(rs, 2 * k, OrderSide::Ask).len() == k,
        forall|j: int| 0 <= j < k ==> #[trigger] spot_legs(rs, 2 * k, OrderSide::Bid)[j].take_fee != spot_legs(rs, 2 * k, OrderSide::Ask)[j].take_fee,
    decreases k,
{
    if k > 0 {
        lemma_spot_pairs(rs, k - 1);
        assert(fill_side(rs[2 * (k - 1) + 1]) != fill_side(rs[2 * (k - 1) + 2]));
        assert(is_spot_fill(rs[2 * k - 1]));
        assert(is_spot_fill(rs[2 * k]));
        assert((2 * k - 2) % 2 == 0);
        assert((2 * k - 1) % 2 == 1);
        assert(spot_legs(rs, 2 * k - 1, OrderSide::Bid) == (if fill_side(rs[2 * k - 1]) == OrderSide::Bid {
            spot_legs(rs, 2 * k - 2, OrderSide::Bid).push(spot_leg(rs[2 * k - 1], 2 * k - 2))
        } else {
            spot_legs(rs, 2 * k - 2, OrderSide::Bid)
        }));
        assert(spot_legs(rs, 2 * k - 1, OrderSide::Ask) == (if fill_side(rs[2 * k - 1]) == OrderSide::Ask {
            spot_legs(rs, 2 * k - 2, OrderSide::Ask).push(spot_leg(rs[2 * k - 1], 2 * k - 2))
        } else {
            spot_legs(rs, 2 * k - 2, OrderSide::Ask)
        }));
    }
}

proof fn lemma_perp_pairs(rs: Seq<MatchResult>, k: int)
    requires
        rs.len() >= 3,
        rs.len() % 2 == 1,
        0 <= k <= (rs.len() - 1) / 2,
        forall|j: int| 1 <= j < rs.len() ==> #[trigger] is_perp_fill(rs[j]),
        pairs_alternate(rs),
    ensures
        perp_legs(rs, 2 * k, OrderSide::Bid).len() == k,
        perp_legs(rs, 2 * k, OrderSide::Ask).len() == k,
        forall|j: int| 0 <= j < k ==> #[trigger] perp_legs(rs, 2 * k, OrderSide::Bid)[j].take_fee != perp_legs(rs, 2 * k, OrderSide::Ask)[j].take_fee,
    decreases k,
{
    if k > 0 {
        lemma_perp_pairs(rs, k - 1);
        assert(fill_side(rs[2 * (k - 1) + 1]) != fill_side(rs[2 * (k - 1) + 2]));
        assert(is_perp_fill(rs[2 * k - 1]));
        assert(is_perp_fill(rs[2 * k]));
        assert((2 * k - 2) % 2 == 0);
        assert((2 * k - 1) % 2 == 1);
        assert(perp_legs(rs, 2 * k - 1, OrderSide::Bid) == (if fill_side(rs[2 * k - 1]) == OrderSide::Bid {
            perp_legs(rs, 2 * k - 2, OrderSide::Bid).push(perp_leg(rs[2 * k - 1], 2 * k - 2))
        } else {
            perp_legs(rs, 2 * k - 2, OrderSide::Bid)
        }));
        assert(perp_legs(rs, 2 * k - 1, OrderSide::Ask) == (if fill_side(rs[2 * k - 1]) == OrderSide::Ask {
            perp_legs(rs, 2 * k - 2, OrderSide::Ask).push(perp_leg(rs[2 * k - 1], 2 * k - 2))
        } else {
            perp_legs(rs, 2 * k - 2, OrderSide::Ask)
        }));
    }
}

/// Where the fills come in buyer/seller pairs, each pair gives one spot swap,
/// in which exactly one side is the taker: the taker pays five basis points
/// of what its counterparty spent, the maker pays nothing.
pub proof fn lemma_spot_fee_law(rs: Seq<MatchResult>)
    requires
        rs.len() >= 3,
        rs.len() % 2 == 1,
        rs[0] is Ok,
        forall|j: int| 1 <= j < rs.len() ==> #[trigger] is_spot_fill(rs[j]),
        pairs_alternate(rs),
    ensures
        spot_matching_outcome(rs) is Ok,
        spot_matching_outcome(rs)->Ok_0.0 is Some,
        ({
            let sw = spot_matching_outcome(rs)->Ok_0.0->0;
            &&& sw.len() == (rs.len() - 1) / 2
            &&& forall|j: int| 0 <= j < sw.len() ==> {
                let s = (#[trigger] sw[j]).0;
                ||| (s.fee_taken_a == taker_fee(s.spent_amount_b) && s.fee_taken_b == 0
                    && spot_legs(rs, rs.len() - 1, OrderSide::Bid)[j].take_fee
                    && !spot_legs(rs, rs.len() - 1, OrderSide::Ask)[j].take_fee)
                ||| (s.fee_taken_b == taker_fee(s.spent_amount_a) && s.fee_taken_a == 0
                    && !spot_legs(rs, rs.len() - 1, OrderSide::Bid)[j].take_fee
                    && spot_legs(rs, rs.len() - 1, OrderSide::Ask)[j].take_fee)
            }
        }),
{
    let n = rs.len() as int;
    lemma_first_unmet_skip(rs, 1, n, Expected::SpotFill);
    lemma_spot_pairs(rs, (n - 1) / 2);
    assert(2 * ((n - 1) / 2) == n - 1);
}

/// Where the fills come in buyer/seller pairs, each pair gives one perpetual
/// swap, in which exactly one side is the taker: the taker pays five basis
/// points of the collateral spent, the maker pays nothing.
pub proof fn lemma_perp_fee_law(rs: Seq<MatchResult>)
    requires
        rs.len() >= 3,
        rs.len() % 2 == 1,
        rs[0] is Ok,
        forall|j: int| 1 <= j < rs.len() ==> #[trigger] is_perp_fill(rs[j]),
        pairs_alternate(rs),
    ensures
        perp_matching_outcome(rs) is Ok,
        perp_matching_outcome(rs)->Ok_0.0 is Some,
        ({
            let sw = perp_matching_outcome(rs)->Ok_0.0->0;
            &&& sw.len() == (rs.len() - 1) / 2
            &&& forall|j: int| 0 <= j < sw.len() ==> {
                let s = (#[trigger] sw[j]).0;
                ||| (s.fee_taken_a == taker_fee(s.spent_collateral) && s.fee_taken_b == 0
                    && perp_legs(rs, rs.len() - 1, OrderSide::Bid)[j].take_fee
                    && !perp_legs(rs, rs.len() - 1, OrderSide::Ask)[j].take_fee)
                ||| (s.fee_taken_b == taker_fee(s.spent_collateral) && s.fee_taken_a == 0
                    && !perp_legs(rs, rs.len() - 1, OrderSide::Bid)[j].take_fee
                    && perp_legs(rs, rs.len() - 1, OrderSide::Ask)[j].take_fee)
            }
        }),
{
    let n = rs.len() as int;
    lemma_first_unmet_skip(rs, 1, n, Expected::PerpFill);
    lemma_perp_pairs(rs, (n - 1) / 2);
    assert(2 * ((n - 1) / 2) == n - 1);
}

} // verus!
