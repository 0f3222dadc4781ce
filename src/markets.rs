use vstd::prelude::*;

verus! {

/// Token id of bitcoin.
pub const BTC: u64 = 12345;

/// Token id of ether.
pub const ETH: u64 = 54321;

/// Token id of USDC, the single quote and collateral token.
pub const USDC: u64 = 55555;

/// The side of an order in a book: a bid buys the base asset, an ask sells it.
#[derive(Clone, Copy, Debug, PartialEq, Eq, Structural)]
pub enum OrderSide {
    Bid,
    Ask,
}

/// The spot market of a base token, if it has one.
pub open spec fn spot_market_of(token: u64) -> Option<u16> {
    if token == BTC {
        Some(11u16)
    } else if token == ETH {
        Some(12u16)
    } else {
        None
    }
}

/// The perpetual market of a synthetic token, if it has one.
pub open spec fn perp_market_of(token: u64) -> Option<u16> {
    if token == BTC {
        Some(21u16)
    } else if token == ETH {
        Some(22u16)
    } else {
        None
    }
}

/// Looks up the spot market id of a base token.
pub fn spot_market_id(token: u64) -> (r: Option<u16>)
    ensures
        r == spot_market_of(token),
{
    if token == BTC {
        Some(11)
    } else if token == ETH {
        Some(12)
    } else {
        None
    }
}

/// Looks up the perpetual market id of a synthetic token.
pub fn perp_market_id(token: u64) -> (r: Option<u16>)
    ensures
        r == perp_market_of(token),
{
    if token == BTC {
        Some(21)
    } else if token == ETH {
        Some(22)
    } else {
        None
    }
}

/// The market and side of a spot order: selling a listed base token is an ask
/// in its market; otherwise buying one is a bid in its market.
pub fn get_market_id_and_order_side(token_spent: u64, token_received: u64) -> (r: Option<(u16, OrderSide)>)
    ensures
        spot_market_of(token_spent) is Some ==> r == Some((spot_market_of(token_spent)->0, OrderSide::Ask)),
        spot_market_of(token_spent) is None && spot_market_of(token_received) is Some ==> r == Some(
            (spot_market_of(token_received)->0, OrderSide::Bid),
        ),
        spot_market_of(token_spent) is None && spot_market_of(token_received) is None ==> r is None,
{
    if let Some(m_id) = spot_market_id(token_spent) {
        return Some((m_id, OrderSide::Ask));
    }
    if let Some(m_id) = spot_market_id(token_received) {
        return Some((m_id, OrderSide::Bid));
    }
    None
}

/// The identity of an order book: the asset it trades, the asset it prices
/// in, and its market id.
#[derive(Clone, Copy, Debug, PartialEq, Eq, Structural)]
pub struct OrderBook {
    pub order_asset: u64,
    pub price_asset: u64,
    pub market_id: u16,
}

impl OrderBook {
    pub fn new(order_asset: u64, price_asset: u64, market_id: u16) -> (r: OrderBook)
        ensures
            r == (OrderBook { order_asset, price_asset, market_id }),
    {
        OrderBook { order_asset, price_asset, market_id }
    }
}

/// The side an order takes in a book: spending the book's asset for its price
/// asset is an ask, the reverse a bid, anything else does not belong there.
pub fn get_order_side(order_book: &OrderBook, token_spent: u64, token_received: u64) -> (r: Option<OrderSide>)
    ensures
        r == (if order_book.order_asset == token_spent && order_book.price_asset == token_received {
            Some(OrderSide::Ask)
        } else if order_book.order_asset == token_received && order_book.price_asset == token_spent {
            Some(OrderSide::Bid)
        } else {
            None
        }),
{
    if order_book.order_asset == token_spent && order_book.price_asset == token_received {
        Some(OrderSide::Ask)
    } else if order_book.order_asset == token_received && order_book.price_asset == token_spent {
        Some(OrderSide::Bid)
    } else {
        None
    }
}

/// The books of the exchange: a spot and a perpetual book against USDC for
/// each listed token, in the order BTC, ETH.
pub fn init_order_books() -> (r: (Vec<OrderBook>, Vec<OrderBook>))
    ensures
        r.0@ == seq![OrderBook { order_asset: BTC, price_asset: USDC, market_id: 11 }, OrderBook { order_asset: ETH, price_asset: USDC, market_id: 12 }],
        r.1@ == seq![OrderBook { order_asset: BTC, price_asset: USDC, market_id: 21 }, OrderBook { order_asset: ETH, price_asset: USDC, market_id: 22 }],
{
    let mut spot_order_books: Vec<OrderBook> = Vec::new();
    let mut perp_order_books: Vec<OrderBook> = Vec::new();
    let tokens: [u64; 2] = [BTC, ETH];
    let mut i: usize = 0;
    while i < 2
        invariant
            tokens@ == seq![BTC, ETH],
            i <= 2,
            spot_order_books@.len() == i,
            perp_order_books@.len() == i,
            forall|j: int| 0 <= j < i ==> #[trigger] spot_order_books@[j] == (OrderBook { order_asset: tokens@[j], price_asset: USDC, market_id: spot_market_of(tokens@[j])->0 }),
            forall|j: int| 0 <= j < i ==> #[trigger] perp_order_books@[j] == (OrderBook { order_asset: tokens@[j], price_asset: USDC, market_id: perp_market_of(tokens@[j])->0 }),
        decreases 2 - i,
    {
        let token = tokens[i];
        if let (Some(spot_id), Some(perp_id)) = (spot_market_id(token), perp_market_id(token)) {
            spot_order_books.push(OrderBook::new(token, USDC, spot_id));
            perp_order_books.push(OrderBook::new(token, USDC, perp_id));
        }
        i = i + 1;
    }
    assert(spot_order_books@ =~= seq![OrderBook { order_asset: BTC, price_asset: USDC, market_id: 11 }, OrderBook { order_asset: ETH, price_asset: USDC, market_id: 12 }]);
    assert(perp_order_books@ =~= seq![OrderBook { order_asset: BTC, price_asset: USDC, market_id: 21 }, OrderBook { order_asset: ETH, price_asset: USDC, market_id: 22 }]);
    (spot_order_books, perp_order_books)
}

} // verus!
