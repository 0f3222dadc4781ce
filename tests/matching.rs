use invisible_backend::hash::FieldElement;
use invisible_backend::markets::{
    get_market_id_and_order_side, get_order_side, init_order_books, OrderBook, OrderSide, BTC, ETH,
    USDC,
};
use invisible_backend::matching::{
    calculate_quote_amount, proccess_perp_matching_result, proccess_spot_matching_result, Failed,
    LimitOrder, MatchResult, MatchingEngineError, Order, OrderType, PerpOrder, Signature, Success,
};

fn sig(v: u64) -> Signature {
    Signature { r: FieldElement::from_u64(v), s: FieldElement::from_u64(v + 1) }
}

fn spot_order(id: u64, spent: u64, received: u64) -> LimitOrder {
    LimitOrder {
        order_id: id,
        expiration_timestamp: 1000,
        token_spent: spent,
        token_received: received,
        amount_spent: 0,
        amount_received: 0,
        fee_limit: 0,
    }
}

fn perp_order(id: u64, side: OrderSide) -> PerpOrder {
    PerpOrder {
        order_id: id,
        expiration_timestamp: 1000,
        order_side: side,
        synthetic_token: BTC,
        synthetic_amount: 0,
        collateral_amount: 0,
        fee_limit: 0,
    }
}

fn filled(order: Order, side: OrderSide, price: u64, qty: u64, quote_qty: u64, user_id: u64) -> MatchResult {
    Ok(Success::Filled {
        order,
        signature: sig(user_id),
        side,
        order_type: OrderType::Limit,
        price,
        qty,
        quote_qty,
        partially_filled: false,
        ts: 0,
        user_id,
    })
}

fn accepted(id: u64) -> MatchResult {
    Ok(Success::Accepted { id, order_type: OrderType::Limit, ts: 0 })
}

#[test]
fn market_id_and_side() {
    assert_eq!(get_market_id_and_order_side(BTC, USDC), Some((11, OrderSide::Ask)));
    assert_eq!(get_market_id_and_order_side(USDC, ETH), Some((12, OrderSide::Bid)));
    assert_eq!(get_market_id_and_order_side(ETH, BTC), Some((12, OrderSide::Ask)));
    assert_eq!(get_market_id_and_order_side(USDC, USDC), None);
}

#[test]
fn order_side_in_book() {
    let book = OrderBook::new(BTC, USDC, 11);
    assert_eq!(get_order_side(&book, BTC, USDC), Some(OrderSide::Ask));
    assert_eq!(get_order_side(&book, USDC, BTC), Some(OrderSide::Bid));
    assert_eq!(get_order_side(&book, ETH, USDC), None);
}

#[test]
fn order_books_of_the_exchange() {
    let (spot, perp) = init_order_books();
    assert_eq!(spot.iter().map(|b| b.market_id).collect::<Vec<_>>(), vec![11, 12]);
    assert_eq!(perp.iter().map(|b| b.market_id).collect::<Vec<_>>(), vec![21, 22]);
    assert!(spot.iter().chain(perp.iter()).all(|b| b.price_asset == USDC));
    assert_eq!(spot[0].order_asset, BTC);
    assert_eq!(perp[1].order_asset, ETH);
}

#[test]
fn quote_amount_of_one_btc() {
    // 1 BTC (nine decimals) at 10 000 USDC (six price decimals) is 10 000 USDC (six decimals)
    assert_eq!(calculate_quote_amount(BTC, USDC, 1_000_000_000, 10_000_000_000), 10_000_000_000);
    // rounded down
    assert_eq!(calculate_quote_amount(BTC, USDC, 1, 999_999_999), 0);
    // capped at the largest u64
    assert_eq!(calculate_quote_amount(USDC, BTC, u64::MAX, u64::MAX), u64::MAX);
}

#[test]
fn spot_swap_from_three_outcomes() {
    let mut rs = vec![
        accepted(42),
        filled(Order::Spot(spot_order(7, BTC, USDC)), OrderSide::Ask, 10_000_000_000, 1_000_000, 0, 1),
        filled(
            Order::Spot(spot_order(42, USDC, BTC)),
            OrderSide::Bid,
            10_000_000_000,
            1_000_000,
            10_000_000_000,
            2,
        ),
    ];
    let r = proccess_spot_matching_result(&mut rs).unwrap();
    assert_eq!(r.new_order_id, 42);
    let swaps = r.swaps.unwrap();
    assert_eq!(swaps.len(), 1);
    let (swap, user_a, user_b) = swaps[0];
    assert_eq!((user_a, user_b), (2, 1));
    assert_eq!(swap.spent_amount_a, 10_000_000_000);
    assert_eq!(swap.spent_amount_b, 1_000_000);
    // the ask came first and is the taker: it pays 5 bps of what the buyer spent
    assert_eq!(swap.fee_taken_b, 5_000_000);
    assert_eq!(swap.fee_taken_a, 0);
    assert_eq!(swap.order_a.order_id, 42);
    assert_eq!(swap.order_b.order_id, 7);
    assert_eq!(rs.len(), 1);
}

#[test]
fn spot_buyer_spend_from_price() {
    let mut rs = vec![
        accepted(5),
        filled(Order::Spot(spot_order(5, USDC, BTC)), OrderSide::Bid, 20_000_000_000, 500_000_000, 0, 3),
        filled(Order::Spot(spot_order(6, BTC, USDC)), OrderSide::Ask, 20_000_000_000, 500_000_000, 0, 4),
    ];
    let swaps = proccess_spot_matching_result(&mut rs).unwrap().swaps.unwrap();
    // half a BTC at 20 000 USDC
    assert_eq!(swaps[0].0.spent_amount_a, 10_000_000_000);
    // the bid is the taker here
    assert_eq!(swaps[0].0.fee_taken_a, 500_000_000 / 2000);
    assert_eq!(swaps[0].0.fee_taken_b, 0);
}

#[test]
fn even_length_is_refused() {
    let mut rs = vec![
        accepted(7),
        filled(Order::Spot(spot_order(7, BTC, USDC)), OrderSide::Ask, 1, 1, 1, 1),
    ];
    assert!(matches!(
        proccess_spot_matching_result(&mut rs),
        Err(MatchingEngineError::InvalidMatchingResponseLength)
    ));
    assert_eq!(rs.len(), 2);
}

#[test]
fn even_length_reports_a_failure_first() {
    let mut rs = vec![accepted(7), Err(Failed::NoMatch("none".to_string()))];
    match proccess_spot_matching_result(&mut rs) {
        Err(MatchingEngineError::OrderBook(Failed::NoMatch(c))) => assert_eq!(c, "none"),
        _ => panic!("expected the order book's failure"),
    }
}

#[test]
fn empty_outcomes_are_refused() {
    let mut rs: Vec<MatchResult> = vec![];
    assert!(matches!(
        proccess_spot_matching_result(&mut rs),
        Err(MatchingEngineError::InvalidOrDuplicateOrder)
    ));
    assert!(matches!(
        proccess_perp_matching_result(&mut rs),
        Err(MatchingEngineError::InvalidOrDuplicateOrder)
    ));
}

#[test]
fn lone_statuses() {
    let mut rs = vec![accepted(9)];
    let r = proccess_spot_matching_result(&mut rs).unwrap();
    assert!(r.swaps.is_none());
    assert_eq!(r.new_order_id, 9);
    let mut rs = vec![Ok(Success::Cancelled { id: 9, ts: 0 })];
    let r = proccess_perp_matching_result(&mut rs).unwrap();
    assert!(r.perp_swaps.is_none());
    assert_eq!(r.new_order_id, 0);
    let mut rs = vec![Ok(Success::Amended { id: 9, new_price: 3, ts: 0 })];
    assert_eq!(proccess_spot_matching_result(&mut rs).unwrap().new_order_id, 0);
    let mut rs = vec![filled(Order::Spot(spot_order(1, BTC, USDC)), OrderSide::Ask, 1, 1, 1, 1)];
    assert!(matches!(
        proccess_spot_matching_result(&mut rs),
        Err(MatchingEngineError::InvalidMatchingResponse)
    ));
    let mut rs = vec![Err(Failed::DuplicateOrderID("dup".to_string()))];
    assert!(matches!(
        proccess_spot_matching_result(&mut rs),
        Err(MatchingEngineError::OrderBook(Failed::DuplicateOrderID(_)))
    ));
}

#[test]
fn wrong_order_kind_in_fill() {
    let mut rs = vec![
        accepted(1),
        filled(Order::Perp(perp_order(1, OrderSide::Ask)), OrderSide::Ask, 1, 1, 1, 1),
        filled(Order::Spot(spot_order(2, USDC, BTC)), OrderSide::Bid, 1, 1, 1, 2),
    ];
    assert!(matches!(
        proccess_spot_matching_result(&mut rs),
        Err(MatchingEngineError::InvalidOrderType)
    ));
    assert_eq!(rs.len(), 1);
    let mut rs = vec![
        accepted(1),
        filled(Order::Perp(perp_order(1, OrderSide::Ask)), OrderSide::Ask, 1, 1, 1, 1),
        Ok(Success::Cancelled { id: 2, ts: 0 }),
    ];
    assert!(matches!(
        proccess_perp_matching_result(&mut rs),
        Err(MatchingEngineError::UnexpectedResponse)
    ));
}

#[test]
fn perp_swaps_take_fees_on_collateral() {
    let mut rs = vec![
        Ok(Success::Cancelled { id: 3, ts: 0 }),
        filled(Order::Perp(perp_order(11, OrderSide::Bid)), OrderSide::Bid, 30_000_000_000, 100_000_000, 3_000_000_000, 1),
        filled(Order::Perp(perp_order(12, OrderSide::Ask)), OrderSide::Ask, 30_000_000_000, 100_000_000, 0, 2),
        filled(Order::Perp(perp_order(13, OrderSide::Ask)), OrderSide::Ask, 30_000_000_000, 200_000_000, 0, 3),
        filled(Order::Perp(perp_order(14, OrderSide::Bid)), OrderSide::Bid, 30_000_000_000, 200_000_000, 0, 4),
    ];
    let r = proccess_perp_matching_result(&mut rs).unwrap();
    assert_eq!(r.new_order_id, 0);
    let swaps = r.perp_swaps.unwrap();
    assert_eq!(swaps.len(), 2);
    assert_eq!(swaps[0].0.spent_collateral, 3_000_000_000);
    assert_eq!(swaps[0].0.spent_synthetic, 100_000_000);
    assert_eq!(swaps[0].0.fee_taken_a, 1_500_000);
    assert_eq!(swaps[0].0.fee_taken_b, 0);
    assert_eq!((swaps[0].1, swaps[0].2), (1, 2));
    // 0.2 BTC at 30 000 USDC
    assert_eq!(swaps[1].0.spent_collateral, 6_000_000_000);
    assert_eq!(swaps[1].0.fee_taken_a, 0);
    assert_eq!(swaps[1].0.fee_taken_b, 3_000_000);
    assert_eq!(swaps[1].0.signature_b, Some(sig(3)));
    assert_eq!(rs.len(), 1);
}

#[test]
fn failed_status_before_fills() {
    let mut rs = vec![
        Err(Failed::TooMuchSlippage("slip".to_string())),
        filled(Order::Spot(spot_order(1, BTC, USDC)), OrderSide::Ask, 1, 1, 1, 1),
        filled(Order::Spot(spot_order(2, USDC, BTC)), OrderSide::Bid, 1, 1, 1, 2),
    ];
    assert!(matches!(
        proccess_spot_matching_result(&mut rs),
        Err(MatchingEngineError::OrderBook(Failed::TooMuchSlippage(_)))
    ));
    assert_eq!(rs.len(), 3);
}
