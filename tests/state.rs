use invisible_backend::batch::TransactionBatch;
use invisible_backend::funding::{FundingState, FundingUpdateMessage, FUNDING_TICKS_PER_RATE};
use invisible_backend::hash::FieldElement;
use invisible_backend::markets::{BTC, ETH, USDC};
use invisible_backend::oracle::{median, Observation, OracleUpdate, OracleUpdateError, PriceState};
use invisible_backend::tree::SuperficialTree;
use invisible_backend::updates::UpdatedHashes;

fn obs(price: u64, valid: bool) -> Observation {
    Observation { price, timestamp: 1, signer_id: 0, signature_valid: valid }
}

fn upd(token: u64, prices: &[(u64, bool)]) -> OracleUpdate {
    OracleUpdate { token, observations: prices.iter().map(|&(p, v)| obs(p, v)).collect() }
}

#[test]
fn tree_leaves_and_first_zero() {
    let mut t = SuperficialTree::new(4);
    assert_eq!(t.first_zero_idx(), 0);
    t.update_leaf_node(&FieldElement::from_u64(3), 0);
    t.update_leaf_node(&FieldElement::from_u64(4), 5);
    assert_eq!(t.get_leaf_by_index(5), FieldElement::from_u64(4));
    assert_eq!(t.get_leaf_by_index(3), FieldElement::zero());
    assert_eq!(t.get_leaf_by_index(100), FieldElement::zero());
    assert_eq!(t.first_zero_idx(), 1);
    // reapplying the same pair changes nothing
    t.update_leaf_node(&FieldElement::from_u64(4), 5);
    assert_eq!(t.leaf_nodes.len(), 6);
}

#[test]
fn tree_disk_image_round_trip() {
    let mut t = SuperficialTree::new(5);
    t.root = FieldElement { w0: 1, w1: 2, w2: 3, w3: 4 };
    t.update_leaf_node(&FieldElement { w0: 9, w1: 8, w2: 7, w3: 6 }, 3);
    let image = t.to_disk_image();
    assert_eq!(image.len(), 6 + 4 * 4);
    assert_eq!(&image[..6], &[5, 1, 2, 3, 4, 4]);
    let back = SuperficialTree::from_disk_image(&image).unwrap();
    assert_eq!(back.depth, 5);
    assert_eq!(back.root, t.root);
    assert_eq!(back.leaf_nodes, t.leaf_nodes);
    let mut broken = image.clone();
    broken.pop();
    assert!(SuperficialTree::from_disk_image(&broken).is_none());
    let mut too_deep = image.clone();
    too_deep[0] = 40;
    assert!(SuperficialTree::from_disk_image(&too_deep).is_none());
}

#[test]
fn updated_hashes_listing_ignores_write_order() {
    let mut a = UpdatedHashes::new();
    let mut b = UpdatedHashes::new();
    for (k, v) in [(9u64, 1u64), (2, 2), (5, 3), (2, 4)] {
        a.insert(k, FieldElement::from_u64(v));
    }
    for (k, v) in [(5u64, 3u64), (2, 4), (9, 1)] {
        b.insert(k, FieldElement::from_u64(v));
    }
    assert_eq!(a.entries, b.entries);
    assert_eq!(a.entries.iter().map(|e| e.0).collect::<Vec<_>>(), vec![2, 5, 9]);
    assert_eq!(a.len(), 3);
    a.remove(5);
    assert_eq!(a.get(5), None);
    assert_eq!(a.get(2), Some(FieldElement::from_u64(4)));
}

#[test]
fn median_of_prices() {
    assert_eq!(median(&vec![5, 1, 3]), 3);
    assert_eq!(median(&vec![4, 1, 3, 2]), 3);
    assert_eq!(median(&vec![7]), 7);
}

#[test]
fn price_extremes_widen_only() {
    let mut p = PriceState::new(0, 0);
    let latest = p.update_index_prices(vec![upd(BTC, &[(100, true), (102, true), (101, false)])]).unwrap();
    // the median of the two valid prices is the upper one
    assert_eq!(latest, vec![102, 0]);
    assert_eq!((p.min_index_price[0], p.max_index_price[0]), (102, 102));
    p.update_index_prices(vec![upd(BTC, &[(103, true)])]).unwrap();
    assert_eq!((p.min_index_price[0], p.max_index_price[0]), (102, 103));
    // an interior median moves only the latest price
    p.update_index_prices(vec![upd(BTC, &[(102, true)])]).unwrap();
    assert_eq!(p.latest_index_price[0], 102);
    assert_eq!((p.min_index_price[0], p.max_index_price[0]), (102, 103));
    // a lower median, confirmed by valid signatures, lowers the minimum
    p.update_index_prices(vec![upd(BTC, &[(90, true), (95, true), (200, false)])]).unwrap();
    assert_eq!(p.min_index_price[0], 95);
    assert_eq!(p.latest_index_price[0], 95);
    // a higher median whose valid observations do not pass the maximum
    p.update_index_prices(vec![upd(BTC, &[(120, false), (130, false), (100, true)])]).unwrap();
    assert_eq!(p.max_index_price[0], 103);
    assert_eq!(p.latest_index_price[0], 100);
    // no valid observation at all
    let r = p.update_index_prices(vec![upd(ETH, &[(5, false)])]);
    assert_eq!(r, Err(OracleUpdateError::NoValidObservations));
    assert_eq!(p.min_index_price[1], 0);
    assert_eq!(p.update_index_prices(vec![upd(USDC, &[(1, true)])]), Err(OracleUpdateError::UnknownToken));
    p.reset_extremes();
    assert_eq!((p.min_index_price[0], p.max_index_price[0]), (0, 0));
    assert_eq!(p.get_index_price(BTC), 100);
}

#[test]
fn funding_tick_completes_a_rate() {
    let mut f = FundingState::new();
    f.current_funding_count = FUNDING_TICKS_PER_RATE - 1;
    // 0.2 at a scale of 100 000
    f.running_funding_tick_sums = vec![20_000, 0];
    let msg = FundingUpdateMessage { impact_prices: vec![(BTC, 1000, 1000), (ETH, 50, 50)] };
    let made = f.per_minute_funding_updates(&msg, &vec![1000, 50]);
    assert!(made);
    assert_eq!(f.current_funding_count, 0);
    assert_eq!(f.current_funding_idx, 1);
    assert_eq!(f.funding_rates, vec![(20_000 / 480, 0)]);
    assert_eq!(f.funding_prices, vec![(1000, 50)]);
    assert_eq!(f.running_funding_tick_sums, vec![0, 0]);
}

#[test]
fn funding_premium_of_a_tick() {
    let mut f = FundingState::new();
    // impact bid 1% above the index: a premium of 1 000 at a scale of 100 000
    let msg = FundingUpdateMessage { impact_prices: vec![(BTC, 10_100, 10_200)] };
    assert!(!f.per_minute_funding_updates(&msg, &vec![10_000, 0]));
    assert_eq!(f.running_funding_tick_sums, vec![1_000, 0]);
    // impact ask 0.5% below the index
    let msg = FundingUpdateMessage { impact_prices: vec![(BTC, 9_000, 9_950)] };
    f.per_minute_funding_updates(&msg, &vec![10_000, 0]);
    assert_eq!(f.running_funding_tick_sums, vec![500, 0]);
    assert_eq!(f.current_funding_count, 2);
}

#[test]
fn funding_rate_rounds_toward_zero() {
    let mut f = FundingState::new();
    f.current_funding_count = FUNDING_TICKS_PER_RATE - 1;
    f.running_funding_tick_sums = vec![-1000, 1000];
    f.per_minute_funding_updates(&FundingUpdateMessage { impact_prices: vec![] }, &vec![1, 1]);
    assert_eq!(f.funding_rates, vec![(-2, 2)]);
}

#[test]
fn batch_prices_and_funding() {
    let mut b = TransactionBatch::new(4, 4);
    b.update_index_prices(vec![upd(ETH, &[(2_000, true)])]).unwrap();
    assert_eq!(b.get_index_price(ETH), 2_000);
    let msg = FundingUpdateMessage { impact_prices: vec![(ETH, 2_020, 2_030)] };
    b.per_minute_funding_updates(msg);
    assert_eq!(b.funding.running_funding_tick_sums, vec![0, 1_000]);
}

#[test]
fn funding_rate_after_a_full_period() {
    let mut f = FundingState::new();
    let msg = FundingUpdateMessage { impact_prices: vec![(BTC, 10_100, 10_200)] };
    for i in 0..FUNDING_TICKS_PER_RATE {
        let made = f.per_minute_funding_updates(&msg, &vec![10_000, 0]);
        assert_eq!(made, i + 1 == FUNDING_TICKS_PER_RATE);
    }
    assert_eq!(f.current_funding_idx, 1);
    assert_eq!(f.current_funding_count, 0);
    assert_eq!(f.funding_rates, vec![(1_000, 0)]);
    assert_eq!(f.running_funding_tick_sums, vec![0, 0]);
}

#[test]
fn update_without_observations_is_rejected() {
    let mut p = PriceState::new(0, 0);
    p.update_index_prices(vec![upd(BTC, &[(100, true)])]).unwrap();
    let r = p.update_index_prices(vec![upd(BTC, &[(90, true)]), OracleUpdate { token: ETH, observations: vec![] }]);
    assert_eq!(r, Err(OracleUpdateError::NoValidObservations));
    // the update before it stays applied; the count is unchanged
    assert_eq!(p.min_index_price[0], 90);
    assert_eq!(p.min_index_price[1], 0);
    assert_eq!(p.running_index_price_count, 1);
}
