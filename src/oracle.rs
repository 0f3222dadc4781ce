use vstd::prelude::*;

use crate::markets::{BTC, ETH};

verus! {

broadcast use vstd::seq_lib::group_to_multiset_ensures;

/// One price observation of an oracle signer. `signature_valid` is the
/// outcome of checking its signature against the signer's key.
#[derive(Clone, Copy, Debug, PartialEq, Eq, Structural)]
pub struct Observation {
    pub price: u64,
    pub timestamp: u32,
    pub signer_id: u32,
    pub signature_valid: bool,
}

/// A batch of observations of one token's index price.
#[derive(Clone, Debug)]
pub struct OracleUpdate {
    pub token: u64,
    pub observations: Vec<Observation>,
}

/// Why an oracle update was rejected.
#[derive(Clone, Copy, Debug, PartialEq, Eq, Structural)]
pub enum OracleUpdateError {
    /// No observation with a valid signature.
    NoValidObservations,
    /// An update for a token without a perpetual market.
    UnknownToken,
}

/// The tokens whose index prices are tracked, by slot.
pub open spec fn token_slot(token: u64) -> Option<int> {
    if token == BTC {
        Some(0)
    } else if token == ETH {
        Some(1)
    } else {
        None
    }
}

pub fn slot_of(token: u64) -> (r: Option<usize>)
    ensures
        match token_slot(token) {
            Some(s) => r == Some(s as usize),
            None => r is None,
        },
{
    if token == BTC {
        Some(0)
    } else if token == ETH {
        Some(1)
    } else {
        None
    }
}

pub open spec fn sorted(s: Seq<u64>) -> bool {
    forall|i: int, j: int| 0 <= i <= j < s.len() ==> s[i] <= s[j]
}

/// Whether `m` is the median of `p`: the middle element (index len/2) of
/// `p` put in ascending order.
pub open spec fn is_median(p: Seq<u64>, m: u64) -> bool {
    exists|s: Seq<u64>| #[trigger] sorted(s) && s.to_multiset() == p.to_multiset() && s.len() > p.len() / 2 && s[(p.len() / 2) as int] == m
}

/// The median of `p`, where `p` is not empty.
pub open spec fn median_of(p: Seq<u64>) -> u64 {
    choose|m: u64| is_median(p, m)
}

proof fn lemma_sorted_last_is_max(s: Seq<u64>, x: u64)
    requires
        sorted(s),
        s.to_multiset().contains(x),
    ensures
        s.len() > 0,
        x <= s.last(),
{
    assert(s.contains(x));
    let i = choose|i: int| 0 <= i < s.len() && s[i] == x;
    assert(s[i] <= s[s.len() - 1]);
}

/// Two ascending orderings of the same prices are the same sequence.
proof fn lemma_sorted_unique(a: Seq<u64>, b: Seq<u64>)
    requires
        sorted(a),
        sorted(b),
        a.to_multiset() == b.to_multiset(),
    ensures
        a == b,
    decreases a.len(),
{
    broadcast use vstd::multiset::group_multiset_axioms;

    if a.len() == 0 {
        assert(b.to_multiset().len() == 0);
        assert(b =~= a);
    } else {
        assert(a.to_multiset().contains(a.last())) by {
            assert(a.contains(a.last()));
        }
        lemma_sorted_last_is_max(b, a.last());
        assert(b.to_multiset().contains(b.last())) by {
            assert(b.contains(b.last()));
        }
        lemma_sorted_last_is_max(a, b.last());
        let x = a.last();
        assert(a =~= a.drop_last().push(x));
        assert(b =~= b.drop_last().push(x));
        vstd::seq_lib::to_multiset_build(a.drop_last(), x);
        vstd::seq_lib::to_multiset_build(b.drop_last(), x);
        assert(a.drop_last().to_multiset() =~= a.to_multiset().remove(x));
        assert(b.drop_last().to_multiset() =~= b.to_multiset().remove(x));
        lemma_sorted_unique(a.drop_last(), b.drop_last());
    }
}

proof fn lemma_median_unique(p: Seq<u64>, m: u64)
    requires
        is_median(p, m),
    ensures
        median_of(p) == m,
{
    let m2 = median_of(p);
    assert(is_median(p, m2));
    let s1 = choose|s: Seq<u64>| #[trigger] sorted(s) && s.to_multiset() == p.to_multiset() && s.len() > p.len() / 2 && s[(p.len() / 2) as int] == m;
    let s2 = choose|s: Seq<u64>| #[trigger] sorted(s) && s.to_multiset() == p.to_multiset() && s.len() > p.len() / 2 && s[(p.len() / 2) as int] == m2;
    lemma_sorted_unique(s1, s2);
}

/// The prices of some observations.
pub open spec fn prices_of(obs: Seq<Observation>) -> Seq<u64> {
    Seq::new(obs.len(), |i: int| obs[i].price)
}

/// The observations whose signature is valid, in order.
pub open spec fn valid_of(obs: Seq<Observation>) -> Seq<Observation>
    decreases obs.len(),
{
    if obs.len() == 0 {
        Seq::empty()
    } else if obs.last().signature_valid {
        valid_of(obs.drop_last()).push(obs.last())
    } else {
        valid_of(obs.drop_last())
    }
}

/// The prices in ascending order.
pub fn sort_prices(p: &Vec<u64>) -> (r: Vec<u64>)
    ensures
        sorted(r@),
        r@.to_multiset() == p@.to_multiset(),
{
    let mut r: Vec<u64> = Vec::new();
    let mut i: usize = 0;
    while i < p.len()
        invariant
            i <= p@.len(),
            sorted(r@),
            r@.to_multiset() == p@.take(i as int).to_multiset(),
        decreases p@.len() - i,
    {
        let x = p[i];
        let mut k: usize = 0;
        while k < r.len() && r[k] <= x
            invariant
                k <= r@.len(),
                forall|j: int| 0 <= j < k ==> r@[j] <= x,
            decreases r@.len() - k,
        {
            k = k + 1;
        }
        let ghost before = r@;
        r.insert(k, x);
        proof {
            vstd::seq_lib::to_multiset_insert(before, k as int, x);
            assert(p@.take(i + 1) =~= p@.take(i as int).push(x));
            vstd::seq_lib::to_multiset_build(p@.take(i as int), x);
            assert forall|a: int, b: int| 0 <= a <= b < r@.len() implies r@[a] <= r@[b] by {
                if a < k && b > k {
                    assert(r@[b] == before[b - 1]);
                } else if a == k && b > k {
                    assert(r@[b] == before[b - 1]);
                    assert(before[k as int] > x);
                    assert(before[k as int] <= before[b - 1]);
                } else if a > k {
                    assert(before[a - 1] <= before[b - 1]);
                }
            }
        }
        i = i + 1;
    }
    assert(p@.take(i as int) =~= p@);
    r
}

/// The median of some prices; see `is_median`.
pub fn median(p: &Vec<u64>) -> (r: u64)
    requires
        p@.len() > 0,
    ensures
        is_median(p@, r),
        r == median_of(p@),
{
    let s = sort_prices(p);
    proof {
        assert(s@.len() == p@.len()) by {
            assert(s@.to_multiset().len() == p@.to_multiset().len());
        }
    }
    let r = s[p.len() / 2];
    assert(sorted(s@) && s@.to_multiset() == p@.to_multiset() && s@.len() > p@.len() / 2 && s@[(p@.len() / 2) as int] == r);
    proof {
        lemma_median_unique(p@, r);
    }
    r
}

impl OracleUpdate {
    /// The median price of all observations.
    pub fn median_price(&self) -> (r: u64)
        requires
            self.observations@.len() > 0,
        ensures
            is_median(prices_of(self.observations@), r),
            r == median_of(prices_of(self.observations@)),
    {
        let mut p: Vec<u64> = Vec::new();
        let mut i: usize = 0;
        while i < self.observations.len()
            invariant
                i <= self.observations@.len(),
                p@ =~= prices_of(self.observations@.take(i as int)),
            decreases self.observations@.len() - i,
        {
            p.push(self.observations[i].price);
            i = i + 1;
        }
        assert(self.observations@.take(i as int) =~= self.observations@);
        median(&p)
    }

    /// Keeps only the observations whose signature is valid; fails where
    /// none is.
    pub fn verify_update(&mut self) -> (r: Result<(), OracleUpdateError>)
        ensures
            final(self).token == old(self).token,
            final(self).observations@ == valid_of(old(self).observations@),
            r is Ok <==> valid_of(old(self).observations@).len() > 0,
            r is Err ==> r == Err::<(), OracleUpdateError>(OracleUpdateError::NoValidObservations),
    {
        let mut kept: Vec<Observation> = Vec::new();
        let mut i: usize = 0;
        while i < self.observations.len()
            invariant
                i <= self.observations@.len(),
                kept@ == valid_of(self.observations@.take(i as int)),
            decreases self.observations@.len() - i,
        {
            let o = self.observations[i];
            proof {
                assert(self.observations@.take(i + 1).drop_last() =~= self.observations@.take(i as int));
            }
            if o.signature_valid {
                kept.push(o);
            }
            i = i + 1;
        }
        assert(self.observations@.take(i as int) =~= self.observations@);
        self.observations = kept;
        if self.observations.len() == 0 {
            Err(OracleUpdateError::NoValidObservations)
        } else {
            Ok(())
        }
    }
}

/// Number of price updates between two persists of the price data.
pub const PRICE_PERSIST_INTERVAL: u16 = 10;

/// Index prices by token slot: the latest, and the least and greatest of
/// this batch with the update each came from (0 and none before the first).
pub struct PriceState {
    pub latest_index_price: Vec<u64>,
    pub min_index_price: Vec<u64>,
    pub max_index_price: Vec<u64>,
    pub min_index_update: Vec<Option<OracleUpdate>>,
    pub max_index_update: Vec<Option<OracleUpdate>>,
    pub running_index_price_count: u16,
}

/// The price state in the abstract: by slot, the latest price, the least
/// and greatest of this batch, and the observations each came from (none
/// before the first update of the batch).
pub struct PriceView {
    pub latest: Seq<u64>,
    pub min: Seq<u64>,
    pub max: Seq<u64>,
    pub min_obs: Seq<Option<Seq<Observation>>>,
    pub max_obs: Seq<Option<Seq<Observation>>>,
}

/// The price state after one update of `token` with observations `obs`.
/// The median of all observations is compared with the batch's extremes.
/// The first update of a batch, and one whose median would pass an extreme,
/// has its signatures checked: only its valid observations count, it fails
/// if there is none, and their median becomes the latest price and, where
/// it still passes the extreme (or there is none yet), the new extreme. Any
/// other update sets only the latest price, to its median.
pub open spec fn price_step(v: PriceView, token: u64, obs: Seq<Observation>) -> Result<PriceView, OracleUpdateError> {
    match token_slot(token) {
        None => Err(OracleUpdateError::UnknownToken),
        Some(j) => if obs.len() == 0 {
            Err(OracleUpdateError::NoValidObservations)
        } else {
            let m0 = median_of(prices_of(obs));
            let valid = valid_of(obs);
            let m = median_of(prices_of(valid));
            if v.min_obs[j] is None {
                if valid.len() == 0 {
                    Err(OracleUpdateError::NoValidObservations)
                } else {
                    let v1 = PriceView {
                        latest: v.latest.update(j, m),
                        min: v.min.update(j, m),
                        min_obs: v.min_obs.update(j, Some(valid)),
                        ..v
                    };
                    if v.max_obs[j] is None {
                        Ok(PriceView { max: v1.max.update(j, m), max_obs: v1.max_obs.update(j, Some(valid)), ..v1 })
                    } else {
                        Ok(v1)
                    }
                }
            } else if m0 < v.min[j] {
                if valid.len() == 0 {
                    Err(OracleUpdateError::NoValidObservations)
                } else if m < v.min[j] {
                    Ok(PriceView { latest: v.latest.update(j, m), min: v.min.update(j, m), min_obs: v.min_obs.update(j, Some(valid)), ..v })
                } else {
                    Ok(PriceView { latest: v.latest.update(j, m), ..v })
                }
            } else if m0 > v.max[j] {
                if valid.len() == 0 {
                    Err(OracleUpdateError::NoValidObservations)
                } else if m > v.max[j] {
                    Ok(PriceView { latest: v.latest.update(j, m), max: v.max.update(j, m), max_obs: v.max_obs.update(j, Some(valid)), ..v })
                } else {
                    Ok(PriceView { latest: v.latest.update(j, m), ..v })
                }
            } else {
                Ok(PriceView { latest: v.latest.update(j, m0), ..v })
            }
        },
    }
}

/// The price state after updates in order, and the error that stopped them,
/// if one did; the updates before it stay applied.
pub open spec fn prices_after(v: PriceView, ups: Seq<OracleUpdate>) -> (PriceView, Option<OracleUpdateError>)
    decreases ups.len(),
{
    if ups.len() == 0 {
        (v, None)
    } else {
        let (w, e) = prices_after(v, ups.drop_last());
        if e is Some {
            (w, e)
        } else {
            match price_step(w, ups.last().token, ups.last().observations@) {
                Ok(w2) => (w2, None),
                Err(e2) => (w, Some(e2)),
            }
        }
    }
}

proof fn lemma_prices_after_prefix_err(v: PriceView, ups: Seq<OracleUpdate>, k: int)
    requires
        0 <= k <= ups.len(),
        prices_after(v, ups.take(k)).1 is Some,
    ensures
        prices_after(v, ups) == prices_after(v, ups.take(k)),
    decreases ups.len() - k,
{
    if k < ups.len() {
        assert(ups.take(k + 1).drop_last() =~= ups.take(k));
        lemma_prices_after_prefix_err(v, ups, k + 1);
    } else {
        assert(ups.take(k) =~= ups);
    }
}

/// Whether a price view has its two slots, with price 0 in each slot that
/// no update has set yet.
pub open spec fn price_view_wf(v: PriceView) -> bool {
    &&& v.latest.len() == 2
    &&& v.min.len() == 2
    &&& v.max.len() == 2
    &&& v.min_obs.len() == 2
    &&& v.max_obs.len() == 2
    &&& forall|j: int| 0 <= j < 2 && #[trigger] v.min_obs[j] is None ==> v.min[j] == 0
    &&& forall|j: int| 0 <= j < 2 && #[trigger] v.max_obs[j] is None ==> v.max[j] == 0
}

/// Within a batch the least price of a token, once set (not 0), only ever
/// goes down and the greatest only ever goes up, whatever updates come in,
/// whether they all go through or one stops them.
pub proof fn lemma_extremes_monotone(v: PriceView, ups: Seq<OracleUpdate>)
    requires
        price_view_wf(v),
    ensures
        price_view_wf(prices_after(v, ups).0),
        forall|j: int| 0 <= j < 2 && v.min[j] != 0 ==> #[trigger] prices_after(v, ups).0.min[j] <= v.min[j],
        forall|j: int| 0 <= j < 2 ==> #[trigger] prices_after(v, ups).0.max[j] >= v.max[j],
        forall|j: int| 0 <= j < 2 && v.min_obs[j] is Some ==> #[trigger] prices_after(v, ups).0.min_obs[j] is Some
            && prices_after(v, ups).0.min[j] <= v.min[j],
    decreases ups.len(),
{
    if ups.len() > 0 {
        lemma_extremes_monotone(v, ups.drop_last());
        let w = prices_after(v, ups.drop_last()).0;
        let st = price_step(w, ups.last().token, ups.last().observations@);
        if st is Ok {
            let w2 = st->Ok_0;
            assert(price_view_wf(w2));
            assert forall|j: int| 0 <= j < 2 && w.min_obs[j] is Some implies #[trigger] w2.min_obs[j] is Some && w2.min[j] <= w.min[j] by {
            }
            assert forall|j: int| 0 <= j < 2 && v.min[j] != 0 implies #[trigger] w2.min[j] <= v.min[j] by {
                assert(v.min_obs[j] is Some);
                assert(w.min_obs[j] is Some);
            }
            assert forall|j: int| 0 <= j < 2 implies #[trigger] w2.max[j] >= w.max[j] by {
                if w.max_obs[j] is None {
                    assert(w.max[j] == 0);
                }
            }
        }
    }
}

impl PriceState {
    pub open spec fn wf(&self) -> bool {
        &&& self.latest_index_price@.len() == 2
        &&& self.min_index_price@.len() == 2
        &&& self.max_index_price@.len() == 2
        &&& self.min_index_update@.len() == 2
        &&& self.max_index_update@.len() == 2
        &&& self.running_index_price_count < PRICE_PERSIST_INTERVAL
        &&& price_view_wf(self.view())
    }

    pub open spec fn view(&self) -> PriceView {
        PriceView {
            latest: self.latest_index_price@,
            min: self.min_index_price@,
            max: self.max_index_price@,
            min_obs: Seq::new(
                self.min_index_update@.len(),
                |j: int| match self.min_index_update@[j] {
                    Some(u) => Some(u.observations@),
                    None => None,
                },
            ),
            max_obs: Seq::new(
                self.max_index_update@.len(),
                |j: int| match self.max_index_update@[j] {
                    Some(u) => Some(u.observations@),
                    None => None,
                },
            ),
        }
    }

    /// No price seen yet; the latest prices start at `initial`.
    pub fn new(initial_btc: u64, initial_eth: u64) -> (r: PriceState)
        ensures
            r.wf(),
            r.latest_index_price@ == seq![initial_btc, initial_eth],
            r.min_index_price@ == seq![0u64, 0u64],
            r.max_index_price@ == seq![0u64, 0u64],
            forall|j: int| 0 <= j < 2 ==> r.min_index_update@[j] is None && r.max_index_update@[j] is None,
            r.running_index_price_count == 0,
    {
        let mut min_index_update: Vec<Option<OracleUpdate>> = Vec::new();
        min_index_update.push(None);
        min_index_update.push(None);
        let mut max_index_update: Vec<Option<OracleUpdate>> = Vec::new();
        max_index_update.push(None);
        max_index_update.push(None);
        let r = PriceState {
            latest_index_price: vec![initial_btc, initial_eth],
            min_index_price: vec![0, 0],
            max_index_price: vec![0, 0],
            min_index_update,
            max_index_update,
            running_index_price_count: 0,
        };
        assert(r.min_index_price@ =~= seq![0u64, 0u64]);
        assert(r.max_index_price@ =~= seq![0u64, 0u64]);
        assert(r.latest_index_price@ =~= seq![initial_btc, initial_eth]);
        r
    }

    /// Forgets this batch's extremes; the latest prices stay.
    pub fn reset_extremes(&mut self)
        requires
            old(self).wf(),
        ensures
            final(self).wf(),
            final(self).latest_index_price@ == old(self).latest_index_price@,
            final(self).min_index_price@ == seq![0u64, 0u64],
            final(self).max_index_price@ == seq![0u64, 0u64],
            forall|j: int| 0 <= j < 2 ==> final(self).min_index_update@[j] is None && final(self).max_index_update@[j] is None,
            final(self).running_index_price_count == old(self).running_index_price_count,
    {
        self.min_index_price = vec![0, 0];
        self.max_index_price = vec![0, 0];
        self.min_index_update.set(0, None);
        self.min_index_update.set(1, None);
        self.max_index_update.set(0, None);
        self.max_index_update.set(1, None);
        assert(self.min_index_price@ =~= seq![0u64, 0u64]);
        assert(self.max_index_price@ =~= seq![0u64, 0u64]);
    }

    /// The latest index price of a token.
    pub fn get_index_price(&self, token: u64) -> (r: u64)
        requires
            self.wf(),
            token_slot(token) is Some,
        ensures
            r == self.latest_index_price@[token_slot(token)->0],
    {
        let j = slot_of(token).unwrap();
        self.latest_index_price[j]
    }

    /// Takes in oracle updates in order; see `price_step`. The extremes
    /// only ever widen (`lemma_extremes_monotone`). An update with no valid
    /// observation where one is needed, or of an unknown token, stops the
    /// call with an error; the updates before it stay applied.
    pub fn update_index_prices(&mut self, oracle_updates: Vec<OracleUpdate>) -> (r: Result<Vec<u64>, OracleUpdateError>)
        requires
            old(self).wf(),
        ensures
            final(self).wf(),
            forall|j: int| 0 <= j < 2 && old(self).min_index_price@[j] != 0 ==> #[trigger] final(self).min_index_price@[j] <= old(self).min_index_price@[j],
            forall|j: int| 0 <= j < 2 ==> #[trigger] final(self).max_index_price@[j] >= old(self).max_index_price@[j],
            final(self).view() == prices_after(old(self).view(), oracle_updates@).0,
            r is Err <==> prices_after(old(self).view(), oracle_updates@).1 is Some,
            r is Err ==> r == Err::<Vec<u64>, OracleUpdateError>(prices_after(old(self).view(), oracle_updates@).1->0),
            r is Ok ==> r->Ok_0@ == final(self).latest_index_price@,
            r is Ok ==> final(self).running_index_price_count == (old(self).running_index_price_count + 1) % PRICE_PERSIST_INTERVAL as int,
            r is Err ==> final(self).running_index_price_count == old(self).running_index_price_count,
    {
        let ghost v0 = self.view();
        let ghost ups = oracle_updates@;
        let r = self.apply_oracle_updates(oracle_updates);
        proof {
            lemma_extremes_monotone(v0, ups);
        }
        r
    }

    /// Applies oracle updates in order; see `price_step`.
    fn apply_oracle_updates(&mut self, oracle_updates: Vec<OracleUpdate>) -> (r: Result<Vec<u64>, OracleUpdateError>)
        requires
            old(self).wf(),
        ensures
            final(self).wf(),
            final(self).view() == prices_after(old(self).view(), oracle_updates@).0,
            r is Err <==> prices_after(old(self).view(), oracle_updates@).1 is Some,
            r is Err ==> r == Err::<Vec<u64>, OracleUpdateError>(prices_after(old(self).view(), oracle_updates@).1->0),
            r is Ok ==> r->Ok_0@ == final(self).latest_index_price@,
            r is Ok ==> final(self).running_index_price_count == (old(self).running_index_price_count + 1) % PRICE_PERSIST_INTERVAL as int,
            r is Err ==> final(self).running_index_price_count == old(self).running_index_price_count,
    {
        let ghost ups = oracle_updates@;
        let ghost v0 = self.view();
        let mut updates = oracle_updates;
        let n = updates.len();
        let mut i: usize = 0;
        proof {
            assert(ups.take(0) =~= Seq::<OracleUpdate>::empty());
        }
        while updates.len() > 0
            invariant
                self.wf(),
                ups == oracle_updates@,
                v0 == old(self).view(),
                ups.len() == n,
                updates@ == ups.subrange(i as int, ups.len() as int),
                i <= ups.len(),
                prices_after(v0, ups.take(i as int)).1 is None,
                self.view() == prices_after(v0, ups.take(i as int)).0,
                self.running_index_price_count == old(self).running_index_price_count,
            decreases updates@.len(),
        {
            let mut update = updates.remove(0);
            let ghost w = self.view();
            proof {
                assert(update == ups[i as int]);
                assert(ups.take(i + 1).drop_last() =~= ups.take(i as int));
            }
            let ghost obs = update.observations@;
            let j = match slot_of(update.token) {
                Some(j) => j,
                None => {
                    proof {
                        lemma_prices_after_prefix_err(v0, ups, i as int + 1);
                    }
                    return Err(OracleUpdateError::UnknownToken);
                },
            };
            if update.observations.len() == 0 {
                proof {
                    lemma_prices_after_prefix_err(v0, ups, i as int + 1);
                }
                return Err(OracleUpdateError::NoValidObservations);
            }
            let mut median = update.median_price();
            let min_now = self.min_index_price[j];
            let max_now = self.max_index_price[j];
            let min_unset = self.min_index_update[j].is_none();
            let max_unset = self.max_index_update[j].is_none();
            if min_unset {
                if update.verify_update().is_err() {
                    proof {
                        lemma_prices_after_prefix_err(v0, ups, i as int + 1);
                    }
                    return Err(OracleUpdateError::NoValidObservations);
                }
                median = update.median_price();
                self.latest_index_price.set(j, median);
                self.min_index_price.set(j, median);
                if max_unset {
                    self.max_index_price.set(j, median);
                    self.max_index_update.set(j, Some(update.clone_update()));
                }
                self.min_index_update.set(j, Some(update));
            } else if median < min_now {
                if update.verify_update().is_err() {
                    proof {
                        lemma_prices_after_prefix_err(v0, ups, i as int + 1);
                    }
                    return Err(OracleUpdateError::NoValidObservations);
                }
                median = update.median_price();
                self.latest_index_price.set(j, median);
                if median < min_now {
                    self.min_index_price.set(j, median);
                    self.min_index_update.set(j, Some(update));
                }
            } else if median > max_now {
                if update.verify_update().is_err() {
                    proof {
                        lemma_prices_after_prefix_err(v0, ups, i as int + 1);
                    }
                    return Err(OracleUpdateError::NoValidObservations);
                }
                median = update.median_price();
                self.latest_index_price.set(j, median);
                if median > max_now {
                    self.max_index_price.set(j, median);
                    self.max_index_update.set(j, Some(update));
                }
            } else {
                self.latest_index_price.set(j, median);
            }
            proof {
                let st = price_step(w, ups[i as int].token, obs);
                assert(st is Ok);
                assert(self.view().latest =~= st->Ok_0.latest);
                assert(self.view().min =~= st->Ok_0.min);
                assert(self.view().max =~= st->Ok_0.max);
                assert(self.view().min_obs =~= st->Ok_0.min_obs);
                assert(self.view().max_obs =~= st->Ok_0.max_obs);
            }
            i = i + 1;
        }
        proof {
            assert(ups.take(i as int) =~= ups);
        }
        self.running_index_price_count = if self.running_index_price_count + 1 == PRICE_PERSIST_INTERVAL {
            0
        } else {
            self.running_index_price_count + 1
        };
        let r = vec![self.latest_index_price[0], self.latest_index_price[1]];
        assert(r@ =~= self.latest_index_price@);
        Ok(r)
    }
}

proof fn lemma_valid_all(obs: Seq<Observation>)
    ensures
        forall|k: int| 0 <= k < valid_of(obs).len() ==> (#[trigger] valid_of(obs)[k]).signature_valid,
    decreases obs.len(),
{
    if obs.len() > 0 {
        let prev = valid_of(obs.drop_last());
        lemma_valid_all(obs.drop_last());
        assert forall|k: int| 0 <= k < valid_of(obs).len() implies (#[trigger] valid_of(obs)[k]).signature_valid by {
            if obs.last().signature_valid && k == prev.len() {
                assert(valid_of(obs)[k] == obs.last());
            } else {
                assert(valid_of(obs)[k] == prev[k]);
            }
        }
    }
}

impl OracleUpdate {
    /// A copy of this update.
    pub fn clone_update(&self) -> (r: OracleUpdate)
        ensures
            r.token == self.token,
            r.observations@ == self.observations@,
    {
        let mut observations: Vec<Observation> = Vec::new();
        let mut i: usize = 0;
        while i < self.observations.len()
            invariant
                i <= self.observations@.len(),
                observations@ =~= self.observations@.take(i as int),
            decreases self.observations@.len() - i,
        {
            observations.push(self.observations[i]);
            i = i + 1;
        }
        OracleUpdate { token: self.token, observations }
    }
}

} // verus!
