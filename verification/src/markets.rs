//! The client's local record of markets.
//!
//! Beside the markets themselves the cache holds what the client has looked
//! up about them: the markets over which it has a say as payout control,
//! newest first; the payouts that the payout controls of a market have
//! proposed; the markets that the user has bookmarked; and the names that the
//! user has given to payout controls.
use crate::keyed_list::KeyedList;
use crate::transaction::Market;
use crate::types::Amount;
use crate::types::Identity;
use crate::types::OutPoint;
use crate::types::UnixTimestamp;
use vstd::prelude::*;

verus! {

/// A market together with the time at which the federation created it.
pub type CreatedMarket = (UnixTimestamp, OutPoint);

/// The payout that one payout control has proposed for a market.
pub type Proposal = (Identity, Vec<Amount>);

/// No entry is newer than an entry before it.
pub open spec fn newest_first(s: Seq<CreatedMarket>) -> bool {
    forall|i: int, j: int| 0 <= i < j < s.len() ==> (#[trigger] s[i]).0.0 >= (#[trigger] s[j]).0.0
}

/// The number of entries at the head of `s` that were created at `created` or later.
pub open spec fn not_older_than(s: Seq<CreatedMarket>, created: u64) -> int
    decreases s.len(),
{
    if s.len() == 0 || s[0].0.0 < created {
        0
    } else {
        1 + not_older_than(s.drop_first(), created)
    }
}

/// The count stops at the first entry that is older, and nowhere before.
pub proof fn lemma_not_older_than(s: Seq<CreatedMarket>, created: u64)
    ensures
        0 <= not_older_than(s, created) <= s.len(),
        forall|i: int| 0 <= i < not_older_than(s, created) ==> (#[trigger] s[i]).0.0 >= created,
        not_older_than(s, created) < s.len() ==> s[not_older_than(s, created)].0.0 < created,
    decreases s.len(),
{
    if s.len() == 0 || s[0].0.0 < created {
    } else {
        let rest = s.drop_first();
        lemma_not_older_than(rest, created);
        let n = not_older_than(rest, created);
        assert forall|i: int| 0 <= i < n + 1 implies (#[trigger] s[i]).0.0 >= created by {
            if i > 0 {
                assert(s[i] == rest[i - 1]);
            }
        }
        if n + 1 < s.len() {
            assert(s[n + 1] == rest[n]);
        }
    }
}

/// The markets over which the client has a say as payout control, newest first.
pub struct PayoutControlMarkets {
    entries: Vec<CreatedMarket>,
}

impl View for PayoutControlMarkets {
    type V = Seq<CreatedMarket>;

    closed spec fn view(&self) -> Seq<CreatedMarket> {
        self.entries@
    }
}

impl PayoutControlMarkets {
    /// The entries are newest first and none occurs twice.
    pub closed spec fn wf(&self) -> bool {
        newest_first(self.entries@) && self.entries@.no_duplicates()
    }

    /// What `wf` says, in terms of the view.
    pub proof fn lemma_wf(&self)
        requires
            self.wf(),
        ensures
            newest_first(self@),
            self@.no_duplicates(),
    {
    }

    /// An index without entries.
    pub fn new() -> (index: PayoutControlMarkets)
        ensures
            index.wf(),
            index@ == Seq::<CreatedMarket>::empty(),
    {
        PayoutControlMarkets { entries: Vec::new() }
    }

    /// The creation time of the newest market of the index; the epoch where there is none.
    pub fn newest(&self) -> (created: UnixTimestamp)
        requires
            self.wf(),
        ensures
            created == if self@.len() == 0 {
                UnixTimestamp(0)
            } else {
                self@[0].0
            },
            forall|i: int| 0 <= i < self@.len() ==> (#[trigger] self@[i]).0.0 <= created.0,
    {
        if self.entries.len() == 0 {
            UnixTimestamp(0)
        } else {
            proof {
                assert forall|i: int| 0 <= i < self@.len() implies (#[trigger] self@[i]).0.0 <= self@[0].0.0 by {
                    if i > 0 {
                        assert(self.entries@[0].0.0 >= self.entries@[i].0.0);
                    }
                }
            }
            self.entries[0].0
        }
    }

    /// Whether the market is in the index under the given creation time.
    pub fn contains(&self, created: UnixTimestamp, market: &OutPoint) -> (r: bool)
        ensures
            r == self@.contains((created, *market)),
    {
        let mut i: usize = 0;
        while i < self.entries.len()
            invariant
                i <= self.entries@.len(),
                forall|j: int| 0 <= j < i ==> self.entries@[j] != (created, *market),
            decreases self.entries@.len() - i,
        {
            if self.entries[i].0 == created && self.entries[i].1.same_as(market) {
                return true;
            }
            i += 1;
        }
        false
    }

    /// Puts a market into the index. A market that is there already is not
    /// put in again; a new one goes behind the markets that are as new or newer.
    pub fn insert(&mut self, created: UnixTimestamp, market: OutPoint)
        requires
            old(self).wf(),
        ensures
            final(self).wf(),
            final(self)@ == if old(self)@.contains((created, market)) {
                old(self)@
            } else {
                old(self)@.insert(not_older_than(old(self)@, created.0), (created, market))
            },
    {
        if self.contains(created, &market) {
            return ;
        }
        let ghost all = self.entries@;
        let mut i: usize = 0;
        proof {
            assert(all.subrange(0, all.len() as int) =~= all);
        }
        while i < self.entries.len() && self.entries[i].0.0 >= created.0
            invariant
                i <= all.len(),
                self.entries@ == all,
                not_older_than(all, created.0) == i + not_older_than(all.subrange(i as int, all.len() as int), created.0),
            decreases all.len() - i,
        {
            proof {
                let rest = all.subrange(i as int, all.len() as int);
                assert(rest[0] == all[i as int]);
                assert(rest.drop_first() =~= all.subrange(i + 1, all.len() as int));
            }
            i += 1;
        }
        proof {
            let rest = all.subrange(i as int, all.len() as int);
            if i < all.len() {
                assert(rest[0] == all[i as int]);
            }
            assert(not_older_than(all, created.0) == i);
            lemma_not_older_than(all, created.0);
            let after = all.insert(i as int, (created, market));
            assert forall|a: int, b: int| 0 <= a < b < after.len() implies (#[trigger] after[a]).0.0 >= (
            #[trigger] after[b]).0.0 by {
                let sa = if a < i { a } else { a - 1 };
                let sb = if b < i { b } else { b - 1 };
                if a != i && b != i {
                    assert(after[a] == all[sa]);
                    assert(after[b] == all[sb]);
                    assert(all[sa].0.0 >= all[sb].0.0);
                } else if a == i {
                    assert(after[b] == all[sb]);
                    assert(all[i as int].0.0 >= all[sb].0.0 || sb == i);
                } else {
                    assert(after[a] == all[sa]);
                }
            }
            assert forall|a: int, b: int| 0 <= a < after.len() && 0 <= b < after.len() && a != b implies after[a]
                != after[b] by {
                let sa = if a < i { a } else { a - 1 };
                let sb = if b < i { b } else { b - 1 };
                if a != i && b != i {
                    assert(after[a] == all[sa]);
                    assert(after[b] == all[sb]);
                } else if a == i {
                    assert(after[b] == all[sb]);
                } else {
                    assert(after[a] == all[sa]);
                }
            }
        }
        self.entries.insert(i, (created, market));
    }

    /// The markets created at `min` or later, newest first.
    pub fn created_since(&self, min: UnixTimestamp) -> (r: Vec<CreatedMarket>)
        requires
            self.wf(),
        ensures
            r@ == self@.subrange(0, not_older_than(self@, min.0)),
            forall|i: int| 0 <= i < self@.len() ==> (r@.contains(#[trigger] self@[i]) <==> self@[i].0.0 >= min.0),
    {
        let ghost all = self.entries@;
        let mut out: Vec<CreatedMarket> = Vec::new();
        let mut i: usize = 0;
        proof {
            assert(all.subrange(0, all.len() as int) =~= all);
        }
        while i < self.entries.len() && self.entries[i].0.0 >= min.0
            invariant
                i <= all.len(),
                self.entries@ == all,
                out@ == all.subrange(0, i as int),
                not_older_than(all, min.0) == i + not_older_than(all.subrange(i as int, all.len() as int), min.0),
            decreases all.len() - i,
        {
            proof {
                let rest = all.subrange(i as int, all.len() as int);
                assert(rest[0] == all[i as int]);
                assert(rest.drop_first() =~= all.subrange(i + 1, all.len() as int));
                assert(all.subrange(0, i + 1) =~= all.subrange(0, i as int).push(all[i as int]));
            }
            out.push(self.entries[i]);
            i += 1;
        }
        proof {
            let rest = all.subrange(i as int, all.len() as int);
            if i < all.len() {
                assert(rest[0] == all[i as int]);
            }
            lemma_not_older_than(all, min.0);
            assert forall|k: int| 0 <= k < all.len() implies (out@.contains(#[trigger] all[k]) <==> all[k].0.0
                >= min.0) by {
                if k < i {
                    assert(out@[k] == all[k]);
                } else {
                    if i < all.len() && k > i {
                        assert(all[i as int].0.0 >= all[k].0.0);
                    }
                    if out@.contains(all[k]) {
                        let j = choose|j: int| 0 <= j < out@.len() && out@[j] == all[k];
                        assert(all[j] == all[k]);
                    }
                }
            }
        }
        out
    }
}

/// The markets that were created at one time.
pub type MarketsCreatedAt = (UnixTimestamp, Vec<OutPoint>);

/// The markets of `group`, each with the group's creation time.
pub open spec fn group_entries(group: MarketsCreatedAt) -> Seq<CreatedMarket> {
    group.1@.map_values(|market: OutPoint| (group.0, market))
}

/// The markets of all groups, one group after the other.
pub open spec fn ungrouped(groups: Seq<MarketsCreatedAt>) -> Seq<CreatedMarket>
    decreases groups.len(),
{
    if groups.len() == 0 {
        Seq::empty()
    } else {
        ungrouped(groups.drop_last()) + group_entries(groups.last())
    }
}

/// `groups` are the markets of `markets`, in the same order, with each run of
/// markets of one creation time brought together in one group.
pub open spec fn is_grouping(groups: Seq<MarketsCreatedAt>, markets: Seq<CreatedMarket>) -> bool {
    &&& ungrouped(groups) == markets
    &&& forall|g: int| 0 <= g < groups.len() ==> (#[trigger] groups[g]).1@.len() > 0
    &&& forall|g: int| 0 <= g < groups.len() - 1 ==> (#[trigger] groups[g]).0 != groups[g + 1].0
}

/// Brings the markets of each creation time together.
pub fn group_by_creation(markets: &Vec<CreatedMarket>) -> (groups: Vec<MarketsCreatedAt>)
    ensures
        is_grouping(groups@, markets@),
{
    let mut groups: Vec<MarketsCreatedAt> = Vec::new();
    let mut i: usize = 0;
    while i < markets.len()
        invariant
            i <= markets.len(),
            ungrouped(groups@) == markets@.subrange(0, i as int),
            forall|g: int| 0 <= g < groups@.len() ==> (#[trigger] groups@[g]).1@.len() > 0,
            forall|g: int| 0 <= g < groups@.len() - 1 ==> (#[trigger] groups@[g]).0 != groups@[g + 1].0,
            groups@.len() > 0 && i < markets.len() ==> groups@.last().0 != markets@[i as int].0,
        decreases markets.len() - i,
    {
        let created = markets[i].0;
        let ghost start = i;
        let ghost before = groups@;
        let mut group: Vec<OutPoint> = Vec::new();
        while i < markets.len() && markets[i].0 == created
            invariant
                start <= i <= markets.len(),
                markets@[start as int].0 == created,
                group@.len() == i - start,
                group@.map_values(|market: OutPoint| (created, market)) == markets@.subrange(start as int, i as int),
            decreases markets.len() - i,
        {
            let ghost run = group@;
            group.push(markets[i].1);
            proof {
                assert(group@.map_values(|market: OutPoint| (created, market)) =~= run.map_values(
                    |market: OutPoint| (created, market),
                ).push((created, markets@[i as int].1)));
                assert(markets@.subrange(start as int, i + 1) =~= markets@.subrange(start as int, i as int).push(
                    markets@[i as int],
                ));
            }
            i += 1;
        }
        groups.push((created, group));
        proof {
            assert(groups@.drop_last() =~= before);
            assert(groups@.last() == (created, group));
            assert(markets@.subrange(0, i as int) =~= markets@.subrange(0, start as int) + markets@.subrange(
                start as int,
                i as int,
            ));
            assert forall|g: int| 0 <= g < groups@.len() - 1 implies (#[trigger] groups@[g]).0 != groups@[g + 1].0 by {
                if g + 1 < before.len() {
                    assert(groups@[g] == before[g]);
                    assert(groups@[g + 1] == before[g + 1]);
                } else {
                    assert(groups@[g] == before.last());
                }
            }
        }
    }
    proof {
        assert(markets@.subrange(0, markets@.len() as int) =~= markets@);
    }
    groups
}

/// What the market cache holds, as mathematical values.
pub struct MarketCacheState {
    pub markets: Map<OutPoint, Market>,
    pub payout_control_markets: Seq<CreatedMarket>,
    pub proposals: Map<OutPoint, Vec<Proposal>>,
    pub saved_markets: Map<OutPoint, UnixTimestamp>,
    pub named_payout_controls: Map<Identity, String>,
}

impl MarketCacheState {
    /// The cache holds `market` with its payout set: the record is final.
    pub open spec fn is_settled(self, market: OutPoint) -> bool {
        self.markets.contains_key(market) && self.markets[market].payout is Some
    }

    /// Whether the federation has to be asked for `market`: the caller wants
    /// more than the cache, and the cache holds no final record.
    pub open spec fn needs_fetch(self, market: OutPoint, from_local_cache: bool) -> bool {
        !from_local_cache && !self.is_settled(market)
    }

    /// The cache after the federation's answer for `market` was written to
    /// it. Only a market that exists is written, and a final record stays.
    pub open spec fn record(self, market: OutPoint, fetched: Option<Market>) -> MarketCacheState {
        match fetched {
            Some(found) if !self.is_settled(market) => MarketCacheState {
                markets: self.markets.insert(market, found),
                ..self
            },
            _ => self,
        }
    }
}

/// The markets that the client knows, and what it has noted about them.
pub struct MarketCache {
    markets: KeyedList<OutPoint, Market>,
    payout_control_markets: PayoutControlMarkets,
    proposals: KeyedList<OutPoint, Vec<Proposal>>,
    saved_markets: KeyedList<OutPoint, UnixTimestamp>,
    named_payout_controls: KeyedList<Identity, String>,
}

impl View for MarketCache {
    type V = MarketCacheState;

    closed spec fn view(&self) -> MarketCacheState {
        MarketCacheState {
            markets: self.markets@,
            payout_control_markets: self.payout_control_markets@,
            proposals: self.proposals@,
            saved_markets: self.saved_markets@,
            named_payout_controls: self.named_payout_controls@,
        }
    }
}

/// What looking up a market in the cache comes to.
pub enum MarketLookup<'a> {
    /// The answer is in the cache: the market, or that none is known.
    Cached(Option<&'a Market>),
    /// The federation has to be asked.
    Fetch,
}

impl MarketCache {
    /// The representation is in order.
    pub closed spec fn wf(&self) -> bool {
        &&& self.markets.wf()
        &&& self.payout_control_markets.wf()
        &&& self.proposals.wf()
        &&& self.saved_markets.wf()
        &&& self.named_payout_controls.wf()
    }

    /// The index of the client's markets is kept newest first, each market once.
    pub proof fn lemma_index_order(&self)
        requires
            self.wf(),
        ensures
            newest_first(self@.payout_control_markets),
            self@.payout_control_markets.no_duplicates(),
    {
        self.payout_control_markets.lemma_wf();
    }

    /// A cache that knows no market.
    pub fn new() -> (cache: MarketCache)
        ensures
            cache.wf(),
            cache@.markets == Map::<OutPoint, Market>::empty(),
            cache@.payout_control_markets == Seq::<CreatedMarket>::empty(),
            cache@.proposals == Map::<OutPoint, Vec<Proposal>>::empty(),
            cache@.saved_markets == Map::<OutPoint, UnixTimestamp>::empty(),
            cache@.named_payout_controls == Map::<Identity, String>::empty(),
    {
        MarketCache {
            markets: KeyedList::new(),
            payout_control_markets: PayoutControlMarkets::new(),
            proposals: KeyedList::new(),
            saved_markets: KeyedList::new(),
            named_payout_controls: KeyedList::new(),
        }
    }

    /// Looks a market up. From the cache alone the answer is what the cache
    /// holds. Otherwise a market whose payout is set is answered from the
    /// cache, since it cannot change any more, and every other market has to
    /// be fetched.
    pub fn get_market(&self, market: &OutPoint, from_local_cache: bool) -> (r: MarketLookup<'_>)
        requires
            self.wf(),
        ensures
            r is Fetch <==> self@.needs_fetch(*market, from_local_cache),
            r matches MarketLookup::Cached(found) ==> {
                &&& found is Some <==> self@.markets.contains_key(*market)
                &&& found matches Some(known) ==> *known == self@.markets[*market]
            },
    {
        let cached = self.markets.get(market);
        if from_local_cache {
            return MarketLookup::Cached(cached);
        }
        match cached {
            Some(known) => {
                if known.payout.is_some() {
                    MarketLookup::Cached(cached)
                } else {
                    MarketLookup::Fetch
                }
            },
            None => MarketLookup::Fetch,
        }
    }

    /// Writes the federation's answer for a market to the cache.
    pub fn record_market(&mut self, market: OutPoint, fetched: Option<Market>)
        requires
            old(self).wf(),
        ensures
            final(self).wf(),
            final(self)@ == old(self)@.record(market, fetched),
    {
        let settled = match self.markets.get(&market) {
            Some(known) => known.payout.is_some(),
            None => false,
        };
        if !settled {
            match fetched {
                Some(found) => {
                    self.markets.insert(market, found);
                },
                None => {},
            }
        }
    }

    /// The creation time from which on the federation is to be asked for the
    /// client's markets: that of the newest market already in the index.
    pub fn newest_payout_control_market(&self) -> (created: UnixTimestamp)
        requires
            self.wf(),
        ensures
            created == if self@.payout_control_markets.len() == 0 {
                UnixTimestamp(0)
            } else {
                self@.payout_control_markets[0].0
            },
    {
        self.payout_control_markets.newest()
    }

    /// Puts a market over which the client has a say into the index.
    pub fn add_payout_control_market(&mut self, created: UnixTimestamp, market: OutPoint)
        requires
            old(self).wf(),
        ensures
            final(self).wf(),
            final(self)@ == (MarketCacheState {
                payout_control_markets: if old(self)@.payout_control_markets.contains((created, market)) {
                    old(self)@.payout_control_markets
                } else {
                    old(self)@.payout_control_markets.insert(
                        not_older_than(old(self)@.payout_control_markets, created.0),
                        (created, market),
                    )
                },
                ..old(self)@
            }),
    {
        self.payout_control_markets.insert(created, market);
    }

    /// The markets over which the client has a say and which were created at
    /// `markets_created_after_and_including` or later, newest first.
    pub fn get_client_payout_control_markets(&self, markets_created_after_and_including: UnixTimestamp) -> (r: Vec<
        CreatedMarket,
    >)
        requires
            self.wf(),
        ensures
            r@ == self@.payout_control_markets.subrange(
                0,
                not_older_than(self@.payout_control_markets, markets_created_after_and_including.0),
            ),
            forall|i: int|
                0 <= i < self@.payout_control_markets.len() ==> (r@.contains(
                    #[trigger] self@.payout_control_markets[i],
                ) <==> self@.payout_control_markets[i].0.0 >= markets_created_after_and_including.0),
    {
        self.payout_control_markets.created_since(markets_created_after_and_including)
    }

    /// The proposals cached for a market, if any were fetched for it.
    pub fn get_market_payout_control_proposals(&self, market: &OutPoint) -> (r: Option<&Vec<Proposal>>)
        requires
            self.wf(),
        ensures
            r is Some <==> self@.proposals.contains_key(*market),
            r matches Some(proposals) ==> *proposals == self@.proposals[*market],
    {
        self.proposals.get(market)
    }

    /// Puts the proposals fetched for a market in the place of those cached for it.
    pub fn set_market_payout_control_proposals(&mut self, market: OutPoint, proposals: Vec<Proposal>)
        requires
            old(self).wf(),
        ensures
            final(self).wf(),
            final(self)@ == (MarketCacheState {
                proposals: old(self)@.proposals.insert(market, proposals),
                ..old(self)@
            }),
    {
        self.proposals.insert(market, proposals);
    }

    /// Bookmarks a market, with the time at which that was done.
    pub fn save_market(&mut self, market: OutPoint, now: UnixTimestamp)
        requires
            old(self).wf(),
        ensures
            final(self).wf(),
            final(self)@ == (MarketCacheState {
                saved_markets: old(self)@.saved_markets.insert(market, now),
                ..old(self)@
            }),
    {
        self.saved_markets.insert(market, now);
    }

    /// Takes the bookmark off a market.
    pub fn unsave_market(&mut self, market: &OutPoint)
        requires
            old(self).wf(),
        ensures
            final(self).wf(),
            final(self)@ == (MarketCacheState {
                saved_markets: old(self)@.saved_markets.remove(*market),
                ..old(self)@
            }),
    {
        self.saved_markets.remove(market);
    }

    /// The bookmarked markets, each with the time at which it was bookmarked.
    pub fn get_saved_markets(&self) -> (r: Vec<(UnixTimestamp, OutPoint)>)
        requires
            self.wf(),
        ensures
            r@.len() == self@.saved_markets.dom().len(),
            forall|i: int|
                0 <= i < r@.len() ==> self@.saved_markets.contains_key((#[trigger] r@[i]).1)
                    && self@.saved_markets[r@[i].1] == r@[i].0,
            forall|market: OutPoint|
                self@.saved_markets.contains_key(market) ==> r@.contains((self@.saved_markets[market], market)),
    {
        let n = self.saved_markets.len();
        let ghost keys = self.saved_markets.keys();
        let mut out: Vec<(UnixTimestamp, OutPoint)> = Vec::new();
        let mut i: usize = 0;
        while i < n
            invariant
                i <= n,
                n == keys.len(),
                keys == self.saved_markets.keys(),
                self.saved_markets.wf(),
                out@.len() == i,
                forall|j: int|
                    0 <= j < i ==> (#[trigger] out@[j]).1 == keys[j] && self.saved_markets@.contains_key(keys[j])
                        && out@[j].0 == self.saved_markets@[keys[j]],
            decreases n - i,
        {
            let market = *self.saved_markets.key_at(i);
            let saved = *self.saved_markets.value_at(i);
            out.push((saved, market));
            i += 1;
        }
        proof {
            assert forall|market: OutPoint| self@.saved_markets.contains_key(market) implies out@.contains(
                (self@.saved_markets[market], market),
            ) by {
                assert(keys.contains(market));
                let j = choose|j: int| 0 <= j < keys.len() && keys[j] == market;
                assert(out@[j] == (self@.saved_markets[market], market));
            }
            keys.unique_seq_to_set();
            assert(keys.to_set() =~= self@.saved_markets.dom());
        }
        out
    }

    /// Gives a payout control a name.
    pub fn assign_name_to_payout_control(&mut self, payout_control: Identity, name: String)
        requires
            old(self).wf(),
        ensures
            final(self).wf(),
            final(self)@ == (MarketCacheState {
                named_payout_controls: old(self)@.named_payout_controls.insert(payout_control, name),
                ..old(self)@
            }),
    {
        self.named_payout_controls.insert(payout_control, name);
    }

    /// Takes the name off a payout control.
    pub fn unassign_name_from_payout_control(&mut self, payout_control: &Identity)
        requires
            old(self).wf(),
        ensures
            final(self).wf(),
            final(self)@ == (MarketCacheState {
                named_payout_controls: old(self)@.named_payout_controls.remove(*payout_control),
                ..old(self)@
            }),
    {
        self.named_payout_controls.remove(payout_control);
    }

    /// The name given to a payout control, if it has one.
    pub fn get_payout_control_name(&self, payout_control: &Identity) -> (r: Option<&String>)
        requires
            self.wf(),
        ensures
            r is Some <==> self@.named_payout_controls.contains_key(*payout_control),
            r matches Some(name) ==> *name == self@.named_payout_controls[*payout_control],
    {
        self.named_payout_controls.get(payout_control)
    }

    /// The markets of the cache, each under the output that created it.
    pub fn markets(&self) -> (r: &KeyedList<OutPoint, Market>)
        requires
            self.wf(),
        ensures
            r.wf(),
            r@ == self@.markets,
    {
        &self.markets
    }

    /// The proposals of the cache, those of each market under that market.
    pub fn proposals(&self) -> (r: &KeyedList<OutPoint, Vec<Proposal>>)
        requires
            self.wf(),
        ensures
            r.wf(),
            r@ == self@.proposals,
    {
        &self.proposals
    }

    /// The payout controls that have a name, each with its name.
    pub fn get_payout_control_name_map(&self) -> (r: &KeyedList<Identity, String>)
        requires
            self.wf(),
        ensures
            r.wf(),
            r@ == self@.named_payout_controls,
    {
        &self.named_payout_controls
    }
}

} // verus!
