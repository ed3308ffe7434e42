//! Which markets the application keeps open: reference counts held by chart
//! panels (one for the market, one for its order book), the sorted lists of wanted
//! markets derived from them, and the decision of when to send them again.

use vstd::prelude::*;
use crate::keys::{CoreId, MarketKey};
use crate::refs::{KeyView, RefTable, count_in, key_views, lists_domain};

verus! {

/// Counts after one more reference to `k`.
pub open spec fn retained(m: Map<KeyView, nat>, k: KeyView) -> Map<KeyView, nat> {
    m.insert(k, count_in(m, k) + 1)
}

/// Counts after one reference to `k` is dropped (a key at 0 leaves the map).
pub open spec fn released(m: Map<KeyView, nat>, k: KeyView) -> Map<KeyView, nat> {
    if count_in(m, k) > 1 {
        m.insert(k, (count_in(m, k) - 1) as nat)
    } else {
        m.remove(k)
    }
}

/// All counts of `m` are positive.
pub open spec fn all_positive(m: Map<KeyView, nat>) -> bool {
    forall|k: KeyView| m.dom().contains(k) ==> m[k] > 0
}

/// Dropping a reference right after taking it gives the same counts back.
pub proof fn law_release_undoes_retain(m: Map<KeyView, nat>, k: KeyView)
    requires
        all_positive(m),
    ensures
        released(retained(m, k), k) == m,
{
    let r = retained(m, k);
    assert(count_in(r, k) == count_in(m, k) + 1);
    if m.dom().contains(k) {
        assert(released(r, k) =~= m);
    } else {
        assert(released(r, k) =~= m);
    }
}

/// Taking a reference keeps the key wanted; dropping the last one removes it.
pub proof fn law_wanted_iff_referenced(m: Map<KeyView, nat>, k: KeyView)
    requires
        all_positive(m),
    ensures
        retained(m, k).dom().contains(k),
        count_in(m, k) <= 1 ==> !released(m, k).dom().contains(k),
        count_in(m, k) > 1 ==> released(m, k).dom().contains(k),
        all_positive(retained(m, k)),
        all_positive(released(m, k)),
{
}

/// Taking a reference keeps every count positive.
pub proof fn lemma_retained_positive(m: Map<KeyView, nat>, k: KeyView)
    requires
        all_positive(m),
    ensures
        all_positive(retained(m, k)),
{
}

/// Market subscriptions wanted by the visible charts.
pub struct MarketRefs {
    markets: RefTable,
    orderbook: RefTable,
    desired: Vec<MarketKey>,
    desired_orderbook: Vec<MarketKey>,
    desired_open_dirty: bool,
    chart_market_refs_epoch: u64,
    last_open_sync_ms: u64,
}

/// What to send to the sessions: the wanted markets and the markets whose order
/// book is wanted.
pub struct OpenSet {
    pub markets: Vec<MarketKey>,
    pub orderbook: Vec<MarketKey>,
}

impl MarketRefs {
    pub closed spec fn wf(self) -> bool {
        &&& self.markets.wf()
        &&& self.orderbook.wf()
        &&& lists_domain(key_views(self.desired@), self.markets@)
        &&& lists_domain(key_views(self.desired_orderbook@), self.orderbook@)
    }

    /// Counts of chart references per market.
    pub closed spec fn market_counts(self) -> Map<KeyView, nat> {
        self.markets@
    }

    /// Counts of order-book references per market.
    pub closed spec fn orderbook_counts(self) -> Map<KeyView, nat> {
        self.orderbook@
    }

    pub closed spec fn desired_view(self) -> Seq<KeyView> {
        key_views(self.desired@)
    }

    pub closed spec fn desired_orderbook_view(self) -> Seq<KeyView> {
        key_views(self.desired_orderbook@)
    }

    pub closed spec fn dirty(self) -> bool {
        self.desired_open_dirty
    }

    pub closed spec fn epoch(self) -> u64 {
        self.chart_market_refs_epoch
    }

    pub closed spec fn last_sync_ms(self) -> u64 {
        self.last_open_sync_ms
    }

    /// The wanted lists always list the referenced markets in increasing order, and
    /// every count is positive.
    pub proof fn lemma_wf_lists(self)
        requires
            self.wf(),
        ensures
            lists_domain(self.desired_view(), self.market_counts()),
            lists_domain(self.desired_orderbook_view(), self.orderbook_counts()),
            all_positive(self.market_counts()),
            all_positive(self.orderbook_counts()),
    {
        self.markets.lemma_all_positive();
        self.orderbook.lemma_all_positive();
    }

    /// Nothing referenced, a send due at once (`last_open_sync_ms` is 10 s before `now_ms`).
    pub fn new(now_ms: u64) -> (r: MarketRefs)
        ensures
            r.wf(),
            r.market_counts() == Map::<KeyView, nat>::empty(),
            r.orderbook_counts() == Map::<KeyView, nat>::empty(),
            r.dirty(),
            r.epoch() == 0,
            r.last_sync_ms() == if now_ms >= 10_000 { (now_ms - 10_000) as u64 } else { 0u64 },
    {
        let markets = RefTable::new();
        let orderbook = RefTable::new();
        let desired = markets.sorted_keys();
        let desired_orderbook = orderbook.sorted_keys();
        MarketRefs {
            markets,
            orderbook,
            desired,
            desired_orderbook,
            desired_open_dirty: true,
            chart_market_refs_epoch: 0,
            last_open_sync_ms: if now_ms >= 10_000 { now_ms - 10_000 } else { 0 },
        }
    }

    /// The wanted markets (sorted).
    pub fn desired(&self) -> (r: &Vec<MarketKey>)
        ensures
            key_views(r@) == self.desired_view(),
    {
        &self.desired
    }

    /// The markets whose order book is wanted (sorted).
    pub fn desired_orderbook(&self) -> (r: &Vec<MarketKey>)
        ensures
            key_views(r@) == self.desired_orderbook_view(),
    {
        &self.desired_orderbook
    }

    /// Reset generation: bumped whenever all references are dropped at once.
    pub fn chart_market_refs_epoch(&self) -> (r: u64)
        ensures
            r == self.epoch(),
    {
        self.chart_market_refs_epoch
    }

    /// Whether the wanted lists changed since they were last sent.
    pub fn desired_open_dirty(&self) -> (r: bool)
        ensures
            r == self.dirty(),
    {
        self.desired_open_dirty
    }

    /// Recompute the wanted markets from the counts; mark dirty when they changed.
    fn rebuild_desired_markets(&mut self)
        requires
            old(self).markets.wf(),
        ensures
            final(self).markets == old(self).markets,
            final(self).orderbook == old(self).orderbook,
            final(self).desired_orderbook == old(self).desired_orderbook,
            lists_domain(key_views(final(self).desired@), final(self).markets@),
            final(self).desired_open_dirty == (old(self).desired_open_dirty
                || key_views(old(self).desired@) != key_views(final(self).desired@)),
            final(self).chart_market_refs_epoch == old(self).chart_market_refs_epoch,
            final(self).last_open_sync_ms == old(self).last_open_sync_ms,
    {
        let desired = self.markets.sorted_keys();
        if !crate::refs::keys_equal(&self.desired, &desired) {
            self.desired = desired;
            self.desired_open_dirty = true;
        }
    }

    /// Recompute the markets whose order book is wanted; mark dirty when they changed.
    fn rebuild_orderbook_wanted(&mut self)
        requires
            old(self).orderbook.wf(),
        ensures
            final(self).markets == old(self).markets,
            final(self).orderbook == old(self).orderbook,
            final(self).desired == old(self).desired,
            lists_domain(key_views(final(self).desired_orderbook@), final(self).orderbook@),
            final(self).desired_open_dirty == (old(self).desired_open_dirty
                || key_views(old(self).desired_orderbook@) != key_views(final(self).desired_orderbook@)),
            final(self).chart_market_refs_epoch == old(self).chart_market_refs_epoch,
            final(self).last_open_sync_ms == old(self).last_open_sync_ms,
    {
        let want = self.orderbook.sorted_keys();
        if !crate::refs::keys_equal(&self.desired_orderbook, &want) {
            self.desired_orderbook = want;
            self.desired_open_dirty = true;
        }
    }

    /// A chart starts showing `(core, market)`.
    pub fn retain_chart_market(&mut self, core: CoreId, market: &str)
        requires
            old(self).wf(),
            count_in(old(self).market_counts(), (core, market@)) < usize::MAX,
        ensures
            final(self).wf(),
            final(self).market_counts() == retained(old(self).market_counts(), (core, market@)),
            final(self).orderbook_counts() == old(self).orderbook_counts(),
            final(self).dirty() == (old(self).dirty() || !old(self).market_counts().dom().contains((core, market@))),
            final(self).epoch() == old(self).epoch(),
            final(self).last_sync_ms() == old(self).last_sync_ms(),
    {
        let key = MarketKey { core, market: market.to_owned() };
        self.markets.retain(&key);
        self.rebuild_desired_markets();
        proof {
            if old(self).markets@.dom().contains(key@) {
                assert(self.markets@.dom() =~= old(self).markets@.dom());
            } else {
                assert(self.markets@.dom().contains(key@));
            }
            lemma_lists_differ(key_views(old(self).desired@), old(self).markets@,
                key_views(self.desired@), self.markets@);
        }
    }

    /// A chart stops showing `(core, market)`; releasing a market not held changes nothing.
    pub fn release_chart_market(&mut self, core: CoreId, market: &str)
        requires
            old(self).wf(),
        ensures
            final(self).wf(),
            final(self).market_counts() == released(old(self).market_counts(), (core, market@)),
            final(self).orderbook_counts() == old(self).orderbook_counts(),
            final(self).dirty() == (old(self).dirty() || count_in(old(self).market_counts(), (core, market@)) == 1),
            final(self).epoch() == old(self).epoch(),
            final(self).last_sync_ms() == old(self).last_sync_ms(),
    {
        let key = MarketKey { core, market: market.to_owned() };
        self.markets.release(&key);
        self.rebuild_desired_markets();
        proof {
            old(self).markets.lemma_all_positive();
            if count_in(old(self).markets@, key@) == 1 {
                assert(old(self).markets@.dom().contains(key@));
                assert(!self.markets@.dom().contains(key@));
            } else {
                assert(self.markets@.dom() =~= old(self).markets@.dom());
            }
            lemma_lists_differ(key_views(old(self).desired@), old(self).markets@,
                key_views(self.desired@), self.markets@);
        }
    }

    /// A chart with its order book on starts showing `(core, market)`.
    pub fn retain_chart_orderbook(&mut self, core: CoreId, market: &str)
        requires
            old(self).wf(),
            count_in(old(self).orderbook_counts(), (core, market@)) < usize::MAX,
        ensures
            final(self).wf(),
            final(self).orderbook_counts() == retained(old(self).orderbook_counts(), (core, market@)),
            final(self).market_counts() == old(self).market_counts(),
            final(self).dirty() == (old(self).dirty() || !old(self).orderbook_counts().dom().contains((core, market@))),
            final(self).epoch() == old(self).epoch(),
            final(self).last_sync_ms() == old(self).last_sync_ms(),
    {
        let key = MarketKey { core, market: market.to_owned() };
        self.orderbook.retain(&key);
        self.rebuild_orderbook_wanted();
        proof {
            if old(self).orderbook@.dom().contains(key@) {
                assert(self.orderbook@.dom() =~= old(self).orderbook@.dom());
            } else {
                assert(self.orderbook@.dom().contains(key@));
            }
            lemma_lists_differ(key_views(old(self).desired_orderbook@), old(self).orderbook@,
                key_views(self.desired_orderbook@), self.orderbook@);
        }
    }

    /// A chart stops wanting the order book of `(core, market)`.
    pub fn release_chart_orderbook(&mut self, core: CoreId, market: &str)
        requires
            old(self).wf(),
        ensures
            final(self).wf(),
            final(self).orderbook_counts() == released(old(self).orderbook_counts(), (core, market@)),
            final(self).market_counts() == old(self).market_counts(),
            final(self).dirty() == (old(self).dirty() || count_in(old(self).orderbook_counts(), (core, market@)) == 1),
            final(self).epoch() == old(self).epoch(),
            final(self).last_sync_ms() == old(self).last_sync_ms(),
    {
        let key = MarketKey { core, market: market.to_owned() };
        self.orderbook.release(&key);
        self.rebuild_orderbook_wanted();
        proof {
            old(self).orderbook.lemma_all_positive();
            if count_in(old(self).orderbook@, key@) == 1 {
                assert(old(self).orderbook@.dom().contains(key@));
                assert(!self.orderbook@.dom().contains(key@));
            } else {
                assert(self.orderbook@.dom() =~= old(self).orderbook@.dom());
            }
            lemma_lists_differ(key_views(old(self).desired_orderbook@), old(self).orderbook@,
                key_views(self.desired_orderbook@), self.orderbook@);
        }
    }

    /// Drop every reference at once (after the sessions were restarted); panels notice
    /// the new epoch and register again.
    pub fn reset_chart_market_refs(&mut self)
        requires
            old(self).wf(),
        ensures
            final(self).wf(),
            final(self).market_counts() == Map::<KeyView, nat>::empty(),
            final(self).orderbook_counts() == Map::<KeyView, nat>::empty(),
            final(self).dirty(),
            final(self).epoch() == (old(self).epoch() + 1) % 0x1_0000_0000_0000_0000,
            final(self).last_sync_ms() == old(self).last_sync_ms(),
    {
        self.markets.clear();
        self.orderbook.clear();
        self.desired.clear();
        self.desired_orderbook.clear();
        self.chart_market_refs_epoch = self.chart_market_refs_epoch.wrapping_add(1);
        self.desired_open_dirty = true;
        proof {
            assert(key_views(self.desired@) =~= Seq::<KeyView>::empty());
            assert(key_views(self.desired_orderbook@) =~= Seq::<KeyView>::empty());
        }
    }

    /// Once the lists changed, or at least a second after the last send, hand the
    /// lists out to be sent and clear the dirty mark; otherwise `None`.
    pub fn sync_open_markets_if_due(&mut self, now_ms: u64) -> (r: Option<OpenSet>)
        requires
            old(self).wf(),
        ensures
            final(self).wf(),
            final(self).market_counts() == old(self).market_counts(),
            final(self).orderbook_counts() == old(self).orderbook_counts(),
            final(self).epoch() == old(self).epoch(),
            final(self).desired_view() == old(self).desired_view(),
            final(self).desired_orderbook_view() == old(self).desired_orderbook_view(),
            ({
                let due = now_ms >= old(self).last_sync_ms() + 1000;
                if old(self).dirty() || due {
                    &&& r is Some
                    &&& key_views(r->0.markets@) == old(self).desired_view()
                    &&& key_views(r->0.orderbook@) == old(self).desired_orderbook_view()
                    &&& !final(self).dirty()
                    &&& final(self).last_sync_ms() == now_ms
                } else {
                    &&& r is None
                    &&& final(self).dirty() == old(self).dirty()
                    &&& final(self).last_sync_ms() == old(self).last_sync_ms()
                }
            }),
    {
        let due = now_ms >= self.last_open_sync_ms && now_ms - self.last_open_sync_ms >= 1000;
        if self.desired_open_dirty || due {
            self.desired_open_dirty = false;
            self.last_open_sync_ms = now_ms;
            let markets = clone_keys(&self.desired);
            let orderbook = clone_keys(&self.desired_orderbook);
            Some(OpenSet { markets, orderbook })
        } else {
            None
        }
    }
}

/// Two sorted listings of maps differ exactly when the key sets differ.
proof fn lemma_lists_differ(s1: Seq<KeyView>, m1: Map<KeyView, nat>, s2: Seq<KeyView>, m2: Map<KeyView, nat>)
    requires
        lists_domain(s1, m1),
        lists_domain(s2, m2),
    ensures
        (s1 == s2) <==> (m1.dom() == m2.dom()),
{
    if m1.dom() =~= m2.dom() {
        crate::refs::lemma_sorted_unique(s1, s2);
    }
    if s1 == s2 {
        assert forall|k: KeyView| m1.dom().contains(k) <==> m2.dom().contains(k) by {
            assert(s1.contains(k) <==> m1.dom().contains(k));
            assert(s2.contains(k) <==> m2.dom().contains(k));
        }
        assert(m1.dom() =~= m2.dom());
    }
}

/// The wanted lists of `b` differ from those of `a`.
pub open spec fn lists_changed(a: MarketRefs, b: MarketRefs) -> bool {
    a.desired_view() != b.desired_view() || a.desired_orderbook_view() != b.desired_orderbook_view()
}

/// The wanted lists change exactly when the set of referenced markets, or of markets
/// whose order book is referenced, changes.
pub proof fn lemma_lists_changed(a: MarketRefs, b: MarketRefs)
    requires
        a.wf(),
        b.wf(),
    ensures
        lists_changed(a, b) == (a.market_counts().dom() != b.market_counts().dom()
            || a.orderbook_counts().dom() != b.orderbook_counts().dom()),
{
    a.lemma_wf_lists();
    b.lemma_wf_lists();
    lemma_lists_differ(a.desired_view(), a.market_counts(), b.desired_view(), b.market_counts());
    lemma_lists_differ(a.desired_orderbook_view(), a.orderbook_counts(), b.desired_orderbook_view(), b.orderbook_counts());
}

/// Copy of a list of keys.
pub fn clone_keys(v: &Vec<MarketKey>) -> (r: Vec<MarketKey>)
    ensures
        key_views(r@) == key_views(v@),
{
    let mut out: Vec<MarketKey> = Vec::new();
    let mut i: usize = 0;
    while i < v.len()
        invariant
            i <= v@.len(),
            key_views(out@) =~= key_views(v@).subrange(0, i as int),
        decreases v@.len() - i,
    {
        let ghost prev = out@;
        out.push(crate::keys::clone_key(&v[i]));
        proof {
            assert(key_views(out@) =~= key_views(prev).push(v@[i as int]@));
            assert(key_views(v@).subrange(0, i + 1) =~= key_views(v@).subrange(0, i as int).push(v@[i as int]@));
        }
        i = i + 1;
    }
    proof {
        assert(key_views(v@).subrange(0, v@.len() as int) =~= key_views(v@));
    }
    out
}

} // verus!
