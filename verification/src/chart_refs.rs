//! The markets one chart panel holds references to, kept in step with the shared
//! reference counts in [`MarketRefs`].

use vstd::prelude::*;
use crate::keys::{CoreId, MarketKey};
use crate::markets::{MarketRefs, all_positive, lists_changed, released, retained};
use crate::refs::{KeyView, RefTable, count_in, key_views};

verus! {

/// Count of one key after the panel's order-book references were brought in line:
/// one more when the key became wanted, one less (not below 0) when it stopped.
pub open spec fn shifted(c: nat, plus: bool, minus: bool) -> nat {
    if plus {
        c + 1
    } else if minus && c > 0 {
        (c - 1) as nat
    } else {
        c
    }
}

/// The order books a panel should hold: its markets while the order book is shown.
pub open spec fn wanted_orderbook(registered: Set<KeyView>, enabled: bool) -> Set<KeyView> {
    if enabled {
        registered
    } else {
        Set::empty()
    }
}

/// `m2` differs from `m1` only where the panel's order-book references moved.
pub open spec fn orderbook_moved(m1: Map<KeyView, nat>, m2: Map<KeyView, nat>, held: Set<KeyView>, want: Set<KeyView>) -> bool {
    forall|q: KeyView| #[trigger] count_in(m2, q) == shifted(count_in(m1, q), want.contains(q) && !held.contains(q), held.contains(q) && !want.contains(q))
}

/// Two maps with positive counts and the same count for every key are equal.
pub proof fn lemma_counts_determine(a: Map<KeyView, nat>, b: Map<KeyView, nat>)
    requires
        all_positive(a),
        all_positive(b),
        forall|q: KeyView| #[trigger] count_in(a, q) == count_in(b, q),
    ensures
        a == b,
{
    assert forall|q: KeyView| a.dom().contains(q) <==> b.dom().contains(q) by {
        assert(count_in(a, q) == count_in(b, q));
    }
    assert forall|q: KeyView| a.dom().contains(q) implies a[q] == b[q] by {
        assert(count_in(a, q) == count_in(b, q));
    }
    assert(a =~= b);
}

/// A panel registering a market it already shows leaves the order-book counts as
/// they were.
pub proof fn law_second_registration_is_free(reg: Set<KeyView>, k: KeyView, enabled: bool,
    ob1: Map<KeyView, nat>, ob2: Map<KeyView, nat>)
    requires
        reg.contains(k),
        all_positive(ob1),
        all_positive(ob2),
        orderbook_moved(ob1, ob2, wanted_orderbook(reg, enabled), wanted_orderbook(reg.insert(k), enabled)),
    ensures
        ob2 == ob1,
{
    assert(reg.insert(k) =~= reg);
    assert forall|q: KeyView| #[trigger] count_in(ob1, q) == count_in(ob2, q) by {
    }
    lemma_counts_determine(ob1, ob2);
}

/// A panel showing a new market and then dropping it gives the shared order-book
/// counts back as they were.
pub proof fn law_panel_release_undoes_retain(reg: Set<KeyView>, k: KeyView, enabled: bool,
    ob0: Map<KeyView, nat>, ob1: Map<KeyView, nat>, ob2: Map<KeyView, nat>)
    requires
        !reg.contains(k),
        all_positive(ob0),
        all_positive(ob2),
        orderbook_moved(ob0, ob1, wanted_orderbook(reg, enabled), wanted_orderbook(reg.insert(k), enabled)),
        orderbook_moved(ob1, ob2, wanted_orderbook(reg.insert(k), enabled), wanted_orderbook(reg.insert(k).remove(k), enabled)),
    ensures
        ob2 == ob0,
{
    assert(reg.insert(k).remove(k) =~= reg);
    assert forall|q: KeyView| #[trigger] count_in(ob0, q) == count_in(ob2, q) by {
        assert(count_in(ob1, q) == shifted(count_in(ob0, q),
            wanted_orderbook(reg.insert(k), enabled).contains(q) && !wanted_orderbook(reg, enabled).contains(q),
            wanted_orderbook(reg, enabled).contains(q) && !wanted_orderbook(reg.insert(k), enabled).contains(q)));
        assert(count_in(ob2, q) == shifted(count_in(ob1, q),
            wanted_orderbook(reg, enabled).contains(q) && !wanted_orderbook(reg.insert(k), enabled).contains(q),
            wanted_orderbook(reg.insert(k), enabled).contains(q) && !wanted_orderbook(reg, enabled).contains(q)));
    }
    lemma_counts_determine(ob0, ob2);
}

/// References of one chart panel: its markets, the order books it holds, whether it
/// shows order books, and the reset generation of the shared counts they belong to.
pub struct ChartMarketRefs {
    registered_markets: RefTable,
    registered_orderbook: RefTable,
    market_ref_epoch: u64,
    orderbook_enabled: bool,
}

impl ChartMarketRefs {
    pub closed spec fn registered(self) -> Set<KeyView> {
        self.registered_markets@.dom()
    }

    pub closed spec fn holds_orderbook(self) -> Set<KeyView> {
        self.registered_orderbook@.dom()
    }

    pub closed spec fn epoch(self) -> u64 {
        self.market_ref_epoch
    }

    pub closed spec fn shows_orderbook(self) -> bool {
        self.orderbook_enabled
    }

    pub closed spec fn tables_wf(self) -> bool {
        &&& self.registered_markets.wf()
        &&& self.registered_orderbook.wf()
        &&& forall|k: KeyView| self.registered_markets@.dom().contains(k) ==> self.registered_markets@[k] == 1
        &&& forall|k: KeyView| self.registered_orderbook@.dom().contains(k) ==> self.registered_orderbook@[k] == 1
    }

    /// Well formed: the order books held are exactly the wanted ones.
    pub closed spec fn wf(self) -> bool {
        &&& self.tables_wf()
        &&& self.holds_orderbook() == wanted_orderbook(self.registered(), self.orderbook_enabled)
    }

    /// A panel with no market, showing order books, in the current generation.
    pub fn new(backend: &MarketRefs) -> (r: ChartMarketRefs)
        ensures
            r.wf(),
            r.registered() == Set::<KeyView>::empty(),
            r.epoch() == backend.epoch(),
            r.shows_orderbook(),
    {
        let r = ChartMarketRefs {
            registered_markets: RefTable::new(),
            registered_orderbook: RefTable::new(),
            market_ref_epoch: backend.chart_market_refs_epoch(),
            orderbook_enabled: true,
        };
        assert(r.registered() =~= Set::<KeyView>::empty());
        assert(r.holds_orderbook() =~= wanted_orderbook(r.registered(), true));
        r
    }

    /// Whether the panel shows order books.
    pub fn orderbook_enabled(&self) -> (r: bool)
        ensures
            r == self.shows_orderbook(),
    {
        self.orderbook_enabled
    }

    /// Forget the references taken before the shared counts were reset.
    pub fn sync_market_ref_epoch(&mut self, backend: &MarketRefs)
        requires
            old(self).wf(),
        ensures
            final(self).wf(),
            final(self).epoch() == backend.epoch(),
            final(self).shows_orderbook() == old(self).shows_orderbook(),
            old(self).epoch() == backend.epoch() ==> final(self).registered() == old(self).registered(),
            old(self).epoch() != backend.epoch() ==> final(self).registered() == Set::<KeyView>::empty(),
    {
        let epoch = backend.chart_market_refs_epoch();
        if self.market_ref_epoch != epoch {
            self.registered_markets.clear();
            self.registered_orderbook.clear();
            self.market_ref_epoch = epoch;
            assert(self.registered() =~= Set::<KeyView>::empty());
            assert(self.holds_orderbook() =~= wanted_orderbook(self.registered(), self.orderbook_enabled));
        }
    }

    /// Bring the order-book references in line with the markets shown: release the
    /// ones no longer wanted, take the missing ones.
    fn sync_orderbook_refs(&mut self, backend: &mut MarketRefs)
        requires
            old(self).tables_wf(),
            old(backend).wf(),
            old(self).shows_orderbook() ==> forall|q: KeyView| old(self).registered().contains(q) && !old(self).holds_orderbook().contains(q)
                ==> count_in(old(backend).orderbook_counts(), q) < usize::MAX,
        ensures
            final(self).wf(),
            final(self).registered() == old(self).registered(),
            final(self).epoch() == old(self).epoch(),
            final(self).shows_orderbook() == old(self).shows_orderbook(),
            final(backend).wf(),
            final(backend).market_counts() == old(backend).market_counts(),
            final(backend).epoch() == old(backend).epoch(),
            final(backend).last_sync_ms() == old(backend).last_sync_ms(),
            orderbook_moved(old(backend).orderbook_counts(), final(backend).orderbook_counts(),
                old(self).holds_orderbook(), wanted_orderbook(old(self).registered(), old(self).shows_orderbook())),
            final(backend).dirty() == (old(backend).dirty()
                || final(backend).orderbook_counts().dom() != old(backend).orderbook_counts().dom()),
    {
        let ghost reg = self.registered();
        let ghost held0 = self.holds_orderbook();
        let ghost want = wanted_orderbook(reg, self.orderbook_enabled);
        let ghost ob0 = backend.orderbook_counts();
        proof {
            backend.lemma_wf_lists();
        }
        let enabled = self.orderbook_enabled;
        let cur = self.registered_orderbook.sorted_keys();
        let mut i: usize = 0;
        while i < cur.len()
            invariant
                self.tables_wf(),
                self.registered() == reg,
                self.epoch() == old(self).epoch(),
                self.shows_orderbook() == enabled,
                want == wanted_orderbook(reg, enabled),
                backend.wf(),
                backend.market_counts() == old(backend).market_counts(),
                backend.epoch() == old(backend).epoch(),
                backend.last_sync_ms() == old(backend).last_sync_ms(),
                crate::refs::lists_domain(key_views(cur@), old(self).registered_orderbook@),
                held0 == old(self).registered_orderbook@.dom(),
                i <= cur@.len(),
                forall|q: KeyView| #[trigger] self.holds_orderbook().contains(q) <==>
                    (held0.contains(q) && !(key_views(cur@).subrange(0, i as int).contains(q) && !want.contains(q))),
                forall|q: KeyView| #[trigger] count_in(backend.orderbook_counts(), q) == shifted(count_in(ob0, q), false,
                    key_views(cur@).subrange(0, i as int).contains(q) && !want.contains(q)),
                ob0 == old(backend).orderbook_counts(),
                all_positive(ob0),
                backend.dirty() == (old(backend).dirty() || backend.orderbook_counts().dom() != ob0.dom()),
            decreases cur@.len() - i,
        {
            let k = &cur[i];
            let ghost kv = k@;
            let ghost pre = key_views(cur@).subrange(0, i as int);
            let ghost post = key_views(cur@).subrange(0, i + 1);
            proof {
                assert(post =~= pre.push(kv));
                assert(!pre.contains(kv)) by {
                    if pre.contains(kv) {
                        let j = choose|j: int| 0 <= j < pre.len() && pre[j] == kv;
                        crate::keys::lemma_key_lt_asym(key_views(cur@)[j], key_views(cur@)[i as int]);
                    }
                }
                assert(key_views(cur@)[i as int] == kv);
                assert(key_views(cur@).contains(kv));
            }
            let keep = enabled && self.registered_markets.count(k) > 0;
            if !keep {
                proof {
                    backend.lemma_wf_lists();
                }
                let ghost ob_prev = backend.orderbook_counts();
                let ghost held_prev = self.holds_orderbook();
                self.registered_orderbook.release(k);
                backend.release_chart_orderbook(k.core, k.market.as_str());
                proof {
                    assert(!want.contains(kv));
                    assert forall|q: KeyView| #[trigger] self.holds_orderbook().contains(q) <==>
                        (held0.contains(q) && !(post.contains(q) && !want.contains(q))) by {
                        crate::refs::lemma_push_contains(pre, kv, q);
                    }
                    assert forall|q: KeyView| #[trigger] count_in(backend.orderbook_counts(), q) == shifted(count_in(ob0, q), false,
                        post.contains(q) && !want.contains(q)) by {
                        crate::refs::lemma_push_contains(pre, kv, q);
                        assert(count_in(ob_prev, q) == shifted(count_in(ob0, q), false, pre.contains(q) && !want.contains(q)));
                        if q == kv {
                            assert(count_in(ob_prev, q) == count_in(ob0, q));
                        }
                    }
                    assert forall|q: KeyView| self.registered_orderbook@.dom().contains(q) implies self.registered_orderbook@[q] == 1 by {
                        assert(held_prev.contains(q));
                    }
                    assert(count_in(ob_prev, kv) == count_in(ob0, kv));
                    if count_in(ob_prev, kv) != 1 {
                        assert(backend.orderbook_counts().dom() =~= ob_prev.dom());
                    } else {
                        assert(!backend.orderbook_counts().dom().contains(kv));
                        assert(ob0.dom().contains(kv));
                    }
                }
            } else {
                proof {
                    assert(want.contains(kv));
                    assert forall|q: KeyView| #[trigger] self.holds_orderbook().contains(q) <==>
                        (held0.contains(q) && !(post.contains(q) && !want.contains(q))) by {
                        crate::refs::lemma_push_contains(pre, kv, q);
                    }
                    assert forall|q: KeyView| #[trigger] count_in(backend.orderbook_counts(), q) == shifted(count_in(ob0, q), false,
                        post.contains(q) && !want.contains(q)) by {
                        crate::refs::lemma_push_contains(pre, kv, q);
                    }
                }
            }
            i = i + 1;
        }
        proof {
            assert(key_views(cur@).subrange(0, cur@.len() as int) =~= key_views(cur@));
        }
        let ghost mid = backend.orderbook_counts();
        proof {
            assert forall|q: KeyView| #[trigger] self.holds_orderbook().contains(q) <==> (held0.contains(q) && want.contains(q)) by {
                if held0.contains(q) {
                    assert(key_views(cur@).contains(q));
                }
            }
        }
        if enabled {
            let all = self.registered_markets.sorted_keys();
            let mut j: usize = 0;
            proof {
                assert(key_views(all@).subrange(0, 0) =~= Seq::<KeyView>::empty());
            }
            while j < all.len()
                invariant
                    self.tables_wf(),
                    self.registered() == reg,
                    self.epoch() == old(self).epoch(),
                    self.shows_orderbook() == enabled,
                    enabled,
                    want == reg,
                    backend.wf(),
                    backend.market_counts() == old(backend).market_counts(),
                    backend.epoch() == old(backend).epoch(),
                    backend.last_sync_ms() == old(backend).last_sync_ms(),
                    crate::refs::lists_domain(key_views(all@), old(self).registered_markets@),
                    reg == old(self).registered_markets@.dom(),
                    forall|q: KeyView| old(self).registered().contains(q) && !held0.contains(q) ==> count_in(ob0, q) < usize::MAX,
                    forall|q: KeyView| #[trigger] count_in(mid, q) == shifted(count_in(ob0, q), false, held0.contains(q) && !want.contains(q)),
                    j <= all@.len(),
                    forall|q: KeyView| #[trigger] self.holds_orderbook().contains(q) <==>
                        ((held0.contains(q) && want.contains(q)) || key_views(all@).subrange(0, j as int).contains(q)),
                    forall|q: KeyView| #[trigger] count_in(backend.orderbook_counts(), q) == shifted(count_in(mid, q),
                        key_views(all@).subrange(0, j as int).contains(q) && !held0.contains(q), false),
                    ob0 == old(backend).orderbook_counts(),
                    all_positive(ob0),
                    backend.dirty() == (old(backend).dirty() || backend.orderbook_counts().dom() != ob0.dom()),
                decreases all@.len() - j,
            {
                let k = &all[j];
                let ghost kv = k@;
                let ghost pre = key_views(all@).subrange(0, j as int);
                let ghost post = key_views(all@).subrange(0, j + 1);
                proof {
                    assert(post =~= pre.push(kv));
                    assert(!pre.contains(kv)) by {
                        if pre.contains(kv) {
                            let t = choose|t: int| 0 <= t < pre.len() && pre[t] == kv;
                            crate::keys::lemma_key_lt_asym(key_views(all@)[t], key_views(all@)[j as int]);
                        }
                    }
                    assert(key_views(all@)[j as int] == kv);
                    assert(key_views(all@).contains(kv));
                    assert(reg.contains(kv));
                }
                if self.registered_orderbook.count(k) == 0 {
                    let ghost ob_prev = backend.orderbook_counts();
                    let ghost held_prev = self.holds_orderbook();
                    proof {
                        assert(!held0.contains(kv));
                        assert(count_in(ob_prev, kv) == shifted(count_in(mid, kv), pre.contains(kv) && !held0.contains(kv), false));
                        assert(count_in(mid, kv) == shifted(count_in(ob0, kv), false, held0.contains(kv) && !want.contains(kv)));
                        assert(count_in(ob_prev, kv) == count_in(ob0, kv));
                        assert(old(self).registered().contains(kv) && !held0.contains(kv));
                        assert(count_in(ob0, kv) < usize::MAX);
                    }
                    self.registered_orderbook.retain(k);
                    backend.retain_chart_orderbook(k.core, k.market.as_str());
                    proof {
                        assert forall|q: KeyView| #[trigger] self.holds_orderbook().contains(q) <==>
                            ((held0.contains(q) && want.contains(q)) || post.contains(q)) by {
                            crate::refs::lemma_push_contains(pre, kv, q);
                        }
                        assert forall|q: KeyView| #[trigger] count_in(backend.orderbook_counts(), q) == shifted(count_in(mid, q),
                            post.contains(q) && !held0.contains(q), false) by {
                            crate::refs::lemma_push_contains(pre, kv, q);
                            assert(count_in(ob_prev, q) == shifted(count_in(mid, q), pre.contains(q) && !held0.contains(q), false));
                        }
                        assert forall|q: KeyView| self.registered_orderbook@.dom().contains(q) implies self.registered_orderbook@[q] == 1 by {
                            if q != kv {
                                assert(held_prev.contains(q));
                            }
                        }
                        if ob_prev.dom().contains(kv) {
                            assert(backend.orderbook_counts().dom() =~= ob_prev.dom());
                        } else {
                            assert(backend.orderbook_counts().dom().contains(kv));
                            assert(count_in(ob_prev, kv) == 0);
                            assert(!ob0.dom().contains(kv));
                        }
                    }
                } else {
                    proof {
                        assert(self.holds_orderbook().contains(kv));
                        assert(held0.contains(kv));
                        assert forall|q: KeyView| #[trigger] self.holds_orderbook().contains(q) <==>
                            ((held0.contains(q) && want.contains(q)) || post.contains(q)) by {
                            crate::refs::lemma_push_contains(pre, kv, q);
                        }
                        assert forall|q: KeyView| #[trigger] count_in(backend.orderbook_counts(), q) == shifted(count_in(mid, q),
                            post.contains(q) && !held0.contains(q), false) by {
                            crate::refs::lemma_push_contains(pre, kv, q);
                        }
                    }
                }
                j = j + 1;
            }
            proof {
                assert(key_views(all@).subrange(0, all@.len() as int) =~= key_views(all@));
                assert(self.holds_orderbook() =~= wanted_orderbook(self.registered(), enabled)) by {
                    assert forall|q: KeyView| self.holds_orderbook().contains(q) <==> reg.contains(q) by {
                        assert(key_views(all@).contains(q) <==> reg.contains(q));
                        if held0.contains(q) {
                            assert(key_views(cur@).contains(q));
                        }
                    }
                }
                assert forall|q: KeyView| #[trigger] count_in(backend.orderbook_counts(), q) == shifted(count_in(ob0, q),
                    want.contains(q) && !held0.contains(q), held0.contains(q) && !want.contains(q)) by {
                    assert(key_views(all@).contains(q) <==> reg.contains(q));
                }
            }
        } else {
            proof {
                assert(self.holds_orderbook() =~= wanted_orderbook(self.registered(), enabled)) by {
                    assert forall|q: KeyView| !self.holds_orderbook().contains(q) by {
                        if held0.contains(q) {
                            assert(key_views(cur@).contains(q));
                        }
                    }
                }
                assert forall|q: KeyView| #[trigger] count_in(backend.orderbook_counts(), q) == shifted(count_in(ob0, q),
                    want.contains(q) && !held0.contains(q), held0.contains(q) && !want.contains(q)) by {
                    if held0.contains(q) {
                        assert(key_views(cur@).contains(q));
                    }
                }
            }
        }
    }

    /// Start showing `(core, market)`: take a reference to it the first time only, and
    /// to its order book when order books are shown.
    pub fn retain_market_ref(&mut self, core: CoreId, market: &str, backend: &mut MarketRefs)
        requires
            old(self).wf(),
            old(backend).wf(),
            count_in(old(backend).market_counts(), (core, market@)) < usize::MAX,
            count_in(old(backend).orderbook_counts(), (core, market@)) < usize::MAX,
            forall|q: KeyView| old(self).registered().contains(q) ==> count_in(old(backend).orderbook_counts(), q) < usize::MAX,
        ensures
            ({
                let k = (core, market@);
                let reg0 = if old(self).epoch() == old(backend).epoch() { old(self).registered() } else { Set::<KeyView>::empty() };
                &&& final(self).wf()
                &&& final(self).registered() == reg0.insert(k)
                &&& final(self).epoch() == old(backend).epoch()
                &&& final(self).shows_orderbook() == old(self).shows_orderbook()
                &&& final(backend).wf()
                &&& final(backend).market_counts() == if reg0.contains(k) { old(backend).market_counts() } else { retained(old(backend).market_counts(), k) }
                &&& orderbook_moved(old(backend).orderbook_counts(), final(backend).orderbook_counts(),
                        wanted_orderbook(reg0, old(self).shows_orderbook()), wanted_orderbook(reg0.insert(k), old(self).shows_orderbook()))
                &&& final(backend).epoch() == old(backend).epoch()
                &&& final(backend).last_sync_ms() == old(backend).last_sync_ms()
                &&& final(backend).dirty() == (old(backend).dirty() || lists_changed(*old(backend), *final(backend)))
            }),
    {
        let ghost b0 = *backend;
        self.sync_market_ref_epoch(backend);
        let ghost reg0 = self.registered();
        let key = MarketKey { core, market: market.to_owned() };
        if self.registered_markets.count(&key) == 0 {
            self.registered_markets.retain(&key);
            backend.retain_chart_market(core, market);
            proof {
                assert forall|q: KeyView| self.registered_markets@.dom().contains(q) implies self.registered_markets@[q] == 1 by {
                    if q != key@ {
                        assert(reg0.contains(q));
                    }
                }
                if b0.market_counts().dom().contains(key@) {
                    assert(backend.market_counts().dom() =~= b0.market_counts().dom());
                } else {
                    assert(backend.market_counts().dom().contains(key@));
                }
            }
        }
        proof {
            assert(self.registered() =~= reg0.insert(key@));
        }
        self.sync_orderbook_refs(backend);
        proof {
            crate::markets::lemma_lists_changed(b0, *backend);
        }
    }

    /// Stop showing `(core, market)`: drop this panel's reference, if it held one.
    pub fn release_market_ref(&mut self, core: CoreId, market: &str, backend: &mut MarketRefs)
        requires
            old(self).wf(),
            old(backend).wf(),
        ensures
            ({
                let k = (core, market@);
                let reg0 = if old(self).epoch() == old(backend).epoch() { old(self).registered() } else { Set::<KeyView>::empty() };
                &&& final(self).wf()
                &&& final(self).registered() == reg0.remove(k)
                &&& final(self).epoch() == old(backend).epoch()
                &&& final(self).shows_orderbook() == old(self).shows_orderbook()
                &&& final(backend).wf()
                &&& final(backend).market_counts() == if reg0.contains(k) { released(old(backend).market_counts(), k) } else { old(backend).market_counts() }
                &&& orderbook_moved(old(backend).orderbook_counts(), final(backend).orderbook_counts(),
                        wanted_orderbook(reg0, old(self).shows_orderbook()), wanted_orderbook(reg0.remove(k), old(self).shows_orderbook()))
                &&& final(backend).epoch() == old(backend).epoch()
                &&& final(backend).last_sync_ms() == old(backend).last_sync_ms()
                &&& final(backend).dirty() == (old(backend).dirty() || lists_changed(*old(backend), *final(backend)))
            }),
    {
        let ghost b0 = *backend;
        self.sync_market_ref_epoch(backend);
        let ghost reg0 = self.registered();
        let key = MarketKey { core, market: market.to_owned() };
        if self.registered_markets.count(&key) > 0 {
            self.registered_markets.release(&key);
            backend.release_chart_market(core, market);
            proof {
                b0.lemma_wf_lists();
                if count_in(b0.market_counts(), key@) == 1 {
                    assert(b0.market_counts().dom().contains(key@));
                    assert(!backend.market_counts().dom().contains(key@));
                } else {
                    assert(backend.market_counts().dom() =~= b0.market_counts().dom());
                }
            }
        }
        proof {
            assert(self.registered() =~= reg0.remove(key@));
            assert forall|q: KeyView| self.registered_markets@.dom().contains(q) implies self.registered_markets@[q] == 1 by {
                assert(reg0.contains(q));
            }
        }
        self.sync_orderbook_refs(backend);
        proof {
            crate::markets::lemma_lists_changed(b0, *backend);
        }
    }

    /// Drop the references to every market but `keep`.
    pub fn release_market_refs_except(&mut self, keep: Option<(CoreId, &str)>, backend: &mut MarketRefs)
        requires
            old(self).wf(),
            old(backend).wf(),
        ensures
            ({
                let reg0 = if old(self).epoch() == old(backend).epoch() { old(self).registered() } else { Set::<KeyView>::empty() };
                let kept = match keep {
                    Some(kp) => reg0.intersect(set![(kp.0, kp.1@)]),
                    None => Set::<KeyView>::empty(),
                };
                &&& final(self).wf()
                &&& final(self).registered() == kept
                &&& final(self).epoch() == old(backend).epoch()
                &&& final(self).shows_orderbook() == old(self).shows_orderbook()
                &&& final(backend).wf()
                &&& forall|q: KeyView| #[trigger] count_in(final(backend).market_counts(), q)
                        == shifted(count_in(old(backend).market_counts(), q), false, reg0.contains(q) && !kept.contains(q))
                &&& orderbook_moved(old(backend).orderbook_counts(), final(backend).orderbook_counts(),
                        wanted_orderbook(reg0, old(self).shows_orderbook()), wanted_orderbook(kept, old(self).shows_orderbook()))
                &&& final(backend).epoch() == old(backend).epoch()
                &&& final(backend).last_sync_ms() == old(backend).last_sync_ms()
                &&& final(backend).dirty() == (old(backend).dirty() || lists_changed(*old(backend), *final(backend)))
            }),
    {
        let ghost b0 = *backend;
        self.sync_market_ref_epoch(backend);
        let ghost reg0 = self.registered();
        let ghost held0 = self.holds_orderbook();
        let ghost m0 = backend.market_counts();
        proof {
            backend.lemma_wf_lists();
        }
        let ghost ob0 = backend.orderbook_counts();
        let ghost kept = match keep {
            Some(kp) => reg0.intersect(set![(kp.0, kp.1@)]),
            None => Set::<KeyView>::empty(),
        };
        let old_list = self.registered_markets.sorted_keys();
        let mut next = RefTable::new();
        let mut i: usize = 0;
        while i < old_list.len()
            invariant
                self.wf(),
                self.registered() == reg0,
                self.holds_orderbook() == held0,
                next.wf(),
                forall|q: KeyView| next@.dom().contains(q) ==> next@[q] == 1,
                backend.wf(),
                backend.orderbook_counts() == ob0,
                backend.epoch() == old(backend).epoch(),
                backend.last_sync_ms() == old(backend).last_sync_ms(),
                m0 == old(backend).market_counts(),
                all_positive(m0),
                backend.dirty() == (old(backend).dirty() || backend.market_counts().dom() != m0.dom()),
                self.epoch() == old(backend).epoch(),
                self.shows_orderbook() == old(self).shows_orderbook(),
                crate::refs::lists_domain(key_views(old_list@), self.registered_markets@),
                kept == match keep {
                    Some(kp) => reg0.intersect(set![(kp.0, kp.1@)]),
                    None => Set::<KeyView>::empty(),
                },
                i <= old_list@.len(),
                forall|q: KeyView| #[trigger] next@.dom().contains(q) <==> (key_views(old_list@).subrange(0, i as int).contains(q) && kept.contains(q)),
                forall|q: KeyView| #[trigger] count_in(backend.market_counts(), q)
                    == shifted(count_in(m0, q), false, key_views(old_list@).subrange(0, i as int).contains(q) && !kept.contains(q)),
            decreases old_list@.len() - i,
        {
            let k = &old_list[i];
            let ghost kv = k@;
            let ghost pre = key_views(old_list@).subrange(0, i as int);
            let ghost post = key_views(old_list@).subrange(0, i + 1);
            proof {
                assert(post =~= pre.push(kv));
                assert(!pre.contains(kv)) by {
                    if pre.contains(kv) {
                        let j = choose|j: int| 0 <= j < pre.len() && pre[j] == kv;
                        crate::keys::lemma_key_lt_asym(key_views(old_list@)[j], key_views(old_list@)[i as int]);
                    }
                }
                assert(key_views(old_list@)[i as int] == kv);
                assert(key_views(old_list@).contains(kv));
                assert(reg0.contains(kv));
            }
            let is_kept = match keep {
                Some(kp) => kp.0 == k.core && kp.1.to_owned() == k.market,
                None => false,
            };
            proof {
                assert(is_kept == kept.contains(kv));
            }
            if is_kept {
                let ghost next_prev = next@;
                proof {
                    assert(!next@.dom().contains(kv));
                }
                next.retain(k);
                proof {
                    assert forall|q: KeyView| next@.dom().contains(q) implies next@[q] == 1 by {
                        if q != kv {
                            assert(next_prev.dom().contains(q));
                        }
                    }
                    assert forall|q: KeyView| #[trigger] next@.dom().contains(q) <==> (post.contains(q) && kept.contains(q)) by {
                        crate::refs::lemma_push_contains(pre, kv, q);
                    }
                    assert forall|q: KeyView| #[trigger] count_in(backend.market_counts(), q)
                        == shifted(count_in(m0, q), false, post.contains(q) && !kept.contains(q)) by {
                        crate::refs::lemma_push_contains(pre, kv, q);
                    }
                }
            } else {
                let ghost m_prev = backend.market_counts();
                proof {
                    backend.lemma_wf_lists();
                }
                backend.release_chart_market(k.core, k.market.as_str());
                proof {
                    assert forall|q: KeyView| #[trigger] next@.dom().contains(q) <==> (post.contains(q) && kept.contains(q)) by {
                        crate::refs::lemma_push_contains(pre, kv, q);
                    }
                    assert forall|q: KeyView| #[trigger] count_in(backend.market_counts(), q)
                        == shifted(count_in(m0, q), false, post.contains(q) && !kept.contains(q)) by {
                        crate::refs::lemma_push_contains(pre, kv, q);
                        assert(count_in(m_prev, q) == shifted(count_in(m0, q), false, pre.contains(q) && !kept.contains(q)));
                    }
                    assert(count_in(m_prev, kv) == count_in(m0, kv));
                    if count_in(m_prev, kv) == 1 {
                        assert(m0.dom().contains(kv));
                        assert(!backend.market_counts().dom().contains(kv));
                    } else {
                        assert(backend.market_counts().dom() =~= m_prev.dom());
                    }
                }
            }
            i = i + 1;
        }
        proof {
            assert(key_views(old_list@).subrange(0, old_list@.len() as int) =~= key_views(old_list@));
            assert(next@.dom() =~= kept) by {
                assert forall|q: KeyView| next@.dom().contains(q) <==> kept.contains(q) by {
                    if kept.contains(q) {
                        assert(reg0.contains(q));
                        assert(key_views(old_list@).contains(q));
                    }
                }
            }
            assert forall|q: KeyView| #[trigger] count_in(backend.market_counts(), q)
                == shifted(count_in(m0, q), false, reg0.contains(q) && !kept.contains(q)) by {
                assert(key_views(old_list@).contains(q) <==> reg0.contains(q));
            }
        }
        self.registered_markets = next;
        self.sync_orderbook_refs(backend);
        proof {
            crate::markets::lemma_lists_changed(b0, *backend);
        }
    }

    /// Drop the references to every market of the panel (the panel is going away).
    pub fn release_all_market_refs(&mut self, backend: &mut MarketRefs)
        requires
            old(self).wf(),
            old(backend).wf(),
        ensures
            ({
                let reg0 = if old(self).epoch() == old(backend).epoch() { old(self).registered() } else { Set::<KeyView>::empty() };
                &&& final(self).wf()
                &&& final(self).registered() == Set::<KeyView>::empty()
                &&& final(self).epoch() == old(backend).epoch()
                &&& final(backend).wf()
                &&& forall|q: KeyView| #[trigger] count_in(final(backend).market_counts(), q)
                        == shifted(count_in(old(backend).market_counts(), q), false, reg0.contains(q))
                &&& orderbook_moved(old(backend).orderbook_counts(), final(backend).orderbook_counts(),
                        wanted_orderbook(reg0, old(self).shows_orderbook()), Set::<KeyView>::empty())
                &&& final(backend).epoch() == old(backend).epoch()
                &&& final(backend).dirty() == (old(backend).dirty() || lists_changed(*old(backend), *final(backend)))
            }),
    {
        self.release_market_refs_except(None, backend);
        proof {
            let reg0 = if old(self).epoch() == old(backend).epoch() { old(self).registered() } else { Set::<KeyView>::empty() };
            assert(wanted_orderbook(Set::<KeyView>::empty(), old(self).shows_orderbook()) =~= Set::<KeyView>::empty());
        }
    }

    /// Show or hide order books; returns whether the setting changed (then the
    /// order-book references follow).
    pub fn set_orderbook_enabled(&mut self, enabled: bool, backend: &mut MarketRefs) -> (changed: bool)
        requires
            old(self).wf(),
            old(backend).wf(),
            forall|q: KeyView| old(self).registered().contains(q) ==> count_in(old(backend).orderbook_counts(), q) < usize::MAX,
        ensures
            changed == (enabled != old(self).shows_orderbook()),
            final(self).wf(),
            final(self).shows_orderbook() == enabled,
            final(self).registered() == old(self).registered(),
            final(self).epoch() == old(self).epoch(),
            final(backend).wf(),
            final(backend).market_counts() == old(backend).market_counts(),
            orderbook_moved(old(backend).orderbook_counts(), final(backend).orderbook_counts(),
                old(self).holds_orderbook(), wanted_orderbook(old(self).registered(), enabled)),
            final(backend).epoch() == old(backend).epoch(),
            final(backend).dirty() == (old(backend).dirty() || lists_changed(*old(backend), *final(backend))),
    {
        let ghost b0 = *backend;
        if self.orderbook_enabled == enabled {
            proof {
                assert forall|q: KeyView| #[trigger] count_in(backend.orderbook_counts(), q)
                    == shifted(count_in(backend.orderbook_counts(), q), wanted_orderbook(self.registered(), enabled).contains(q) && !self.holds_orderbook().contains(q),
                        self.holds_orderbook().contains(q) && !wanted_orderbook(self.registered(), enabled).contains(q)) by {
                }
            }
            return false;
        }
        self.orderbook_enabled = enabled;
        self.sync_orderbook_refs(backend);
        proof {
            crate::markets::lemma_lists_changed(b0, *backend);
        }
        true
    }

    /// A panel that opens with `focus` shown (taking its references), or empty.
    pub fn new_main(focus: Option<(CoreId, &str)>, backend: &mut MarketRefs) -> (r: ChartMarketRefs)
        requires
            old(backend).wf(),
            focus matches Some(f) ==> count_in(old(backend).market_counts(), (f.0, f.1@)) < usize::MAX,
            focus matches Some(f) ==> count_in(old(backend).orderbook_counts(), (f.0, f.1@)) < usize::MAX,
        ensures
            r.wf(),
            r.epoch() == old(backend).epoch(),
            r.shows_orderbook(),
            final(backend).wf(),
            final(backend).epoch() == old(backend).epoch(),
            final(backend).dirty() == (old(backend).dirty() || lists_changed(*old(backend), *final(backend))),
            match focus {
                Some(f) => {
                    &&& r.registered() == set![(f.0, f.1@)]
                    &&& final(backend).market_counts() == retained(old(backend).market_counts(), (f.0, f.1@))
                    &&& final(backend).orderbook_counts() == retained(old(backend).orderbook_counts(), (f.0, f.1@))
                },
                None => {
                    &&& r.registered() == Set::<KeyView>::empty()
                    &&& final(backend).market_counts() == old(backend).market_counts()
                    &&& final(backend).orderbook_counts() == old(backend).orderbook_counts()
                },
            },
    {
        let mut r = ChartMarketRefs::new(backend);
        match focus {
            Some((core, market)) => {
                let ghost ob0 = backend.orderbook_counts();
                proof {
                    backend.lemma_wf_lists();
                }
                r.retain_market_ref(core, market, backend);
                proof {
                    let k = (core, market@);
                    assert(Set::<KeyView>::empty().insert(k) =~= set![k]);
                    backend.lemma_wf_lists();
                    assert forall|q: KeyView| #[trigger] count_in(backend.orderbook_counts(), q) == count_in(retained(ob0, k), q) by {
                    }
                    crate::markets::lemma_retained_positive(ob0, k);
                    lemma_counts_determine(backend.orderbook_counts(), retained(ob0, k));
                }
            },
            None => {},
        }
        r
    }
}

} // verus!
