//! Reference counts of the markets that visible charts hold open, and the sorted
//! lists of wanted markets derived from them.

use vstd::prelude::*;
use crate::keys::{CoreId, MarketKey, key_lt, key_compare, clone_key, lemma_key_lt_asym, lemma_key_lt_irrefl, lemma_key_lt_trans};

verus! {

pub type KeyView = (CoreId, Seq<char>);

/// Strictly increasing in the order of market keys (hence without repeats).
pub open spec fn strictly_sorted(s: Seq<KeyView>) -> bool {
    forall|i: int, j: int| 0 <= i < j < s.len() ==> key_lt(s[i], s[j])
}

/// `s` lists exactly the keys of `m`, in increasing order.
pub open spec fn lists_domain(s: Seq<KeyView>, m: Map<KeyView, nat>) -> bool {
    &&& strictly_sorted(s)
    &&& forall|k: KeyView| s.contains(k) <==> m.dom().contains(k)
}

/// Two increasing lists with the same elements are the same list.
pub proof fn lemma_sorted_unique(s1: Seq<KeyView>, s2: Seq<KeyView>)
    requires
        strictly_sorted(s1),
        strictly_sorted(s2),
        forall|k: KeyView| s1.contains(k) <==> s2.contains(k),
    ensures
        s1 == s2,
    decreases s1.len(),
{
    if s1.len() == 0 {
        if s2.len() > 0 {
            assert(s2.contains(s2[0]));
        }
        assert(s1 =~= s2);
    } else {
        if s2.len() == 0 {
            assert(s1.contains(s1[0]));
        }
        let a = s1[0];
        let b = s2[0];
        assert(s1.contains(a));
        assert(s2.contains(b));
        let j = choose|j: int| 0 <= j < s2.len() && s2[j] == a;
        let i = choose|i: int| 0 <= i < s1.len() && s1[i] == b;
        if a != b {
            assert(j > 0 && i > 0);
            lemma_key_lt_asym(b, a);
        }
        let t1 = s1.drop_first();
        let t2 = s2.drop_first();
        assert forall|k: KeyView| t1.contains(k) <==> t2.contains(k) by {
            if t1.contains(k) {
                let p = choose|p: int| 0 <= p < t1.len() && t1[p] == k;
                assert(s1[p + 1] == k);
                lemma_key_lt_asym(a, k);
                assert(s2.contains(k));
                let q = choose|q: int| 0 <= q < s2.len() && s2[q] == k;
                assert(q != 0);
                assert(t2[q - 1] == k);
            }
            if t2.contains(k) {
                let p = choose|p: int| 0 <= p < t2.len() && t2[p] == k;
                assert(s2[p + 1] == k);
                lemma_key_lt_asym(b, k);
                assert(s1.contains(k));
                let q = choose|q: int| 0 <= q < s1.len() && s1[q] == k;
                assert(q != 0);
                assert(t1[q - 1] == k);
            }
        }
        lemma_sorted_unique(t1, t2);
        assert(s1 =~= seq![a] + t1);
        assert(s2 =~= seq![b] + t2);
    }
}

/// Membership in a list extended by one element.
pub proof fn lemma_push_contains(s: Seq<KeyView>, x: KeyView, q: KeyView)
    ensures
        s.push(x).contains(q) <==> (s.contains(q) || q == x),
{
    if s.push(x).contains(q) {
        let i = choose|i: int| 0 <= i < s.push(x).len() && s.push(x)[i] == q;
        if i < s.len() {
            assert(s[i] == q);
        }
    }
    if s.contains(q) {
        let i = choose|i: int| 0 <= i < s.len() && s[i] == q;
        assert(s.push(x)[i] == q);
    }
    if q == x {
        assert(s.push(x)[s.len() as int] == q);
    }
}

/// The view of a list of keys.
pub open spec fn key_views(v: Seq<MarketKey>) -> Seq<KeyView> {
    v.map_values(|k: MarketKey| k@)
}

/// The count a table model gives a key (0 when absent).
pub open spec fn count_in(m: Map<KeyView, nat>, k: KeyView) -> nat {
    if m.dom().contains(k) {
        m[k]
    } else {
        0
    }
}

/// A multiset of market keys held as reference counts: each key present has a
/// positive count; keys are kept in increasing order.
pub struct RefTable {
    keys: Vec<MarketKey>,
    counts: Vec<usize>,
}

impl RefTable {
    pub closed spec fn key_seq(self) -> Seq<KeyView> {
        key_views(self.keys@)
    }

    pub closed spec fn wf(self) -> bool {
        &&& self.keys@.len() == self.counts@.len()
        &&& strictly_sorted(self.key_seq())
        &&& forall|i: int| 0 <= i < self.counts@.len() ==> self.counts@[i] > 0
    }

    /// The count stored for `k`, 0 when `k` is absent.
    pub closed spec fn has_key_at(self, k: KeyView, i: int) -> bool {
        0 <= i < self.key_seq().len() && self.key_seq()[i] == k
    }

    pub closed spec fn count_of(self, k: KeyView) -> nat {
        if exists|i: int| self.has_key_at(k, i) {
            self.counts@[choose|i: int| self.has_key_at(k, i)] as nat
        } else {
            0
        }
    }

    /// The table as a map from key to its (positive) count.
    pub closed spec fn view(self) -> Map<KeyView, nat> {
        Map::new(|k: KeyView| self.count_of(k) > 0, |k: KeyView| self.count_of(k))
    }

    proof fn lemma_count_at(self, i: int)
        requires
            self.wf(),
            0 <= i < self.key_seq().len(),
        ensures
            self.count_of(self.key_seq()[i]) == self.counts@[i] as nat,
    {
        let k = self.key_seq()[i];
        assert(self.has_key_at(k, i));
        let j = choose|j: int| self.has_key_at(k, j);
        if j != i {
            if j < i {
                lemma_key_lt_asym(self.key_seq()[j], self.key_seq()[i]);
            } else {
                lemma_key_lt_asym(self.key_seq()[i], self.key_seq()[j]);
            }
        }
        assert(j == i);
    }

    proof fn lemma_view_at(self, i: int)
        requires
            self.wf(),
            0 <= i < self.key_seq().len(),
        ensures
            self.view().dom().contains(self.key_seq()[i]),
            self.view()[self.key_seq()[i]] == self.counts@[i] as nat,
    {
        self.lemma_count_at(i);
    }

    proof fn lemma_view_absent(self, k: KeyView)
        requires
            self.wf(),
            !self.key_seq().contains(k),
        ensures
            !self.view().dom().contains(k),
            self.count_of(k) == 0,
    {
    }

    proof fn lemma_dom_iff(self, k: KeyView)
        requires
            self.wf(),
        ensures
            self.view().dom().contains(k) <==> self.key_seq().contains(k),
    {
        if self.key_seq().contains(k) {
            let i = choose|i: int| 0 <= i < self.key_seq().len() && self.key_seq()[i] == k;
            self.lemma_view_at(i);
        }
    }

    /// Every key held has a positive count.
    pub proof fn lemma_all_positive(self)
        requires
            self.wf(),
        ensures
            forall|k: KeyView| self@.dom().contains(k) ==> self@[k] > 0,
    {
    }

    /// An empty table.
    pub fn new() -> (r: RefTable)
        ensures
            r.wf(),
            r@ == Map::<KeyView, nat>::empty(),
    {
        let r = RefTable { keys: Vec::new(), counts: Vec::new() };
        assert(r@ =~= Map::<KeyView, nat>::empty());
        r
    }

    /// Number of keys held.
    pub fn len(&self) -> (n: usize)
        requires
            self.wf(),
        ensures
            n == self@.dom().len(),
    {
        proof {
            self.lemma_dom_len();
        }
        self.keys.len()
    }

    proof fn lemma_dom_len(self)
        requires
            self.wf(),
        ensures
            self@.dom().finite(),
            self@.dom().len() == self.key_seq().len(),
    {
        let s = self.key_seq();
        assert forall|i: int, j: int| 0 <= i < s.len() && 0 <= j < s.len() && i != j implies s[i] != s[j] by {
            if i < j {
                lemma_key_lt_asym(s[i], s[j]);
            } else {
                lemma_key_lt_asym(s[j], s[i]);
            }
        }
        assert(s.no_duplicates());
        assert forall|k: KeyView| self@.dom().contains(k) <==> s.to_set().contains(k) by {
            self.lemma_dom_iff(k);
        }
        assert(self@.dom() =~= s.to_set());
        s.unique_seq_to_set();
    }

    /// Position of the first key not below `k`, and whether it equals `k`.
    fn find(&self, k: &MarketKey) -> (r: (usize, bool))
        requires
            self.wf(),
        ensures
            r.0 <= self.key_seq().len(),
            forall|i: int| 0 <= i < r.0 ==> key_lt(#[trigger] self.key_seq()[i], k@),
            r.1 ==> r.0 < self.key_seq().len() && self.key_seq()[r.0 as int] == k@,
            !r.1 ==> forall|j: int| r.0 <= j < self.key_seq().len() ==> key_lt(k@, #[trigger] self.key_seq()[j]),
    {
        let mut i: usize = 0;
        while i < self.keys.len()
            invariant
                self.wf(),
                i <= self.keys@.len(),
                forall|j: int| 0 <= j < i ==> key_lt(#[trigger] self.key_seq()[j], k@),
            decreases self.keys@.len() - i,
        {
            let c = key_compare(&self.keys[i], k);
            if c == 0 {
                return (i, true);
            }
            if c == 1 {
                proof {
                    assert forall|j: int| i <= j < self.key_seq().len() implies key_lt(k@, #[trigger] self.key_seq()[j]) by {
                        if j > i {
                            lemma_key_lt_trans(k@, self.key_seq()[i as int], self.key_seq()[j]);
                        }
                    }
                }
                return (i, false);
            }
            i = i + 1;
        }
        (i, false)
    }

    /// Current count of `k` (0 when absent).
    pub fn count(&self, k: &MarketKey) -> (c: usize)
        requires
            self.wf(),
        ensures
            c == count_in(self@, k@),
    {
        let (pos, found) = self.find(k);
        if found {
            proof {
                self.lemma_view_at(pos as int);
            }
            self.counts[pos]
        } else {
            proof {
                assert(!self.key_seq().contains(k@)) by {
                    if self.key_seq().contains(k@) {
                        let j = choose|j: int| 0 <= j < self.key_seq().len() && self.key_seq()[j] == k@;
                        if j < pos {
                            lemma_key_lt_irrefl(k@);
                        } else {
                            lemma_key_lt_irrefl(k@);
                        }
                    }
                }
                self.lemma_view_absent(k@);
            }
            0
        }
    }

    /// Add one reference to `k`.
    pub fn retain(&mut self, k: &MarketKey)
        requires
            old(self).wf(),
            count_in(old(self)@, k@) < usize::MAX,
        ensures
            final(self).wf(),
            final(self)@ == old(self)@.insert(k@, count_in(old(self)@, k@) + 1),
    {
        let ghost old_self = *self;
        let (pos, found) = self.find(k);
        if found {
            proof {
                old_self.lemma_view_at(pos as int);
            }
            let c = self.counts[pos];
            self.counts.set(pos, c + 1);
            proof {
                assert(self.key_seq() == old_self.key_seq());
                assert forall|q: KeyView| #[trigger] self@.dom().contains(q) == old_self@.insert(k@, c as nat + 1).dom().contains(q)
                    && (self@.dom().contains(q) ==> self@[q] == old_self@.insert(k@, c as nat + 1)[q]) by {
                    self.lemma_dom_iff(q);
                    old_self.lemma_dom_iff(q);
                    if self.key_seq().contains(q) {
                        let j = choose|j: int| 0 <= j < self.key_seq().len() && self.key_seq()[j] == q;
                        self.lemma_view_at(j);
                        old_self.lemma_view_at(j);
                        if j != pos {
                            if j < pos {
                                lemma_key_lt_asym(self.key_seq()[j], self.key_seq()[pos as int]);
                            } else {
                                lemma_key_lt_asym(self.key_seq()[pos as int], self.key_seq()[j]);
                            }
                        }
                    }
                }
                assert(self@ =~= old_self@.insert(k@, c as nat + 1));
            }
        } else {
            proof {
                assert(!old_self.key_seq().contains(k@)) by {
                    if old_self.key_seq().contains(k@) {
                        lemma_key_lt_irrefl(k@);
                    }
                }
                old_self.lemma_view_absent(k@);
            }
            self.keys.insert(pos, clone_key(k));
            self.counts.insert(pos, 1);
            proof {
                let s0 = old_self.key_seq();
                let s1 = self.key_seq();
                assert(s1 =~= s0.insert(pos as int, k@));
                assert forall|i: int, j: int| 0 <= i < j < s1.len() implies key_lt(s1[i], s1[j]) by {
                    if i < pos && j == pos {
                    } else if i == pos && j > pos {
                        assert(s1[j] == s0[j - 1]);
                    } else if i < pos && j > pos {
                        assert(s1[j] == s0[j - 1]);
                    } else if i > pos {
                        assert(s1[i] == s0[i - 1] && s1[j] == s0[j - 1]);
                    }
                }
                assert(self.wf());
                assert forall|q: KeyView| #[trigger] self@.dom().contains(q) == old_self@.insert(k@, 1).dom().contains(q)
                    && (self@.dom().contains(q) ==> self@[q] == old_self@.insert(k@, 1)[q]) by {
                    self.lemma_dom_iff(q);
                    old_self.lemma_dom_iff(q);
                    if q == k@ {
                        self.lemma_view_at(pos as int);
                    } else if old_self.key_seq().contains(q) {
                        let j = choose|j: int| 0 <= j < s0.len() && s0[j] == q;
                        old_self.lemma_view_at(j);
                        if j < pos {
                            self.lemma_view_at(j);
                        } else {
                            assert(s1[j + 1] == q);
                            self.lemma_view_at(j + 1);
                        }
                    } else {
                        assert(!s1.contains(q)) by {
                            if s1.contains(q) {
                                let j = choose|j: int| 0 <= j < s1.len() && s1[j] == q;
                                if j < pos {
                                    assert(s0[j] == q);
                                } else if j > pos {
                                    assert(s0[j - 1] == q);
                                }
                            }
                        }
                    }
                }
                assert(self@ =~= old_self@.insert(k@, 1));
            }
        }
    }

    /// Drop one reference to `k`; the key leaves the table when its count reaches 0.
    /// Releasing a key that is not held changes nothing.
    pub fn release(&mut self, k: &MarketKey)
        requires
            old(self).wf(),
        ensures
            final(self).wf(),
            count_in(old(self)@, k@) > 1 ==> final(self)@ == old(self)@.insert(k@, (count_in(old(self)@, k@) - 1) as nat),
            count_in(old(self)@, k@) <= 1 ==> final(self)@ == old(self)@.remove(k@),
    {
        let ghost old_self = *self;
        let (pos, found) = self.find(k);
        if !found {
            proof {
                assert(!old_self.key_seq().contains(k@)) by {
                    if old_self.key_seq().contains(k@) {
                        lemma_key_lt_irrefl(k@);
                    }
                }
                old_self.lemma_view_absent(k@);
                assert(old_self@.remove(k@) =~= old_self@);
            }
            return;
        }
        proof {
            old_self.lemma_view_at(pos as int);
        }
        let c = self.counts[pos];
        if c > 1 {
            self.counts.set(pos, c - 1);
            proof {
                assert(self.key_seq() == old_self.key_seq());
                assert forall|q: KeyView| #[trigger] self@.dom().contains(q) == old_self@.insert(k@, (c - 1) as nat).dom().contains(q)
                    && (self@.dom().contains(q) ==> self@[q] == old_self@.insert(k@, (c - 1) as nat)[q]) by {
                    self.lemma_dom_iff(q);
                    old_self.lemma_dom_iff(q);
                    if self.key_seq().contains(q) {
                        let j = choose|j: int| 0 <= j < self.key_seq().len() && self.key_seq()[j] == q;
                        self.lemma_view_at(j);
                        old_self.lemma_view_at(j);
                        if j != pos {
                            if j < pos {
                                lemma_key_lt_asym(self.key_seq()[j], self.key_seq()[pos as int]);
                            } else {
                                lemma_key_lt_asym(self.key_seq()[pos as int], self.key_seq()[j]);
                            }
                        }
                    }
                }
                assert(self@ =~= old_self@.insert(k@, (c - 1) as nat));
            }
        } else {
            self.keys.remove(pos);
            self.counts.remove(pos);
            proof {
                let s0 = old_self.key_seq();
                let s1 = self.key_seq();
                assert(s1 =~= s0.remove(pos as int));
                assert forall|i: int, j: int| 0 <= i < j < s1.len() implies key_lt(s1[i], s1[j]) by {
                    if i >= pos {
                        assert(s1[i] == s0[i + 1] && s1[j] == s0[j + 1]);
                    } else if j >= pos {
                        assert(s1[i] == s0[i] && s1[j] == s0[j + 1]);
                    }
                }
                assert(self.wf());
                assert forall|q: KeyView| #[trigger] self@.dom().contains(q) == old_self@.remove(k@).dom().contains(q)
                    && (self@.dom().contains(q) ==> self@[q] == old_self@.remove(k@)[q]) by {
                    self.lemma_dom_iff(q);
                    old_self.lemma_dom_iff(q);
                    if q == k@ {
                        assert(!s1.contains(q)) by {
                            if s1.contains(q) {
                                let j = choose|j: int| 0 <= j < s1.len() && s1[j] == q;
                                if j < pos {
                                    assert(s0[j] == q);
                                    lemma_key_lt_irrefl(q);
                                } else {
                                    assert(s0[j + 1] == q);
                                    lemma_key_lt_irrefl(q);
                                }
                            }
                        }
                    } else if old_self.key_seq().contains(q) {
                        let j = choose|j: int| 0 <= j < s0.len() && s0[j] == q;
                        old_self.lemma_view_at(j);
                        if j < pos {
                            self.lemma_view_at(j);
                        } else {
                            assert(j != pos);
                            assert(s1[j - 1] == q);
                            self.lemma_view_at(j - 1);
                        }
                    } else {
                        assert(!s1.contains(q)) by {
                            if s1.contains(q) {
                                let j = choose|j: int| 0 <= j < s1.len() && s1[j] == q;
                                if j < pos {
                                    assert(s0[j] == q);
                                } else {
                                    assert(s0[j + 1] == q);
                                }
                            }
                        }
                    }
                }
                assert(self@ =~= old_self@.remove(k@));
            }
        }
    }

    /// The keys held, in increasing order.
    pub fn sorted_keys(&self) -> (r: Vec<MarketKey>)
        requires
            self.wf(),
        ensures
            lists_domain(key_views(r@), self@),
    {
        let mut out: Vec<MarketKey> = Vec::new();
        let mut i: usize = 0;
        while i < self.keys.len()
            invariant
                self.wf(),
                i <= self.keys@.len(),
                key_views(out@) =~= self.key_seq().subrange(0, i as int),
            decreases self.keys@.len() - i,
        {
            let ghost prev = out@;
            let k = clone_key(&self.keys[i]);
            out.push(k);
            proof {
                assert(key_views(out@) =~= key_views(prev).push(self.key_seq()[i as int]));
                assert(self.key_seq().subrange(0, i + 1) =~= self.key_seq().subrange(0, i as int).push(self.key_seq()[i as int]));
            }
            i = i + 1;
        }
        proof {
            assert(key_views(out@) =~= self.key_seq());
            assert forall|k: KeyView| key_views(out@).contains(k) <==> self@.dom().contains(k) by {
                self.lemma_dom_iff(k);
            }
        }
        out
    }

    /// Remove every key.
    pub fn clear(&mut self)
        ensures
            final(self).wf(),
            final(self)@ == Map::<KeyView, nat>::empty(),
    {
        self.keys.clear();
        self.counts.clear();
        assert(self@ =~= Map::<KeyView, nat>::empty());
    }
}

/// Whether two key lists are equal, element by element.
pub fn keys_equal(a: &Vec<MarketKey>, b: &Vec<MarketKey>) -> (r: bool)
    ensures
        r == (key_views(a@) == key_views(b@)),
{
    if a.len() != b.len() {
        proof {
            assert(key_views(a@).len() != key_views(b@).len());
        }
        return false;
    }
    let mut i: usize = 0;
    while i < a.len()
        invariant
            a@.len() == b@.len(),
            i <= a@.len(),
            forall|j: int| 0 <= j < i ==> a@[j]@ == b@[j]@,
        decreases a@.len() - i,
    {
        if a[i].core != b[i].core || a[i].market != b[i].market {
            proof {
                assert(key_views(a@)[i as int] != key_views(b@)[i as int]);
            }
            return false;
        }
        i = i + 1;
    }
    proof {
        assert(key_views(a@) =~= key_views(b@));
    }
    true
}

} // verus!
