//! The detects ribbon: buttons for the fresh alerting detects of a group's cores,
//! one per (core, market), each living for its alert time.

use vstd::prelude::*;
use std::collections::HashMap;
use crate::keys::CoreId;

verus! {

broadcast use vstd::std_specs::hash::group_hash_axioms;

/// At most this many buttons stay on the ribbon (the oldest leave first).
pub const MAX_DETECT_BTNS: usize = 48;

/// One detect as a core reports it.
pub struct DetectRow {
    pub seq: u64,
    pub market: String,
    pub sound_alert: bool,
    pub add_to_chart: i64,
    pub keep_alert_secs: u32,
    pub time_ms: i64,
}

pub type RowView = (u64, Seq<char>, bool, i64, u32, i64);

impl View for DetectRow {
    type V = RowView;

    open spec fn view(&self) -> RowView {
        (self.seq, self.market@, self.sound_alert, self.add_to_chart, self.keep_alert_secs, self.time_ms)
    }
}

/// The detects of one core of the group (`None` while the core has no data yet).
pub struct CoreDetects {
    pub id: CoreId,
    pub name: String,
    pub color: [u8; 3],
    pub detects: Option<Vec<DetectRow>>,
}

pub type CoreView = (CoreId, Seq<char>, [u8; 3], Option<Seq<RowView>>);

pub open spec fn rows_view(v: Seq<DetectRow>) -> Seq<RowView> {
    v.map_values(|r: DetectRow| r@)
}

impl View for CoreDetects {
    type V = CoreView;

    open spec fn view(&self) -> CoreView {
        (self.id, self.name@, self.color, match self.detects {
            Some(v) => Some(rows_view(v@)),
            None => None,
        })
    }
}

pub open spec fn cores_view(v: Seq<CoreDetects>) -> Seq<CoreView> {
    v.map_values(|c: CoreDetects| c@)
}

/// A button of the ribbon.
pub struct DetectItem {
    pub core: CoreId,
    pub core_name: String,
    pub market: String,
    pub color: [u8; 3],
    pub born_ms: i64,
    pub ttl_ms: i64,
}

pub type ItemView = (CoreId, Seq<char>, Seq<char>, [u8; 3], i64, i64);

impl View for DetectItem {
    type V = ItemView;

    open spec fn view(&self) -> ItemView {
        (self.core, self.core_name@, self.market@, self.color, self.born_ms, self.ttl_ms)
    }
}

impl DetectItem {
    /// A copy of the button.
    pub fn clone_item(&self) -> (r: DetectItem)
        ensures
            r@ == self@,
    {
        DetectItem {
            core: self.core,
            core_name: self.core_name.clone(),
            market: self.market.clone(),
            color: self.color,
            born_ms: self.born_ms,
            ttl_ms: self.ttl_ms,
        }
    }

    /// Seconds of life left at `now_ms`, as the button shows them.
    pub fn remaining_secs(&self, now_ms: i64) -> (r: u32)
        ensures
            r == remaining_secs_of(self@, now_ms),
    {
        let left: i128 = (self.ttl_ms as i128) - ((now_ms as i128) - (self.born_ms as i128));
        if left <= 0 {
            0
        } else {
            let secs: i128 = (left + 999) / 1000;
            if secs > u32::MAX as i128 {
                u32::MAX
            } else {
                secs as u32
            }
        }
    }
}

pub open spec fn items_view(v: Seq<DetectItem>) -> Seq<ItemView> {
    v.map_values(|it: DetectItem| it@)
}

/// No two buttons share a (core, market).
pub open spec fn keys_unique(s: Seq<ItemView>) -> bool {
    forall|i: int, j: int| 0 <= i < j < s.len() ==> !(s[i].0 == s[j].0 && s[i].2 == s[j].2)
}

pub open spec fn has_key_at(s: Seq<ItemView>, core: CoreId, market: Seq<char>, i: int) -> bool {
    0 <= i < s.len() && s[i].0 == core && s[i].2 == market
}

/// Put `it` on the ribbon: a button for the same (core, market) takes its time,
/// life and color (keeping its place and core name); otherwise it goes last.
pub open spec fn upsert(s: Seq<ItemView>, it: ItemView) -> Seq<ItemView> {
    if exists|i: int| has_key_at(s, it.0, it.2, i) {
        let i = choose|i: int| has_key_at(s, it.0, it.2, i);
        s.update(i, (s[i].0, s[i].1, s[i].2, it.3, it.4, it.5))
    } else {
        s.push(it)
    }
}

/// Life of a detect's button: its alert time in seconds (at least 1), in ms.
pub open spec fn ttl_of(d: RowView) -> i64 {
    ((if d.4 > 1 { d.4 as int } else { 1 }) * 1000) as i64
}

/// One detect of a core: only alerting detects that are not for a chart tab get a button.
pub open spec fn absorb_one(s: Seq<ItemView>, core: CoreId, name: Seq<char>, color: [u8; 3], d: RowView) -> Seq<ItemView> {
    if !d.2 || d.3 > 0 {
        s
    } else {
        upsert(s, (core, name, d.1, color, d.5, ttl_of(d)))
    }
}

/// The detects `ds` of a core, oldest first.
pub open spec fn absorb(s: Seq<ItemView>, core: CoreId, name: Seq<char>, color: [u8; 3], ds: Seq<RowView>) -> Seq<ItemView>
    decreases ds.len(),
{
    if ds.len() == 0 {
        s
    } else {
        absorb_one(absorb(s, core, name, color, ds.drop_last()), core, name, color, ds.last())
    }
}

/// Start of the run of detects, at the end of `ds`, whose numbers are above `last`.
pub open spec fn fresh_start(ds: Seq<RowView>, last: u64) -> int
    decreases ds.len(),
{
    if ds.len() == 0 {
        0
    } else if ds.last().0 <= last {
        ds.len() as int
    } else {
        fresh_start(ds.drop_last(), last)
    }
}

/// One core: its fresh detects join the ribbon and its cursor moves to its newest detect.
pub open spec fn ingest_core(items: Seq<ItemView>, last_seq: Map<CoreId, u64>, c: CoreView) -> (Seq<ItemView>, Map<CoreId, u64>) {
    match c.3 {
        None => (items, last_seq),
        Some(ds) => {
            let last = if last_seq.contains_key(c.0) { last_seq[c.0] } else { 0u64 };
            let st = fresh_start(ds, last);
            if st == ds.len() {
                (items, last_seq)
            } else {
                (absorb(items, c.0, c.1, c.2, ds.subrange(st, ds.len() as int)), last_seq.insert(c.0, ds.last().0))
            }
        },
    }
}

/// The cores in order.
pub open spec fn ingest_all(items: Seq<ItemView>, last_seq: Map<CoreId, u64>, cores: Seq<CoreView>) -> (Seq<ItemView>, Map<CoreId, u64>)
    decreases cores.len(),
{
    if cores.len() == 0 {
        (items, last_seq)
    } else {
        let p = ingest_all(items, last_seq, cores.drop_last());
        ingest_core(p.0, p.1, cores.last())
    }
}

/// The newest `MAX_DETECT_BTNS` buttons.
pub open spec fn capped(s: Seq<ItemView>) -> Seq<ItemView> {
    if s.len() > MAX_DETECT_BTNS {
        s.subrange(s.len() - MAX_DETECT_BTNS, s.len() as int)
    } else {
        s
    }
}

/// Whether a button is still alive at `now_ms`.
pub open spec fn alive(it: ItemView, now_ms: i64) -> bool {
    now_ms - it.4 < it.5
}

/// The buttons of `s` for which `f` holds, in their order.
pub open spec fn keep(s: Seq<ItemView>, f: spec_fn(ItemView) -> bool) -> Seq<ItemView>
    decreases s.len(),
{
    if s.len() == 0 {
        s
    } else {
        let p = keep(s.drop_last(), f);
        if f(s.last()) {
            p.push(s.last())
        } else {
            p
        }
    }
}

/// Seconds of life a button has left at `now_ms`, rounded up, never below zero.
pub open spec fn remaining_secs_of(it: ItemView, now_ms: i64) -> u32 {
    let left = it.5 - (now_ms - it.4);
    if left <= 0 {
        0
    } else if (left + 999) / 1000 > u32::MAX {
        u32::MAX
    } else {
        ((left + 999) / 1000) as u32
    }
}

pub proof fn lemma_keep_from(s: Seq<ItemView>, f: spec_fn(ItemView) -> bool)
    ensures
        keep(s, f).len() <= s.len(),
        forall|k: int| #![trigger keep(s, f)[k]] 0 <= k < keep(s, f).len() ==> exists|j: int| #![trigger s[j]] 0 <= j < s.len() && keep(s, f)[k] == s[j],
        forall|k: int| 0 <= k < keep(s, f).len() ==> f(#[trigger] keep(s, f)[k]),
    decreases s.len(),
{
    if s.len() > 0 {
        lemma_keep_from(s.drop_last(), f);
        let p = keep(s.drop_last(), f);
        let t = keep(s, f);
        assert forall|k: int| #![trigger t[k]] 0 <= k < t.len() implies exists|j: int| #![trigger s[j]] 0 <= j < s.len() && t[k] == s[j] by {
            if k < p.len() {
                let j = choose|j: int| #![trigger s.drop_last()[j]] 0 <= j < s.drop_last().len() && p[k] == s.drop_last()[j];
                assert(t[k] == s[j]);
            } else {
                assert(t[k] == s[s.len() - 1]);
            }
        }
        assert forall|k: int| 0 <= k < t.len() implies f(#[trigger] t[k]) by {
            if k < p.len() {
                assert(t[k] == p[k]);
            }
        }
    }
}

pub proof fn lemma_keep_unique(s: Seq<ItemView>, f: spec_fn(ItemView) -> bool)
    requires
        keys_unique(s),
    ensures
        keys_unique(keep(s, f)),
    decreases s.len(),
{
    if s.len() > 0 {
        let d = s.drop_last();
        assert(keys_unique(d)) by {
            assert forall|a: int, b: int| 0 <= a < b < d.len() implies !(d[a].0 == d[b].0 && d[a].2 == d[b].2) by {
                assert(d[a] == s[a] && d[b] == s[b]);
            }
        }
        lemma_keep_unique(d, f);
        lemma_keep_from(d, f);
        let p = keep(d, f);
        let t = keep(s, f);
        if f(s.last()) {
            assert forall|a: int, b: int| 0 <= a < b < t.len() implies !(t[a].0 == t[b].0 && t[a].2 == t[b].2) by {
                if b == t.len() - 1 {
                    let j = choose|j: int| #![trigger d[j]] 0 <= j < d.len() && p[a] == d[j];
                    assert(t[a] == s[j]);
                    assert(t[b] == s[s.len() - 1]);
                } else {
                    assert(t[a] == p[a] && t[b] == p[b]);
                }
            }
        }
    }
}

pub proof fn lemma_upsert_unique(s: Seq<ItemView>, it: ItemView)
    requires
        keys_unique(s),
    ensures
        keys_unique(upsert(s, it)),
        upsert(s, it).len() <= s.len() + 1,
{
    if exists|i: int| has_key_at(s, it.0, it.2, i) {
        let i = choose|i: int| has_key_at(s, it.0, it.2, i);
        let t = upsert(s, it);
        assert forall|a: int, b: int| 0 <= a < b < t.len() implies !(t[a].0 == t[b].0 && t[a].2 == t[b].2) by {
            assert(t[a].0 == s[a].0 && t[a].2 == s[a].2);
            assert(t[b].0 == s[b].0 && t[b].2 == s[b].2);
        }
    } else {
        let t = upsert(s, it);
        assert forall|a: int, b: int| 0 <= a < b < t.len() implies !(t[a].0 == t[b].0 && t[a].2 == t[b].2) by {
            if b == s.len() {
                assert(!has_key_at(s, it.0, it.2, a));
            }
        }
    }
}

pub proof fn lemma_absorb_unique(s: Seq<ItemView>, core: CoreId, name: Seq<char>, color: [u8; 3], ds: Seq<RowView>)
    requires
        keys_unique(s),
    ensures
        keys_unique(absorb(s, core, name, color, ds)),
    decreases ds.len(),
{
    if ds.len() > 0 {
        lemma_absorb_unique(s, core, name, color, ds.drop_last());
        let p = absorb(s, core, name, color, ds.drop_last());
        let d = ds.last();
        if !(!d.2 || d.3 > 0) {
            lemma_upsert_unique(p, (core, name, d.1, color, d.5, ttl_of(d)));
        }
    }
}

pub proof fn lemma_ingest_unique(items: Seq<ItemView>, last_seq: Map<CoreId, u64>, cores: Seq<CoreView>)
    requires
        keys_unique(items),
    ensures
        keys_unique(ingest_all(items, last_seq, cores).0),
    decreases cores.len(),
{
    if cores.len() > 0 {
        lemma_ingest_unique(items, last_seq, cores.drop_last());
        let p = ingest_all(items, last_seq, cores.drop_last());
        let c = cores.last();
        match c.3 {
            None => {},
            Some(ds) => {
                let last = if p.1.contains_key(c.0) { p.1[c.0] } else { 0u64 };
                let st = fresh_start(ds, last);
                if st != ds.len() {
                    lemma_absorb_unique(p.0, c.0, c.1, c.2, ds.subrange(st, ds.len() as int));
                }
            },
        }
    }
}

pub proof fn lemma_fresh_start_range(ds: Seq<RowView>, last: u64)
    ensures
        0 <= fresh_start(ds, last) <= ds.len(),
    decreases ds.len(),
{
    if ds.len() > 0 && ds.last().0 > last {
        lemma_fresh_start_range(ds.drop_last(), last);
    }
}

/// The cursor of core `id` (0 while the core was never looked at).
pub open spec fn cursor_of(m: Map<CoreId, u64>, id: CoreId) -> u64 {
    if m.contains_key(id) { m[id] } else { 0u64 }
}

/// A core holds no fresh detect for the cursors `m`.
pub open spec fn nothing_fresh(c: CoreView, m: Map<CoreId, u64>) -> bool {
    match c.3 {
        None => true,
        Some(ds) => fresh_start(ds, cursor_of(m, c.0)) == ds.len(),
    }
}

proof fn lemma_fresh_start_at_last(ds: Seq<RowView>, last: u64)
    requires
        ds.len() > 0,
        ds.last().0 <= last,
    ensures
        fresh_start(ds, last) == ds.len(),
{
}

proof fn lemma_nothing_fresh_mono(c: CoreView, m1: Map<CoreId, u64>, m2: Map<CoreId, u64>)
    requires
        nothing_fresh(c, m1),
        cursor_of(m2, c.0) >= cursor_of(m1, c.0),
    ensures
        nothing_fresh(c, m2),
{
    match c.3 {
        None => {},
        Some(ds) => {
            if ds.len() > 0 {
                if ds.last().0 > cursor_of(m1, c.0) {
                    lemma_fresh_start_range(ds.drop_last(), cursor_of(m1, c.0));
                }
                lemma_fresh_start_at_last(ds, cursor_of(m2, c.0));
            }
        },
    }
}

proof fn lemma_cursor_grows(items: Seq<ItemView>, m: Map<CoreId, u64>, c: CoreView, id: CoreId)
    ensures
        cursor_of(ingest_core(items, m, c).1, id) >= cursor_of(m, id),
{
    match c.3 {
        None => {},
        Some(ds) => {
            let st = fresh_start(ds, cursor_of(m, c.0));
            if st != ds.len() && id == c.0 {
                lemma_fresh_start_range(ds, cursor_of(m, c.0));
                if ds.last().0 <= cursor_of(m, c.0) {
                    lemma_fresh_start_at_last(ds, cursor_of(m, c.0));
                }
            }
        },
    }
}

proof fn lemma_quiet_pass(items: Seq<ItemView>, m: Map<CoreId, u64>, cores: Seq<CoreView>)
    requires
        forall|i: int| 0 <= i < cores.len() ==> nothing_fresh(#[trigger] cores[i], m),
    ensures
        ingest_all(items, m, cores) == (items, m),
    decreases cores.len(),
{
    if cores.len() > 0 {
        let d = cores.drop_last();
        assert forall|i: int| 0 <= i < d.len() implies nothing_fresh(#[trigger] d[i], m) by {
            assert(d[i] == cores[i]);
        }
        lemma_quiet_pass(items, m, d);
        assert(nothing_fresh(cores[cores.len() - 1], m));
    }
}

proof fn lemma_pass_leaves_nothing_fresh(items: Seq<ItemView>, cur: Map<CoreId, u64>, cores: Seq<CoreView>)
    ensures
        forall|i: int| 0 <= i < cores.len() ==> nothing_fresh(#[trigger] cores[i], ingest_all(items, cur, cores).1),
    decreases cores.len(),
{
    if cores.len() > 0 {
        let d = cores.drop_last();
        lemma_pass_leaves_nothing_fresh(items, cur, d);
        let p = ingest_all(items, cur, d);
        let c = cores.last();
        let q = ingest_all(items, cur, cores);
        assert(q == ingest_core(p.0, p.1, c));
        assert forall|i: int| 0 <= i < cores.len() implies nothing_fresh(#[trigger] cores[i], q.1) by {
            if i < cores.len() - 1 {
                assert(cores[i] == d[i]);
                assert(nothing_fresh(d[i], p.1));
                lemma_cursor_grows(p.0, p.1, c, cores[i].0);
                lemma_nothing_fresh_mono(cores[i], p.1, q.1);
            } else {
                match c.3 {
                    None => {},
                    Some(ds) => {
                        let st = fresh_start(ds, cursor_of(p.1, c.0));
                        if st != ds.len() {
                            lemma_fresh_start_range(ds, cursor_of(p.1, c.0));
                            assert(ds.len() > 0);
                            assert(cursor_of(q.1, c.0) == ds.last().0);
                            lemma_fresh_start_at_last(ds, ds.last().0);
                        }
                    },
                }
            }
        }
    }
}

/// A detect is taken in once: after a pass over the cores, a second pass over the
/// same detects adds no button and moves no cursor, whatever the buttons are by then.
pub proof fn law_second_pass_takes_nothing(items: Seq<ItemView>, cur: Map<CoreId, u64>, cores: Seq<CoreView>, later: Seq<ItemView>)
    ensures
        ingest_all(later, ingest_all(items, cur, cores).1, cores) == (later, ingest_all(items, cur, cores).1),
{
    lemma_pass_leaves_nothing_fresh(items, cur, cores);
    lemma_quiet_pass(later, ingest_all(items, cur, cores).1, cores);
}

/// The ribbon state: its buttons (oldest first) and, per core, the number of the
/// newest detect already looked at.
pub struct DetectRibbon {
    items: Vec<DetectItem>,
    last_seq: HashMap<CoreId, u64>,
}

impl DetectRibbon {
    pub closed spec fn buttons(self) -> Seq<ItemView> {
        items_view(self.items@)
    }

    pub closed spec fn cursors(self) -> Map<CoreId, u64> {
        self.last_seq@
    }

    pub closed spec fn wf(self) -> bool {
        &&& keys_unique(self.buttons())
        &&& self.buttons().len() <= MAX_DETECT_BTNS
    }

    /// An empty ribbon that has looked at nothing yet.
    pub fn new() -> (r: DetectRibbon)
        ensures
            r.wf(),
            r.buttons() == Seq::<ItemView>::empty(),
            r.cursors() == Map::<CoreId, u64>::empty(),
    {
        let r = DetectRibbon { items: Vec::new(), last_seq: HashMap::new() };
        assert(r.buttons() =~= Seq::<ItemView>::empty());
        r
    }

    /// The buttons, oldest first.
    pub fn items(&self) -> (r: &Vec<DetectItem>)
        ensures
            items_view(r@) == self.buttons(),
    {
        &self.items
    }

    /// Put one button on the ribbon.
    fn upsert_item(&mut self, it: DetectItem)
        requires
            keys_unique(old(self).buttons()),
        ensures
            final(self).buttons() == upsert(old(self).buttons(), it@),
            final(self).cursors() == old(self).cursors(),
    {
        let ghost s = self.buttons();
        let mut i: usize = 0;
        let mut found = false;
        while i < self.items.len()
            invariant
                self.buttons() == s,
                self.cursors() == old(self).cursors(),
                s == old(self).buttons(),
                keys_unique(s),
                i <= s.len(),
                found ==> i < s.len() && has_key_at(s, it@.0, it@.2, i as int),
                !found ==> forall|j: int| 0 <= j < i ==> !has_key_at(s, it@.0, it@.2, j),
            ensures
                !found ==> i == s.len(),
            decreases s.len() - i,
        {
            if self.items[i].core == it.core && self.items[i].market == it.market {
                found = true;
                break;
            }
            i = i + 1;
        }
        if found {
            proof {
                let c = choose|c: int| has_key_at(s, it@.0, it@.2, c);
                if c != i {
                    if c < i {
                        assert(!(s[c].0 == s[i as int].0 && s[c].2 == s[i as int].2));
                    } else {
                        assert(!(s[i as int].0 == s[c].0 && s[i as int].2 == s[c].2));
                    }
                }
            }
            let new_item = DetectItem {
                core: self.items[i].core,
                core_name: self.items[i].core_name.clone(),
                market: self.items[i].market.clone(),
                color: it.color,
                born_ms: it.born_ms,
                ttl_ms: it.ttl_ms,
            };
            self.items.set(i, new_item);
            proof {
                assert(self.buttons() =~= s.update(i as int, (s[i as int].0, s[i as int].1, s[i as int].2, it@.3, it@.4, it@.5)));
            }
        } else {
            proof {
                assert forall|j: int| !has_key_at(s, it@.0, it@.2, j) by {
                    if 0 <= j < s.len() {
                        assert(!has_key_at(s, it@.0, it@.2, j));
                    }
                }
            }
            self.items.push(it);
            proof {
                assert(self.buttons() =~= s.push(it@));
            }
        }
    }

    /// Keep, in order, the buttons that are not for (`drop_core`, `drop_market`) when
    /// `by_key`, else those still alive at `now_ms`.
    fn keep_where(&mut self, now_ms: i64, drop_core: CoreId, drop_market: &String, by_key: bool)
        requires
            keys_unique(old(self).buttons()),
        ensures
            final(self).cursors() == old(self).cursors(),
            by_key ==> final(self).buttons() == keep(old(self).buttons(), |it: ItemView| !(it.0 == drop_core && it.2 == drop_market@)),
            !by_key ==> final(self).buttons() == keep(old(self).buttons(), |it: ItemView| alive(it, now_ms)),
            keys_unique(final(self).buttons()),
    {
        let ghost s = self.buttons();
        let ghost f: spec_fn(ItemView) -> bool = if by_key {
            |it: ItemView| !(it.0 == drop_core && it.2 == drop_market@)
        } else {
            |it: ItemView| alive(it, now_ms)
        };
        let mut old_items: Vec<DetectItem> = Vec::new();
        std::mem::swap(&mut old_items, &mut self.items);
        proof {
            assert(items_view(old_items@) == s);
            assert(s.subrange(0, 0) =~= Seq::<ItemView>::empty());
        }
        let mut i: usize = 0;
        while i < old_items.len()
            invariant
                items_view(old_items@) == s,
                i <= s.len(),
                self.cursors() == old(self).cursors(),
                self.buttons() == keep(s.subrange(0, i as int), f),
                by_key ==> f == (|it: ItemView| !(it.0 == drop_core && it.2 == drop_market@)),
                !by_key ==> f == (|it: ItemView| alive(it, now_ms)),
            decreases s.len() - i,
        {
            let it = &old_items[i];
            let stays = if by_key {
                !(it.core == drop_core && it.market == *drop_market)
            } else {
                (now_ms as i128) - (it.born_ms as i128) < (it.ttl_ms as i128)
            };
            proof {
                let sub = s.subrange(0, i + 1);
                assert(sub.drop_last() =~= s.subrange(0, i as int));
                assert(sub.last() == it@);
                assert(stays == f(it@));
            }
            if stays {
                let ghost prev = self.buttons();
                self.items.push(it.clone_item());
                proof {
                    assert(self.buttons() =~= prev.push(it@));
                }
            }
            i = i + 1;
        }
        proof {
            assert(s.subrange(0, s.len() as int) =~= s);
            lemma_keep_unique(s, f);
        }
    }

    /// Drop the buttons whose life is over at `now_ms`.
    pub fn prune(&mut self, now_ms: i64)
        requires
            old(self).wf(),
        ensures
            final(self).wf(),
            final(self).buttons() == keep(old(self).buttons(), |it: ItemView| alive(it, now_ms)),
            final(self).cursors() == old(self).cursors(),
            forall|k: int| 0 <= k < final(self).buttons().len() ==> alive(#[trigger] final(self).buttons()[k], now_ms),
    {
        let none = String::new();
        self.keep_where(now_ms, 0, &none, false);
        proof {
            lemma_keep_from(old(self).buttons(), |it: ItemView| alive(it, now_ms));
        }
    }

    /// A click on the button of (`core`, `market`): the button leaves the ribbon and the
    /// coin is asked to open on the main chart; the request is returned.
    pub fn open(&mut self, core: CoreId, market: String) -> (req: (CoreId, String))
        requires
            old(self).wf(),
        ensures
            final(self).wf(),
            final(self).buttons() == keep(old(self).buttons(), |it: ItemView| !(it.0 == core && it.2 == market@)),
            final(self).cursors() == old(self).cursors(),
            req.0 == core,
            req.1@ == market@,
            forall|k: int| 0 <= k < final(self).buttons().len() ==>
                !((#[trigger] final(self).buttons()[k]).0 == core && final(self).buttons()[k].2 == market@),
    {
        self.keep_where(0, core, &market, true);
        proof {
            lemma_keep_from(old(self).buttons(), |it: ItemView| !(it.0 == core && it.2 == market@));
        }
        (core, market)
    }

    /// Number of the first of the detects at the end of `ds` that are above `last`.
    fn fresh_from(ds: &Vec<DetectRow>, last: u64) -> (st: usize)
        ensures
            st as int == fresh_start(rows_view(ds@), last),
    {
        let mut i: usize = ds.len();
        proof {
            assert(rows_view(ds@).subrange(0, ds@.len() as int) =~= rows_view(ds@));
        }
        while i > 0 && ds[i - 1].seq > last
            invariant
                i <= ds@.len(),
                fresh_start(rows_view(ds@), last) == fresh_start(rows_view(ds@).subrange(0, i as int), last),
            decreases i,
        {
            proof {
                let t = rows_view(ds@).subrange(0, i as int);
                assert(t.drop_last() =~= rows_view(ds@).subrange(0, i - 1));
            }
            i = i - 1;
        }
        proof {
            assert(rows_view(ds@).subrange(0, ds@.len() as int) =~= rows_view(ds@));
            let t = rows_view(ds@).subrange(0, i as int);
            if i > 0 {
                assert(t.last() == ds@[i - 1]@);
            }
        }
        i
    }

    /// Take in the fresh detects of the group's cores (in the given order), then keep
    /// the newest buttons only.
    pub fn ingest(&mut self, cores: &Vec<CoreDetects>)
        requires
            old(self).wf(),
        ensures
            final(self).wf(),
            final(self).buttons() == capped(ingest_all(old(self).buttons(), old(self).cursors(), cores_view(cores@)).0),
            final(self).cursors() == ingest_all(old(self).buttons(), old(self).cursors(), cores_view(cores@)).1,
    {
        let ghost items0 = self.buttons();
        let ghost cur0 = self.cursors();
        let mut ci: usize = 0;
        while ci < cores.len()
            invariant
                ci <= cores@.len(),
                keys_unique(self.buttons()),
                (self.buttons(), self.cursors()) == ingest_all(items0, cur0, cores_view(cores@).subrange(0, ci as int)),
            decreases cores@.len() - ci,
        {
            let c = &cores[ci];
            let ghost before = (self.buttons(), self.cursors());
            proof {
                let sub = cores_view(cores@).subrange(0, ci + 1);
                assert(sub.drop_last() =~= cores_view(cores@).subrange(0, ci as int));
                assert(sub.last() == c@);
            }
            match &c.detects {
                None => {},
                Some(ds) => {
                    let last = match self.last_seq.get(&c.id) {
                        Some(v) => *v,
                        None => 0,
                    };
                    let st = Self::fresh_from(ds, last);
                    proof {
                        lemma_fresh_start_range(rows_view(ds@), last);
                    }
                    if st < ds.len() {
                        let newest = ds[ds.len() - 1].seq;
                        self.last_seq.insert(c.id, newest);
                        let mut k: usize = st;
                        let ghost base = self.buttons();
                        proof {
                            assert(rows_view(ds@).subrange(st as int, st as int) =~= Seq::<RowView>::empty());
                        }
                        while k < ds.len()
                            invariant
                                st <= k <= ds@.len(),
                                keys_unique(base),
                                keys_unique(self.buttons()),
                                self.buttons() == absorb(base, c.id, c.name@, c.color, rows_view(ds@).subrange(st as int, k as int)),
                                self.cursors() == before.1.insert(c.id, newest),
                            decreases ds@.len() - k,
                        {
                            let d = &ds[k];
                            let ghost prev = self.buttons();
                            proof {
                                let sub = rows_view(ds@).subrange(st as int, k + 1);
                                assert(sub.drop_last() =~= rows_view(ds@).subrange(st as int, k as int));
                                assert(sub.last() == d@);
                            }
                            if d.sound_alert && d.add_to_chart <= 0 {
                                let secs: i64 = if d.keep_alert_secs > 1 { d.keep_alert_secs as i64 } else { 1 };
                                let it = DetectItem {
                                    core: c.id,
                                    core_name: c.name.clone(),
                                    market: d.market.clone(),
                                    color: c.color,
                                    born_ms: d.time_ms,
                                    ttl_ms: secs * 1000,
                                };
                                self.upsert_item(it);
                                proof {
                                    lemma_upsert_unique(prev, it@);
                                }
                            }
                            k = k + 1;
                        }
                    }
                },
            }
            ci = ci + 1;
        }
        proof {
            assert(cores_view(cores@).subrange(0, cores@.len() as int) =~= cores_view(cores@));
        }
        let ghost full = self.buttons();
        let ghost cur_final = self.cursors();
        let mut removed: usize = 0;
        let n = self.items.len();
        proof {
            assert(full.subrange(0, n as int) =~= full);
        }
        while self.items.len() > MAX_DETECT_BTNS
            invariant
                n == full.len(),
                removed <= n,
                removed + self.items@.len() == n,
                n > MAX_DETECT_BTNS ==> self.items@.len() >= MAX_DETECT_BTNS,
                n <= MAX_DETECT_BTNS ==> removed == 0,
                self.cursors() == cur_final,
                self.buttons() == full.subrange(removed as int, n as int),
                keys_unique(full),
            decreases self.items@.len(),
        {
            let ghost prev = self.buttons();
            self.items.remove(0);
            removed = removed + 1;
            proof {
                assert(self.buttons() =~= prev.subrange(1, prev.len() as int));
                assert(self.buttons() =~= full.subrange(removed as int, n as int));
            }
        }
        proof {
            if n > MAX_DETECT_BTNS {
                assert(removed == n - MAX_DETECT_BTNS);
            } else {
                assert(full.subrange(0, n as int) =~= full);
            }
            assert(self.buttons() =~= capped(full));
            assert forall|a: int, b: int| 0 <= a < b < self.buttons().len() implies
                !(self.buttons()[a].0 == self.buttons()[b].0 && self.buttons()[a].2 == self.buttons()[b].2) by {
                assert(self.buttons()[a] == full[a + removed]);
                assert(self.buttons()[b] == full[b + removed]);
            }
        }
    }
}

} // verus!
