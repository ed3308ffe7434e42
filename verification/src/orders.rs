//! The open-orders table of a group: which orders it shows, in what order, and how
//! a row reads (side, flags, columns).

use vstd::prelude::*;
use crate::keys::CoreId;
use crate::text::{lowercase, to_lower, text_eq};
use crate::shell::{SessionEntry, SessionView, sessions_view};

verus! {

/// First sort key: the displayed side that goes on top, or creation order alone.
#[derive(Clone, Copy, Debug, PartialEq, Eq, Structural)]
pub enum PrimarySort {
    SellFirst,
    BuyFirst,
    Creation,
}

/// Where the orders come from: every core of the group, or one core.
#[derive(Clone, Copy, Debug, PartialEq, Eq, Structural)]
pub enum OrdersSource {
    All,
    Core(CoreId),
}

/// Which orders by kind: all, real ones, or those of the emulator.
#[derive(Clone, Copy, Debug, PartialEq, Eq, Structural)]
pub enum OrderKind {
    All,
    Real,
    Emu,
}

pub open spec fn primary_code(p: PrimarySort) -> u8 {
    match p {
        PrimarySort::Creation => 0,
        PrimarySort::SellFirst => 1,
        PrimarySort::BuyFirst => 2,
    }
}

pub open spec fn primary_of_code(v: u8) -> PrimarySort {
    if v == 1 {
        PrimarySort::SellFirst
    } else if v == 2 {
        PrimarySort::BuyFirst
    } else {
        PrimarySort::Creation
    }
}

pub open spec fn kind_code(k: OrderKind) -> u8 {
    match k {
        OrderKind::All => 0,
        OrderKind::Real => 1,
        OrderKind::Emu => 2,
    }
}

pub open spec fn kind_of_code(v: u8) -> OrderKind {
    if v == 1 {
        OrderKind::Real
    } else if v == 2 {
        OrderKind::Emu
    } else {
        OrderKind::All
    }
}

impl PrimarySort {
    /// Stable code under which the choice is saved.
    pub fn to_u8(self) -> (r: u8)
        ensures
            r == primary_code(self),
    {
        match self {
            PrimarySort::Creation => 0,
            PrimarySort::SellFirst => 1,
            PrimarySort::BuyFirst => 2,
        }
    }

    /// The choice saved under `v`; an unknown code means creation order.
    pub fn from_u8(v: u8) -> (r: PrimarySort)
        ensures
            r == primary_of_code(v),
    {
        match v {
            1 => PrimarySort::SellFirst,
            2 => PrimarySort::BuyFirst,
            _ => PrimarySort::Creation,
        }
    }
}

impl OrderKind {
    /// Stable code under which the choice is saved.
    pub fn to_u8(self) -> (r: u8)
        ensures
            r == kind_code(self),
    {
        match self {
            OrderKind::All => 0,
            OrderKind::Real => 1,
            OrderKind::Emu => 2,
        }
    }

    /// The choice saved under `v`; an unknown code means all orders.
    pub fn from_u8(v: u8) -> (r: OrderKind)
        ensures
            r == kind_of_code(v),
    {
        match v {
            1 => OrderKind::Real,
            2 => OrderKind::Emu,
            _ => OrderKind::All,
        }
    }
}

/// Saving a sort choice and reading it back gives the same choice.
pub proof fn law_primary_code_roundtrip(p: PrimarySort)
    ensures
        primary_of_code(primary_code(p)) == p,
{
}

/// Saving an order-kind choice and reading it back gives the same choice.
pub proof fn law_kind_code_roundtrip(k: OrderKind)
    ensures
        kind_of_code(kind_code(k)) == k,
{
}

/// How the table is viewed; each panel has its own.
#[derive(Clone, Copy, Debug, PartialEq, Eq, Structural)]
pub struct OrdersViewState {
    pub source: OrdersSource,
    pub kind: OrderKind,
    pub only_current_market: bool,
    pub primary: PrimarySort,
    pub newest_first: bool,
}

impl OrdersViewState {
    /// All cores, all kinds, every market, creation order, newest first.
    pub fn new() -> (r: OrdersViewState)
        ensures
            r.source == OrdersSource::All,
            r.kind == OrderKind::All,
            !r.only_current_market,
            r.primary == PrimarySort::Creation,
            r.newest_first,
    {
        OrdersViewState {
            source: OrdersSource::All,
            kind: OrderKind::All,
            only_current_market: false,
            primary: PrimarySort::Creation,
            newest_first: true,
        }
    }

    /// The view saved with a panel: each saved field that is there replaces the default
    /// (a saved code keeps its low byte); the source is never saved and stays "all".
    pub fn from_saved(primary: Option<u64>, kind: Option<u64>, newest_first: Option<bool>, only_current: Option<bool>) -> (r: OrdersViewState)
        ensures
            r.source == OrdersSource::All,
            r.primary == (match primary {
                Some(p) => primary_of_code((p % 256) as u8),
                None => PrimarySort::Creation,
            }),
            r.kind == (match kind {
                Some(k) => kind_of_code((k % 256) as u8),
                None => OrderKind::All,
            }),
            r.newest_first == (match newest_first {
                Some(n) => n,
                None => true,
            }),
            r.only_current_market == (match only_current {
                Some(o) => o,
                None => false,
            }),
    {
        let mut v = OrdersViewState::new();
        if let Some(p) = primary {
            v.primary = PrimarySort::from_u8((p % 256) as u8);
        }
        if let Some(k) = kind {
            v.kind = OrderKind::from_u8((k % 256) as u8);
        }
        if let Some(n) = newest_first {
            v.newest_first = n;
        }
        if let Some(o) = only_current {
            v.only_current_market = o;
        }
        v
    }

    /// Replace the view by `next`; true when it changed (the panel then redraws and
    /// saves its layout).
    pub fn set(&mut self, next: OrdersViewState) -> (changed: bool)
        ensures
            *final(self) == next,
            changed == (next != *old(self)),
    {
        let changed = next != *self;
        *self = next;
        changed
    }
}

/// An order as the table reads it. `executed` says whether the entry is filled (at
/// least 99.95 %); `slot` finds the order again among the caller's own records.
pub struct OrderRow {
    pub uid: u64,
    pub market: String,
    pub is_short: bool,
    pub emulator: bool,
    pub executed: bool,
    pub slot: usize,
}

/// An order with the core it comes from.
pub struct OrderEntry {
    pub core: CoreId,
    pub core_name: String,
    pub row: OrderRow,
}

/// (core, core name, uid, market, short, emulator, executed, slot)
pub type EntryView = (CoreId, Seq<char>, u64, Seq<char>, bool, bool, bool, usize);

impl View for OrderEntry {
    type V = EntryView;

    open spec fn view(&self) -> EntryView {
        (self.core, self.core_name@, self.row.uid, self.row.market@, self.row.is_short, self.row.emulator, self.row.executed, self.row.slot)
    }
}

pub open spec fn entries_view(v: Seq<OrderEntry>) -> Seq<EntryView> {
    v.map_values(|e: OrderEntry| e@)
}

/// SELL: a long whose entry is filled (it is being sold). Never a short.
pub open spec fn spec_is_sell(e: EntryView) -> bool {
    !e.4 && e.6
}

/// BUY: a long still waiting for its entry.
pub open spec fn spec_is_buy(e: EntryView) -> bool {
    !e.4 && !e.6
}

pub fn is_sell(r: &OrderRow) -> (b: bool)
    ensures
        b == (!r.is_short && r.executed),
{
    !r.is_short && r.executed
}

pub fn is_buy(r: &OrderRow) -> (b: bool)
    ensures
        b == (!r.is_short && !r.executed),
{
    !r.is_short && !r.executed
}

/// Group of an order under the first sort key: 0 goes on top.
pub open spec fn spec_primary_key(p: PrimarySort, e: EntryView) -> u8 {
    match p {
        PrimarySort::Creation => 0,
        PrimarySort::SellFirst => if spec_is_sell(e) { 0 } else { 1 },
        PrimarySort::BuyFirst => if spec_is_buy(e) { 0 } else { 1 },
    }
}

pub fn primary_key(p: PrimarySort, r: &OrderRow) -> (k: u8)
    ensures
        k == spec_primary_key(p, (0, Seq::empty(), r.uid, r.market@, r.is_short, r.emulator, r.executed, r.slot)),
{
    match p {
        PrimarySort::Creation => 0,
        PrimarySort::SellFirst => if is_sell(r) { 0 } else { 1 },
        PrimarySort::BuyFirst => if is_buy(r) { 0 } else { 1 },
    }
}

/// Whether `a` may stand before `b`: lower group first, then by uid, the newest
/// (highest) first when `newest_first`.
pub open spec fn before_or_same(v: OrdersViewState, a: EntryView, b: EntryView) -> bool {
    let (ka, kb) = (spec_primary_key(v.primary, a), spec_primary_key(v.primary, b));
    ka < kb || (ka == kb && (if v.newest_first { a.2 >= b.2 } else { a.2 <= b.2 }))
}

/// Both sort keys of an entry.
pub open spec fn sort_key(v: OrdersViewState, e: EntryView) -> (u8, u64) {
    (spec_primary_key(v.primary, e), e.2)
}

pub open spec fn sorted_by(v: OrdersViewState, s: Seq<EntryView>) -> bool {
    forall|i: int, j: int| 0 <= i < j < s.len() ==> before_or_same(v, s[i], s[j])
}

/// The entries of `s` with sort key `k`, in their order.
pub open spec fn with_key(v: OrdersViewState, s: Seq<EntryView>, k: (u8, u64)) -> Seq<EntryView>
    decreases s.len(),
{
    if s.len() == 0 {
        s
    } else {
        let p = with_key(v, s.drop_last(), k);
        if sort_key(v, s.last()) == k {
            p.push(s.last())
        } else {
            p
        }
    }
}

/// Whether the table shows an entry: its source, its kind, and (when asked) the coin
/// open on the main chart.
pub open spec fn shown(v: OrdersViewState, current: Option<(CoreId, Seq<char>)>, e: EntryView) -> bool {
    let by_source = match v.source {
        OrdersSource::All => true,
        OrdersSource::Core(id) => e.0 == id,
    };
    let by_kind = match v.kind {
        OrderKind::All => true,
        OrderKind::Real => !e.5,
        OrderKind::Emu => e.5,
    };
    by_source && by_kind && (!v.only_current_market || match current {
        Some(c) => e.0 == c.0 && e.3 == c.1,
        None => true,
    })
}

/// The shown entries of `s`, in their order.
pub open spec fn shown_entries(v: OrdersViewState, current: Option<(CoreId, Seq<char>)>, s: Seq<EntryView>) -> Seq<EntryView>
    decreases s.len(),
{
    if s.len() == 0 {
        s
    } else {
        let p = shown_entries(v, current, s.drop_last());
        if shown(v, current, s.last()) {
            p.push(s.last())
        } else {
            p
        }
    }
}

pub open spec fn current_view(current: &Option<(CoreId, String)>) -> Option<(CoreId, Seq<char>)> {
    match current {
        Some(c) => Some((c.0, c.1@)),
        None => None,
    }
}

proof fn lemma_with_key_add(v: OrdersViewState, a: Seq<EntryView>, b: Seq<EntryView>, k: (u8, u64))
    ensures
        with_key(v, a + b, k) == with_key(v, a, k) + with_key(v, b, k),
    decreases b.len(),
{
    if b.len() == 0 {
        assert(a + b =~= a);
        assert(with_key(v, a, k) + with_key(v, b, k) =~= with_key(v, a, k));
    } else {
        assert((a + b).drop_last() =~= a + b.drop_last());
        assert((a + b).last() == b.last());
        lemma_with_key_add(v, a, b.drop_last(), k);
        let l = with_key(v, a, k);
        let r = with_key(v, b.drop_last(), k);
        if sort_key(v, b.last()) == k {
            assert((l + r).push(b.last()) =~= l + r.push(b.last()));
        }
    }
}

proof fn lemma_with_key_none(v: OrdersViewState, s: Seq<EntryView>, k: (u8, u64))
    requires
        forall|i: int| 0 <= i < s.len() ==> sort_key(v, #[trigger] s[i]) != k,
    ensures
        with_key(v, s, k) == Seq::<EntryView>::empty(),
    decreases s.len(),
{
    if s.len() > 0 {
        assert(sort_key(v, s[s.len() - 1]) != k);
        lemma_with_key_none(v, s.drop_last(), k);
    }
}

proof fn lemma_with_key_one(v: OrdersViewState, x: EntryView, k: (u8, u64))
    ensures
        with_key(v, seq![x], k) == (if sort_key(v, x) == k { seq![x] } else { Seq::<EntryView>::empty() }),
{
    let s = seq![x];
    let e = Seq::<EntryView>::empty();
    assert(s.drop_last() =~= e);
    assert(with_key(v, e, k) == e);
    assert(s.last() == x);
    assert(e.push(x) =~= seq![x]);
    assert(with_key(v, s, k) == (if sort_key(v, x) == k { e.push(x) } else { e }));
}

/// Inserting `x` at `p` into a sorted `s`, after every entry that may stand before it
/// and before every one that may not, keeps `s` sorted and puts `x` last among the
/// entries of its key.
proof fn lemma_insert_sorted(v: OrdersViewState, s: Seq<EntryView>, x: EntryView, p: int)
    requires
        sorted_by(v, s),
        0 <= p <= s.len(),
        forall|i: int| 0 <= i < p ==> before_or_same(v, #[trigger] s[i], x),
        forall|i: int| p <= i < s.len() ==> !before_or_same(v, #[trigger] s[i], x),
    ensures
        sorted_by(v, s.insert(p, x)),
        forall|k: (u8, u64)| #[trigger] with_key(v, s.insert(p, x), k) == if sort_key(v, x) == k {
            with_key(v, s, k).push(x)
        } else {
            with_key(v, s, k)
        },
{
    let t = s.insert(p, x);
    assert forall|i: int, j: int| 0 <= i < j < t.len() implies before_or_same(v, t[i], t[j]) by {
        if j < p {
            assert(t[i] == s[i] && t[j] == s[j]);
        } else if j == p {
            assert(t[i] == s[i]);
        } else if i < p {
            assert(t[i] == s[i] && t[j] == s[j - 1]);
        } else if i == p {
            assert(t[j] == s[j - 1]);
            assert(!before_or_same(v, s[j - 1], x));
        } else {
            assert(t[i] == s[i - 1] && t[j] == s[j - 1]);
        }
    }
    let a = s.subrange(0, p);
    let b = s.subrange(p, s.len() as int);
    assert(t =~= a + seq![x] + b);
    assert(s =~= a + b);
    assert forall|k: (u8, u64)| #[trigger] with_key(v, t, k) == if sort_key(v, x) == k {
        with_key(v, s, k).push(x)
    } else {
        with_key(v, s, k)
    } by {
        lemma_with_key_add(v, a + seq![x], b, k);
        lemma_with_key_add(v, a, seq![x], k);
        lemma_with_key_add(v, a, b, k);
        lemma_with_key_one(v, x, k);
        if sort_key(v, x) == k {
            assert forall|i: int| 0 <= i < b.len() implies sort_key(v, #[trigger] b[i]) != k by {
                assert(b[i] == s[p + i]);
                assert(!before_or_same(v, s[p + i], x));
            }
            lemma_with_key_none(v, b, k);
            assert(with_key(v, a, k) + with_key(v, b, k) =~= with_key(v, a, k));
            assert(with_key(v, a, k) + seq![x] =~= with_key(v, a, k).push(x));
            assert(with_key(v, a, k) + seq![x] + with_key(v, b, k) =~= with_key(v, a, k).push(x));
        } else {
            assert(with_key(v, a, k) + Seq::<EntryView>::empty() =~= with_key(v, a, k));
        }
    }
}

/// The same entry view, once more as an owned entry.
fn clone_entry(e: &OrderEntry) -> (r: OrderEntry)
    ensures
        r@ == e@,
{
    OrderEntry {
        core: e.core,
        core_name: e.core_name.clone(),
        row: OrderRow {
            uid: e.row.uid,
            market: e.row.market.clone(),
            is_short: e.row.is_short,
            emulator: e.row.emulator,
            executed: e.row.executed,
            slot: e.row.slot,
        },
    }
}

/// Whether `a` may stand before `b` under the view's sort.
fn comes_before(v: &OrdersViewState, a: &OrderEntry, b: &OrderEntry) -> (r: bool)
    ensures
        r == before_or_same(*v, a@, b@),
{
    let ka = primary_key(v.primary, &a.row);
    let kb = primary_key(v.primary, &b.row);
    ka < kb || (ka == kb && (if v.newest_first { a.row.uid >= b.row.uid } else { a.row.uid <= b.row.uid }))
}

/// Whether the table shows `e`.
pub fn entry_shown(v: &OrdersViewState, current: &Option<(CoreId, String)>, e: &OrderEntry) -> (r: bool)
    ensures
        r == shown(*v, current_view(current), e@),
{
    let by_source = match v.source {
        OrdersSource::All => true,
        OrdersSource::Core(id) => e.core == id,
    };
    let by_kind = match v.kind {
        OrderKind::All => true,
        OrderKind::Real => !e.row.emulator,
        OrderKind::Emu => e.row.emulator,
    };
    by_source && by_kind && (!v.only_current_market || match current {
        Some(c) => e.core == c.0 && e.row.market == c.1,
        None => true,
    })
}

/// The rows of the table: the shown entries of `entries`, sorted by the view's keys
/// (group, then uid), entries with equal keys keeping their order.
pub fn build_entries(entries: &Vec<OrderEntry>, view: &OrdersViewState, current: &Option<(CoreId, String)>) -> (r: Vec<OrderEntry>)
    ensures
        sorted_by(*view, entries_view(r@)),
        forall|k: (u8, u64)| #[trigger] with_key(*view, entries_view(r@), k)
            == with_key(*view, shown_entries(*view, current_view(current), entries_view(entries@)), k),
{
    let ghost cur = current_view(current);
    let ghost src = entries_view(entries@);
    let mut out: Vec<OrderEntry> = Vec::new();
    let mut i: usize = 0;
    proof {
        assert(src.subrange(0, 0) =~= Seq::<EntryView>::empty());
    }
    while i < entries.len()
        invariant
            i <= entries@.len(),
            src == entries_view(entries@),
            cur == current_view(current),
            sorted_by(*view, entries_view(out@)),
            forall|k: (u8, u64)| #[trigger] with_key(*view, entries_view(out@), k)
                == with_key(*view, shown_entries(*view, cur, src.subrange(0, i as int)), k),
        decreases entries@.len() - i,
    {
        let e = &entries[i];
        let ghost pre = src.subrange(0, i as int);
        proof {
            let sub = src.subrange(0, i + 1);
            assert(sub.drop_last() =~= pre);
            assert(sub.last() == e@);
        }
        if entry_shown(view, current, e) {
            let ghost so = entries_view(out@);
            let mut p: usize = out.len();
            while p > 0 && !comes_before(view, &out[p - 1], e)
                invariant
                    p <= out@.len(),
                    so == entries_view(out@),
                    forall|j: int| p <= j < so.len() ==> !before_or_same(*view, #[trigger] so[j], e@),
                decreases p,
            {
                p = p - 1;
            }
            proof {
                assert forall|j: int| 0 <= j < p implies before_or_same(*view, #[trigger] so[j], e@) by {
                    if p > 0 {
                        assert(before_or_same(*view, so[p - 1], e@));
                        if j < p - 1 {
                            assert(before_or_same(*view, so[j], so[p - 1]));
                            let (kj, kp, ke) = (spec_primary_key(view.primary, so[j]), spec_primary_key(view.primary, so[p - 1]), spec_primary_key(view.primary, e@));
                            assert(kj <= kp && kp <= ke);
                        }
                    }
                }
                lemma_insert_sorted(*view, so, e@, p as int);
            }
            out.insert(p, clone_entry(e));
            proof {
                assert(entries_view(out@) =~= so.insert(p as int, e@));
                let sub = src.subrange(0, i + 1);
                assert(sub.drop_last() =~= pre);
                assert(sub.last() == e@);
                assert(shown(*view, cur, e@));
                assert(shown_entries(*view, cur, sub) == shown_entries(*view, cur, pre).push(e@));
                assert forall|k: (u8, u64)| #[trigger] with_key(*view, entries_view(out@), k)
                    == with_key(*view, shown_entries(*view, cur, src.subrange(0, i + 1)), k) by {
                    let sp = shown_entries(*view, cur, pre);
                    assert(sp.push(e@).drop_last() =~= sp);
                    assert(with_key(*view, so, k) == with_key(*view, sp, k));
                }
            }
        } else {
            proof {
                let sub = src.subrange(0, i + 1);
                assert(sub.drop_last() =~= pre);
                assert(sub.last() == e@);
                assert(!shown(*view, cur, e@));
                assert(shown_entries(*view, cur, sub) == shown_entries(*view, cur, pre));
            }
        }
        i = i + 1;
    }
    proof {
        assert(src.subrange(0, entries@.len() as int) =~= src);
    }
    out
}

/// Colour role of a cell.
#[derive(Clone, Copy, Debug, PartialEq, Eq, Structural)]
pub enum Tone {
    Info,
    Danger,
    Positive,
    Muted,
}

/// Text of the side cell: SELL for a filled long, SHORT for a short, BUY for a
/// waiting long, with "(E)" after it for an emulator order.
pub open spec fn side_text(e: EntryView) -> Seq<char> {
    let base = if spec_is_sell(e) { "SELL"@ } else if e.4 { "SHORT"@ } else { "BUY"@ };
    if e.5 { base + "(E)"@ } else { base }
}

pub open spec fn side_tone(e: EntryView) -> Tone {
    if spec_is_sell(e) { Tone::Info } else if e.4 { Tone::Danger } else { Tone::Positive }
}

/// The side cell of an order row: its text and its colour role.
pub fn side_cell(r: &OrderRow) -> (c: (String, Tone))
    ensures
        c.0@ == side_text((0, Seq::empty(), r.uid, r.market@, r.is_short, r.emulator, r.executed, r.slot)),
        c.1 == side_tone((0, Seq::empty(), r.uid, r.market@, r.is_short, r.emulator, r.executed, r.slot)),
{
    let (base, tone) = if is_sell(r) {
        ("SELL", Tone::Info)
    } else if r.is_short {
        ("SHORT", Tone::Danger)
    } else {
        ("BUY", Tone::Positive)
    };
    let mut s = String::from_str(base);
    if r.emulator {
        s.append("(E)");
    }
    (s, tone)
}

/// An ON/OFF flag cell (SL, TS, Vstop): ON in the positive tone, OFF muted.
pub fn flag_cell(on: bool) -> (c: (String, Tone))
    ensures
        c.0@ == (if on { "ON"@ } else { "OFF"@ }),
        c.1 == (if on { Tone::Positive } else { Tone::Muted }),
{
    if on {
        (String::from_str("ON"), Tone::Positive)
    } else {
        (String::from_str("OFF"), Tone::Muted)
    }
}

/// A column of a data table: its key, its title, its least width in logical pixels,
/// and whether it holds numbers (aligned right).
pub struct ColumnSpec {
    pub key: String,
    pub title: String,
    pub width_px: u32,
    pub numeric: bool,
}

pub open spec fn column_view(c: ColumnSpec) -> (Seq<char>, Seq<char>, u32, bool) {
    (c.key@, c.title@, c.width_px, c.numeric)
}

/// A text column.
fn text_column(key: &str, title: &str, width_px: u32) -> (c: ColumnSpec)
    ensures
        c.key@ == key@,
        c.title@ == title@,
        c.width_px == width_px,
        !c.numeric,
{
    ColumnSpec { key: String::from_str(key), title: String::from_str(title), width_px, numeric: false }
}

/// A numeric column, keyed by its title in lower case.
pub fn numeric_column(title: &str, width_px: u32) -> (c: ColumnSpec)
    ensures
        c.key@ == lowercase(title@),
        c.title@ == title@,
        c.width_px == width_px,
        c.numeric,
{
    ColumnSpec { key: to_lower(title), title: String::from_str(title), width_px, numeric: true }
}

/// The columns of the orders table, in order: Core · Side · Token · Size · SL · TS ·
/// Vstop · Buy · Cur.P · Fill · Strat.
pub open spec fn order_columns_spec() -> Seq<(Seq<char>, Seq<char>, u32, bool)> {
    seq![
        ("core"@, "Core"@, 90u32, false),
        ("side"@, "Side"@, 60u32, false),
        (lowercase("Token"@), "Token"@, 70u32, true),
        (lowercase("Size"@), "Size"@, 70u32, true),
        ("sl"@, "SL"@, 46u32, false),
        ("ts"@, "TS"@, 46u32, false),
        ("vstop"@, "Vstop"@, 56u32, false),
        (lowercase("Buy"@), "Buy"@, 80u32, true),
        (lowercase("Cur.P"@), "Cur.P"@, 86u32, true),
        (lowercase("Fill"@), "Fill"@, 56u32, true),
        (lowercase("Strat"@), "Strat"@, 90u32, true),
    ]
}

pub fn order_columns() -> (cols: Vec<ColumnSpec>)
    ensures
        cols@.map_values(|c: ColumnSpec| column_view(c)) == order_columns_spec(),
{
    let mut cols: Vec<ColumnSpec> = Vec::new();
    cols.push(text_column("core", "Core", 90));
    cols.push(text_column("side", "Side", 60));
    cols.push(numeric_column("Token", 70));
    cols.push(numeric_column("Size", 70));
    cols.push(text_column("sl", "SL", 46));
    cols.push(text_column("ts", "TS", 46));
    cols.push(text_column("vstop", "Vstop", 56));
    cols.push(numeric_column("Buy", 80));
    cols.push(numeric_column("Cur.P", 86));
    cols.push(numeric_column("Fill", 56));
    cols.push(numeric_column("Strat", 90));
    proof {
        assert(cols@.map_values(|c: ColumnSpec| column_view(c)) =~= order_columns_spec());
    }
    cols
}

/// Sum of a list of counts.
pub open spec fn total(counts: Seq<usize>) -> int
    decreases counts.len(),
{
    if counts.len() == 0 { 0 } else { total(counts.drop_last()) + counts.last() }
}

/// The number of open orders the session store holds for core `id`: that of its
/// first entry, none when the store has no data for the core.
pub open spec fn store_count(store: Seq<(CoreId, usize)>, id: CoreId) -> Option<usize>
    decreases store.len(),
{
    if store.len() == 0 {
        None
    } else if store[0].0 == id {
        Some(store[0].1)
    } else {
        store_count(store.drop_first(), id)
    }
}

/// What a session adds to the order count of `group`: its core's open orders when
/// the session is of exactly that group and the store has data for its core, else 0.
pub open spec fn session_orders(s: SessionView, store: Seq<(CoreId, usize)>, group: Seq<char>) -> usize {
    if s.1 == group {
        match store_count(store, s.0) {
            Some(n) => n,
            None => 0,
        }
    } else {
        0
    }
}

/// Open orders of a group: the sum over its sessions of their cores' open orders.
pub open spec fn group_orders(sessions: Seq<SessionView>, store: Seq<(CoreId, usize)>, group: Seq<char>) -> int {
    total(sessions.map_values(|s: SessionView| session_orders(s, store, group)))
}

/// The open orders the store holds for core `id`, if it has data for it.
fn core_order_count(store: &Vec<(CoreId, usize)>, id: CoreId) -> (r: Option<usize>)
    ensures
        r == store_count(store@, id),
{
    let mut i: usize = 0;
    proof {
        assert(store@.subrange(0, store@.len() as int) =~= store@);
    }
    while i < store.len()
        invariant
            i <= store@.len(),
            store_count(store@, id) == store_count(store@.subrange(i as int, store@.len() as int), id),
        decreases store@.len() - i,
    {
        let ghost rest = store@.subrange(i as int, store@.len() as int);
        assert(rest[0] == store@[i as int]);
        if store[i].0 == id {
            return Some(store[i].1);
        }
        assert(rest.drop_first() =~= store@.subrange(i + 1, store@.len() as int));
        i = i + 1;
    }
    None
}

/// Number of open orders of all the cores of `group`, for the status bar: over the
/// running sessions of exactly that group, the open orders the session store holds
/// for each one's core (`store` lists a core's id and its number of open orders);
/// a session whose core has no data in the store adds nothing.
pub fn count_orders(sessions: &Vec<SessionEntry>, store: &Vec<(CoreId, usize)>, group: &str) -> (n: usize)
    requires
        group_orders(sessions_view(sessions@), store@, group@) <= usize::MAX,
    ensures
        n == group_orders(sessions_view(sessions@), store@, group@),
{
    let ghost c = sessions_view(sessions@).map_values(|s: SessionView| session_orders(s, store@, group@));
    let mut n: usize = 0;
    let mut i: usize = 0;
    proof {
        assert(c.subrange(0, 0) =~= Seq::<usize>::empty());
    }
    while i < sessions.len()
        invariant
            i <= sessions@.len(),
            c == sessions_view(sessions@).map_values(|s: SessionView| session_orders(s, store@, group@)),
            c.len() == sessions@.len(),
            total(c) <= usize::MAX,
            n == total(c.subrange(0, i as int)),
        decreases sessions@.len() - i,
    {
        let s = &sessions[i];
        let add: usize = if text_eq(s.group.as_str(), group) {
            match core_order_count(store, s.id) {
                Some(k) => k,
                None => 0,
            }
        } else {
            0
        };
        proof {
            assert(sessions_view(sessions@)[i as int] == (s.id, s.group@, s.name@));
            assert(c[i as int] == add);
            let sub = c.subrange(0, i + 1);
            assert(sub.drop_last() =~= c.subrange(0, i as int));
            lemma_total_prefix(c, i + 1);
        }
        n = n + add;
        i = i + 1;
    }
    proof {
        assert(c.subrange(0, c.len() as int) =~= c);
    }
    n
}

proof fn lemma_total_prefix(s: Seq<usize>, i: int)
    requires
        0 <= i <= s.len(),
    ensures
        total(s.subrange(0, i)) <= total(s),
    decreases s.len() - i,
{
    if i < s.len() {
        lemma_total_prefix(s, i + 1);
        let sub = s.subrange(0, i + 1);
        assert(sub.drop_last() =~= s.subrange(0, i));
    } else {
        assert(s.subrange(0, i) =~= s);
    }
}

/// Signature of the orders of a group: fold of the cores' table revisions,
/// `acc * 31 + rev` modulo 2^64.
pub open spec fn sig_of(revs: Seq<u64>) -> u64
    decreases revs.len(),
{
    if revs.len() == 0 {
        0
    } else {
        ((sig_of(revs.drop_last()) * 31 + revs.last()) % 0x1_0000_0000_0000_0000) as u64
    }
}

pub fn orders_sig(revs: &Vec<u64>) -> (sig: u64)
    ensures
        sig == sig_of(revs@),
{
    let mut a: u64 = 0;
    let mut i: usize = 0;
    proof {
        assert(revs@.subrange(0, 0) =~= Seq::<u64>::empty());
    }
    while i < revs.len()
        invariant
            i <= revs@.len(),
            a == sig_of(revs@.subrange(0, i as int)),
        decreases revs@.len() - i,
    {
        proof {
            let sub = revs@.subrange(0, i + 1);
            assert(sub.drop_last() =~= revs@.subrange(0, i as int));
        }
        let m = a.wrapping_mul(31);
        let r = m.wrapping_add(revs[i]);
        proof {
            assert(m == (a * 31) % 0x1_0000_0000_0000_0000);
            assert(r == (m + revs[i as int]) % 0x1_0000_0000_0000_0000);
            assert((((a * 31) % 0x1_0000_0000_0000_0000) + revs[i as int]) % 0x1_0000_0000_0000_0000
                == (a * 31 + revs[i as int]) % 0x1_0000_0000_0000_0000) by (nonlinear_arith);
        }
        a = r;
        i = i + 1;
    }
    proof {
        assert(revs@.subrange(0, revs@.len() as int) =~= revs@);
    }
    a
}

/// The entries picked out by `with_key` come from the sequence and carry that key;
/// each entry of the sequence is among those picked out by its own key.
proof fn lemma_with_key_members(v: OrdersViewState, s: Seq<EntryView>)
    ensures
        forall|k: (u8, u64), x: EntryView| #[trigger] with_key(v, s, k).contains(x) ==> s.contains(x) && sort_key(v, x) == k,
        forall|j: int| 0 <= j < s.len() ==> #[trigger] with_key(v, s, sort_key(v, s[j])).contains(s[j]),
    decreases s.len(),
{
    if s.len() > 0 {
        let d = s.drop_last();
        lemma_with_key_members(v, d);
        assert forall|k: (u8, u64), x: EntryView| #[trigger] with_key(v, s, k).contains(x) implies s.contains(x) && sort_key(v, x) == k by {
            let p = with_key(v, d, k);
            if sort_key(v, s.last()) == k && x == s.last() {
                assert(s[s.len() - 1] == x);
            } else {
                if sort_key(v, s.last()) == k {
                    let t = choose|t: int| 0 <= t < p.push(s.last()).len() && p.push(s.last())[t] == x;
                    assert(p[t] == x);
                }
                assert(p.contains(x));
                let u = choose|u: int| 0 <= u < d.len() && d[u] == x;
                assert(s[u] == x);
            }
        }
        assert forall|j: int| 0 <= j < s.len() implies #[trigger] with_key(v, s, sort_key(v, s[j])).contains(s[j]) by {
            let k = sort_key(v, s[j]);
            let p = with_key(v, d, k);
            if j < s.len() - 1 {
                assert(d[j] == s[j]);
                assert(p.contains(s[j]));
                let t = choose|t: int| 0 <= t < p.len() && p[t] == s[j];
                if sort_key(v, s.last()) == k {
                    assert(p.push(s.last())[t] == s[j]);
                }
            } else {
                let pp = p.push(s.last());
                assert(pp[pp.len() - 1] == s[j]);
            }
        }
    }
}

/// Every entry that `shown_entries` keeps is shown.
proof fn lemma_shown_entries_shown(v: OrdersViewState, c: Option<(CoreId, Seq<char>)>, s: Seq<EntryView>)
    ensures
        forall|x: EntryView| #[trigger] shown_entries(v, c, s).contains(x) ==> shown(v, c, x),
    decreases s.len(),
{
    if s.len() > 0 {
        let d = s.drop_last();
        lemma_shown_entries_shown(v, c, d);
        assert forall|x: EntryView| #[trigger] shown_entries(v, c, s).contains(x) implies shown(v, c, x) by {
            let p = shown_entries(v, c, d);
            if shown(v, c, s.last()) && x != s.last() {
                let t = choose|t: int| 0 <= t < p.push(s.last()).len() && p.push(s.last())[t] == x;
                assert(p[t] == x);
                assert(p.contains(x));
            }
        }
    }
}

/// The kind filter of the orders table: an entry is shown under "real" only if it is
/// no emulator order, under "emulator" only if it is one; a chosen source core and
/// the current market likewise hold of every shown entry.
pub proof fn law_entry_filters(v: OrdersViewState, c: Option<(CoreId, Seq<char>)>, e: EntryView)
    requires
        shown(v, c, e),
    ensures
        v.kind == OrderKind::Real ==> !e.5,
        v.kind == OrderKind::Emu ==> e.5,
        v.source matches OrdersSource::Core(id) ==> e.0 == id,
        v.only_current_market ==> (c matches Some(cc) ==> e.0 == cc.0 && e.3 == cc.1),
{
}

/// Every row of a built orders table passes the view's filters: with kind "real" no
/// row is an emulator order, with kind "emulator" every row is one, with a chosen
/// source core every row is of that core, and with "current market only" every row
/// is of the current core and market.
pub proof fn law_built_rows_pass_filters(v: OrdersViewState, c: Option<(CoreId, Seq<char>)>, src: Seq<EntryView>, out: Seq<EntryView>)
    requires
        sorted_by(v, out),
        forall|k: (u8, u64)| #[trigger] with_key(v, out, k) == with_key(v, shown_entries(v, c, src), k),
    ensures
        forall|i: int| 0 <= i < out.len() && v.kind == OrderKind::Real ==> !(#[trigger] out[i]).5,
        forall|i: int| 0 <= i < out.len() && v.kind == OrderKind::Emu ==> (#[trigger] out[i]).5,
        forall|i: int| 0 <= i < out.len() ==> (v.source matches OrdersSource::Core(id) ==> (#[trigger] out[i]).0 == id),
        forall|i: int| 0 <= i < out.len() && v.only_current_market ==>
            (c matches Some(cc) ==> (#[trigger] out[i]).0 == cc.0 && out[i].3 == cc.1),
{
    lemma_with_key_members(v, out);
    lemma_with_key_members(v, shown_entries(v, c, src));
    lemma_shown_entries_shown(v, c, src);
    assert forall|i: int| 0 <= i < out.len() implies shown(v, c, #[trigger] out[i]) by {
        let k = sort_key(v, out[i]);
        assert(with_key(v, out, k).contains(out[i]));
        assert(with_key(v, shown_entries(v, c, src), k).contains(out[i]));
        assert(shown_entries(v, c, src).contains(out[i]));
    }
}


/// Order of a built table: sorted by creation, the uids fall from row to row when the
/// newest come first and rise otherwise; sell-first (buy-first) puts every sell (buy)
/// row above every other row.
pub proof fn law_built_rows_order(v: OrdersViewState, out: Seq<EntryView>)
    requires
        sorted_by(v, out),
    ensures
        forall|i: int, j: int| 0 <= i < j < out.len() && v.primary == PrimarySort::Creation && v.newest_first
            ==> (#[trigger] out[i]).2 >= (#[trigger] out[j]).2,
        forall|i: int, j: int| 0 <= i < j < out.len() && v.primary == PrimarySort::Creation && !v.newest_first
            ==> (#[trigger] out[i]).2 <= (#[trigger] out[j]).2,
        forall|i: int, j: int| 0 <= i < j < out.len() && v.primary == PrimarySort::SellFirst && spec_is_sell(#[trigger] out[j])
            ==> spec_is_sell(#[trigger] out[i]),
        forall|i: int, j: int| 0 <= i < j < out.len() && v.primary == PrimarySort::BuyFirst && spec_is_buy(#[trigger] out[j])
            ==> spec_is_buy(#[trigger] out[i]),
{
    assert forall|i: int, j: int| 0 <= i < j < out.len() implies before_or_same(v, #[trigger] out[i], #[trigger] out[j]) by {
    }
}

} // verus!
