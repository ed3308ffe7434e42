//! What the application decides about its groups and windows: which groups get a
//! window, which core a group trades on, which orders a cancel reaches, which windows
//! close with a group window.

use vstd::prelude::*;
use crate::keys::CoreId;
use crate::text::{text_eq, trimmed, trim};

verus! {

/// Preset of the manual order size chosen when a core has none yet (F3).
pub const SIZE_SEL_DEFAULT: usize = 2;

/// A configured server (a core) as the shell reads it; `group_active` says whether
/// its group is switched on in the configuration.
pub struct ServerEntry {
    pub id: CoreId,
    pub group: String,
    pub name: String,
    pub market: String,
    pub active: bool,
    pub show_window: bool,
    pub group_active: bool,
}

/// (id, group, name, market, active, show window, group active)
pub type ServerView = (CoreId, Seq<char>, Seq<char>, Seq<char>, bool, bool, bool);

pub open spec fn servers_view(v: Seq<ServerEntry>) -> Seq<ServerView> {
    v.map_values(|s: ServerEntry| (s.id, s.group@, s.name@, s.market@, s.active, s.show_window, s.group_active))
}

pub open spec fn texts_view(v: Seq<String>) -> Seq<Seq<char>> {
    v.map_values(|s: String| s@)
}

/// Whether `t` is among the texts of `list`.
pub fn contains_text(list: &Vec<String>, t: &str) -> (r: bool)
    ensures
        r == texts_view(list@).contains(t@),
{
    let mut i: usize = 0;
    while i < list.len()
        invariant
            i <= list@.len(),
            forall|k: int| 0 <= k < i ==> list@[k]@ != t@,
        decreases list@.len() - i,
    {
        if text_eq(list[i].as_str(), t) {
            proof {
                assert(texts_view(list@)[i as int] == t@);
            }
            return true;
        }
        i = i + 1;
    }
    proof {
        if texts_view(list@).contains(t@) {
            let k = choose|k: int| 0 <= k < texts_view(list@).len() && texts_view(list@)[k] == t@;
            assert(list@[k]@ == t@);
        }
    }
    false
}

/// The groups of the active servers whose group is on, each once, in order of first
/// appearance.
pub open spec fn active_groups(s: Seq<ServerView>) -> Seq<Seq<char>>
    decreases s.len(),
{
    if s.len() == 0 {
        Seq::empty()
    } else {
        let p = active_groups(s.drop_last());
        let x = s.last();
        if x.4 && x.6 && !p.contains(x.1) {
            p.push(x.1)
        } else {
            p
        }
    }
}

pub open spec fn no_repeats(s: Seq<Seq<char>>) -> bool {
    forall|i: int, j: int| 0 <= i < j < s.len() ==> s[i] != s[j]
}

/// The groups that get a window: the active groups, or the one group "default" when
/// there is none.
pub open spec fn window_groups(s: Seq<ServerView>) -> Seq<Seq<char>> {
    if active_groups(s).len() == 0 { seq!["default"@] } else { active_groups(s) }
}

pub proof fn lemma_active_groups_distinct(s: Seq<ServerView>)
    ensures
        no_repeats(active_groups(s)),
    decreases s.len(),
{
    if s.len() > 0 {
        lemma_active_groups_distinct(s.drop_last());
        let p = active_groups(s.drop_last());
        let x = s.last();
        if x.4 && x.6 && !p.contains(x.1) {
            let q = p.push(x.1);
            assert forall|i: int, j: int| 0 <= i < j < q.len() implies q[i] != q[j] by {
                if j == p.len() {
                    assert(q[i] == p[i]);
                    if p[i] == x.1 {
                        assert(p.contains(x.1));
                    }
                }
            }
        }
    }
}

/// Every window group is named once, and there is always at least one.
pub proof fn law_window_groups_distinct_nonempty(s: Seq<ServerView>)
    ensures
        no_repeats(window_groups(s)),
        window_groups(s).len() >= 1,
{
    lemma_active_groups_distinct(s);
}

pub fn groups(servers: &Vec<ServerEntry>) -> (r: Vec<String>)
    ensures
        texts_view(r@) == window_groups(servers_view(servers@)),
{
    let ghost sv = servers_view(servers@);
    let mut out: Vec<String> = Vec::new();
    let mut i: usize = 0;
    proof {
        assert(sv.subrange(0, 0) =~= Seq::<ServerView>::empty());
        assert(texts_view(out@) =~= Seq::<Seq<char>>::empty());
    }
    while i < servers.len()
        invariant
            i <= servers@.len(),
            sv == servers_view(servers@),
            texts_view(out@) == active_groups(sv.subrange(0, i as int)),
        decreases servers@.len() - i,
    {
        let s = &servers[i];
        proof {
            let sub = sv.subrange(0, i + 1);
            assert(sub.drop_last() =~= sv.subrange(0, i as int));
            assert(sub.last() == (s.id, s.group@, s.name@, s.market@, s.active, s.show_window, s.group_active));
        }
        if s.active && s.group_active && !contains_text(&out, s.group.as_str()) {
            let ghost before = texts_view(out@);
            out.push(s.group.clone());
            proof {
                assert(texts_view(out@) =~= before.push(s.group@));
            }
        }
        i = i + 1;
    }
    proof {
        assert(sv.subrange(0, servers@.len() as int) =~= sv);
    }
    if out.len() == 0 {
        let mut d: Vec<String> = Vec::new();
        d.push(String::from_str("default"));
        proof {
            assert(texts_view(d@) =~= seq!["default"@]);
        }
        d
    } else {
        out
    }
}

/// A running session: its core, its group and its name.
pub struct SessionEntry {
    pub id: CoreId,
    pub group: String,
    pub name: String,
}

pub type SessionView = (CoreId, Seq<char>, Seq<char>);

pub open spec fn sessions_view(v: Seq<SessionEntry>) -> Seq<SessionView> {
    v.map_values(|s: SessionEntry| (s.id, s.group@, s.name@))
}

pub open spec fn has_session(s: Seq<SessionView>, id: CoreId, group: Seq<char>) -> bool {
    exists|j: int| 0 <= j < s.len() && s[j].0 == id && #[trigger] s[j].1 == group
}

/// Whether a session of core `id` runs in `group`.
pub fn session_in_group(sessions: &Vec<SessionEntry>, id: CoreId, group: &str) -> (r: bool)
    ensures
        r == has_session(sessions_view(sessions@), id, group@),
{
    let ghost sv = sessions_view(sessions@);
    let mut j: usize = 0;
    while j < sessions.len()
        invariant
            j <= sessions@.len(),
            sv == sessions_view(sessions@),
            forall|k: int| 0 <= k < j ==> !(sv[k].0 == id && sv[k].1 == group@),
        decreases sessions@.len() - j,
    {
        if sessions[j].id == id && text_eq(sessions[j].group.as_str(), group) {
            proof {
                assert(sv[j as int].1 == group@);
            }
            return true;
        }
        j = j + 1;
    }
    false
}

/// A server to open a chart on: active, shown, its group on, the group's window open,
/// its session running in that group, and (when `need_market`) a market that is not
/// blank.
pub open spec fn openable(x: ServerView, windows: Seq<Seq<char>>, sessions: Seq<SessionView>, need_market: bool) -> bool {
    x.4 && x.5 && x.6 && windows.contains(x.1) && (!need_market || trimmed(x.3).len() > 0)
        && has_session(sessions, x.0, x.1)
}

/// The first openable server, by its place in the list.
pub fn find_open_candidate(servers: &Vec<ServerEntry>, windows: &Vec<String>, sessions: &Vec<SessionEntry>, need_market: bool) -> (r: Option<usize>)
    ensures
        match r {
            Some(i) => i < servers@.len()
                && openable(servers_view(servers@)[i as int], texts_view(windows@), sessions_view(sessions@), need_market)
                && forall|k: int| 0 <= k < i ==> !openable(#[trigger] servers_view(servers@)[k], texts_view(windows@), sessions_view(sessions@), need_market),
            None => forall|k: int| 0 <= k < servers@.len() ==> !openable(#[trigger] servers_view(servers@)[k], texts_view(windows@), sessions_view(sessions@), need_market),
        },
{
    let ghost sv = servers_view(servers@);
    let mut i: usize = 0;
    while i < servers.len()
        invariant
            i <= servers@.len(),
            sv == servers_view(servers@),
            forall|k: int| 0 <= k < i ==> !openable(#[trigger] sv[k], texts_view(windows@), sessions_view(sessions@), need_market),
        decreases servers@.len() - i,
    {
        let s = &servers[i];
        assert(sv[i as int] == (s.id, s.group@, s.name@, s.market@, s.active, s.show_window, s.group_active));
        let market_ok = !need_market || trim(s.market.as_str()).unicode_len() > 0;
        if s.active && s.show_window && s.group_active && contains_text(windows, s.group.as_str()) && market_ok
            && session_in_group(sessions, s.id, s.group.as_str()) {
            return Some(i);
        }
        i = i + 1;
    }
    None
}

/// An open order as a cancel reads it.
pub struct OrderFlags {
    pub uid: u64,
    pub market: String,
    pub job_is_done: bool,
    pub is_short: bool,
    pub executed: bool,
    pub pending: bool,
}

pub type FlagsView = (u64, Seq<char>, bool, bool, bool, bool);

pub open spec fn flags_view(v: Seq<OrderFlags>) -> Seq<FlagsView> {
    v.map_values(|o: OrderFlags| (o.uid, o.market@, o.job_is_done, o.is_short, o.executed, o.pending))
}

/// An order a buy-cancel on `market` reaches: of that market, its job not done, and a
/// long still buying or a pending order.
pub open spec fn cancels(o: FlagsView, market: Seq<char>) -> bool {
    o.1 == market && !o.2 && ((!o.3 && !o.4) || o.5)
}

pub open spec fn cancel_uids_spec(s: Seq<FlagsView>, market: Seq<char>) -> Seq<u64>
    decreases s.len(),
{
    if s.len() == 0 {
        Seq::empty()
    } else {
        let p = cancel_uids_spec(s.drop_last(), market);
        if cancels(s.last(), market) { p.push(s.last().0) } else { p }
    }
}

/// The uids of the orders that cancelling the buys of `market` reaches, in order.
pub fn cancel_buy_uids(orders: &Vec<OrderFlags>, market: &str) -> (r: Vec<u64>)
    ensures
        r@ == cancel_uids_spec(flags_view(orders@), market@),
{
    let ghost fv = flags_view(orders@);
    let mut out: Vec<u64> = Vec::new();
    let mut i: usize = 0;
    proof {
        assert(fv.subrange(0, 0) =~= Seq::<FlagsView>::empty());
    }
    while i < orders.len()
        invariant
            i <= orders@.len(),
            fv == flags_view(orders@),
            out@ == cancel_uids_spec(fv.subrange(0, i as int), market@),
        decreases orders@.len() - i,
    {
        let o = &orders[i];
        proof {
            let sub = fv.subrange(0, i + 1);
            assert(sub.drop_last() =~= fv.subrange(0, i as int));
            assert(sub.last() == (o.uid, o.market@, o.job_is_done, o.is_short, o.executed, o.pending));
        }
        if text_eq(o.market.as_str(), market) && !o.job_is_done && ((!o.is_short && !o.executed) || o.pending) {
            out.push(o.uid);
        }
        i = i + 1;
    }
    proof {
        assert(fv.subrange(0, orders@.len() as int) =~= fv);
    }
    out
}

/// The cores (id, name) of the sessions in `group`, or of every session when no group
/// is given, in their order.
pub open spec fn cores_of(s: Seq<SessionView>, group: Option<Seq<char>>) -> Seq<(CoreId, Seq<char>)>
    decreases s.len(),
{
    if s.len() == 0 {
        Seq::empty()
    } else {
        let p = cores_of(s.drop_last(), group);
        let x = s.last();
        if group matches Some(g) && x.1 != g { p } else { p.push((x.0, x.2)) }
    }
}

pub fn group_cores(sessions: &Vec<SessionEntry>, group: Option<&str>) -> (r: Vec<(CoreId, String)>)
    ensures
        r@.map_values(|c: (CoreId, String)| (c.0, c.1@)) == cores_of(sessions_view(sessions@), match group {
            Some(g) => Some(g@),
            None => None,
        }),
{
    let ghost sv = sessions_view(sessions@);
    let ghost g = match group { Some(g) => Some(g@), None => None };
    let mut out: Vec<(CoreId, String)> = Vec::new();
    let mut i: usize = 0;
    proof {
        assert(sv.subrange(0, 0) =~= Seq::<SessionView>::empty());
        assert(out@.map_values(|c: (CoreId, String)| (c.0, c.1@)) =~= Seq::<(CoreId, Seq<char>)>::empty());
    }
    while i < sessions.len()
        invariant
            i <= sessions@.len(),
            sv == sessions_view(sessions@),
            g == (match group { Some(g) => Some(g@), None => None }),
            out@.map_values(|c: (CoreId, String)| (c.0, c.1@)) == cores_of(sv.subrange(0, i as int), g),
        decreases sessions@.len() - i,
    {
        let s = &sessions[i];
        proof {
            let sub = sv.subrange(0, i + 1);
            assert(sub.drop_last() =~= sv.subrange(0, i as int));
            assert(sub.last() == (s.id, s.group@, s.name@));
        }
        let keep = match group {
            Some(gr) => text_eq(s.group.as_str(), gr),
            None => true,
        };
        if keep {
            let ghost before = out@;
            let name = s.name.clone();
            out.push((s.id, name));
            proof {
                assert(out@.map_values(|c: (CoreId, String)| (c.0, c.1@)) =~= before.map_values(|c: (CoreId, String)| (c.0, c.1@)).push((s.id, s.name@)));
            }
        }
        i = i + 1;
    }
    proof {
        assert(sv.subrange(0, sessions@.len() as int) =~= sv);
    }
    out
}

/// `ix` kept inside a list of `n` entries (the last one when past it).
pub fn clamp_index(ix: usize, n: usize) -> (r: usize)
    ensures
        r == (if n == 0 { 0 } else if ix < n - 1 { ix } else { (n - 1) as usize }),
{
    let last = if n == 0 { 0 } else { n - 1 };
    if ix < last { ix } else { last }
}

/// The size preset in use for a core: its own choice, else F3, kept inside the `n`
/// presets.
pub fn size_slot(saved: Option<usize>, n: usize) -> (r: usize)
    ensures
        r == (match saved {
            Some(s) => if n == 0 { 0 } else if s < n - 1 { s } else { (n - 1) as usize },
            None => if n == 0 { 0 } else if SIZE_SEL_DEFAULT < n - 1 { SIZE_SEL_DEFAULT } else { (n - 1) as usize },
        }),
{
    let sel = match saved {
        Some(s) => s,
        None => SIZE_SEL_DEFAULT,
    };
    clamp_index(sel, n)
}

// ---------------------------------------------------------------------------
// Main chart targets and the trading core of each group

pub open spec fn main_keys_unique(s: Seq<(Seq<char>, CoreId, Seq<char>)>) -> bool {
    forall|i: int, j: int| 0 <= i < j < s.len() ==> s[i].0 != s[j].0
}

pub open spec fn ovr_keys_unique(s: Seq<(Seq<char>, CoreId)>) -> bool {
    forall|i: int, j: int| 0 <= i < j < s.len() ==> s[i].0 != s[j].0
}

/// The coin open full-screen on the main chart of group `g`.
pub open spec fn main_at(s: Seq<(Seq<char>, CoreId, Seq<char>)>, g: Seq<char>) -> Option<(CoreId, Seq<char>)> {
    if exists|i: int| 0 <= i < s.len() && #[trigger] s[i].0 == g {
        let i = choose|i: int| 0 <= i < s.len() && #[trigger] s[i].0 == g;
        Some((s[i].1, s[i].2))
    } else {
        None
    }
}

/// The core chosen by hand in the header of group `g`.
pub open spec fn ovr_at(s: Seq<(Seq<char>, CoreId)>, g: Seq<char>) -> Option<CoreId> {
    if exists|i: int| 0 <= i < s.len() && #[trigger] s[i].0 == g {
        let i = choose|i: int| 0 <= i < s.len() && #[trigger] s[i].0 == g;
        Some(s[i].1)
    } else {
        None
    }
}

proof fn lemma_main_at_index(s: Seq<(Seq<char>, CoreId, Seq<char>)>, i: int)
    requires
        main_keys_unique(s),
        0 <= i < s.len(),
    ensures
        main_at(s, s[i].0) == Some((s[i].1, s[i].2)),
{
    let g = s[i].0;
    let k = choose|k: int| 0 <= k < s.len() && #[trigger] s[k].0 == g;
    if k != i {
        if k < i {
            assert(s[k].0 != s[i].0);
        } else {
            assert(s[i].0 != s[k].0);
        }
    }
}

proof fn lemma_ovr_at_index(s: Seq<(Seq<char>, CoreId)>, i: int)
    requires
        ovr_keys_unique(s),
        0 <= i < s.len(),
    ensures
        ovr_at(s, s[i].0) == Some(s[i].1),
{
    let g = s[i].0;
    let k = choose|k: int| 0 <= k < s.len() && #[trigger] s[k].0 == g;
    if k != i {
        if k < i {
            assert(s[k].0 != s[i].0);
        } else {
            assert(s[i].0 != s[k].0);
        }
    }
}

/// The trading core of group `g`: the hand-chosen one while its session still runs
/// in the group, else the core of the full-screen main chart.
pub open spec fn trade_core_spec(main: Seq<(Seq<char>, CoreId, Seq<char>)>, ovr: Seq<(Seq<char>, CoreId)>, sessions: Seq<SessionView>, g: Seq<char>) -> Option<CoreId> {
    match ovr_at(ovr, g) {
        Some(c) => if has_session(sessions, c, g) {
            Some(c)
        } else {
            match main_at(main, g) {
                Some(t) => Some(t.0),
                None => None,
            }
        },
        None => match main_at(main, g) {
            Some(t) => Some(t.0),
            None => None,
        },
    }
}

/// Per group: the coin open full-screen on the main chart, and the core chosen by hand
/// in the header (it holds until the main chart opens a coin of another core).
pub struct TargetBook {
    main: Vec<(String, CoreId, String)>,
    overrides: Vec<(String, CoreId)>,
}

impl TargetBook {
    pub closed spec fn mains(self) -> Seq<(Seq<char>, CoreId, Seq<char>)> {
        self.main@.map_values(|e: (String, CoreId, String)| (e.0@, e.1, e.2@))
    }

    pub closed spec fn ovrs(self) -> Seq<(Seq<char>, CoreId)> {
        self.overrides@.map_values(|e: (String, CoreId)| (e.0@, e.1))
    }

    pub closed spec fn wf(self) -> bool {
        main_keys_unique(self.mains()) && ovr_keys_unique(self.ovrs())
    }

    /// The main chart target of group `g`.
    pub open spec fn target(self, g: Seq<char>) -> Option<(CoreId, Seq<char>)> {
        main_at(self.mains(), g)
    }

    /// The hand-chosen core of group `g`.
    pub open spec fn chosen(self, g: Seq<char>) -> Option<CoreId> {
        ovr_at(self.ovrs(), g)
    }

    pub fn new() -> (b: TargetBook)
        ensures
            b.wf(),
            forall|g: Seq<char>| b.target(g) is None && b.chosen(g) is None,
    {
        let b = TargetBook { main: Vec::new(), overrides: Vec::new() };
        assert(b.mains() =~= Seq::<(Seq<char>, CoreId, Seq<char>)>::empty());
        assert(b.ovrs() =~= Seq::<(Seq<char>, CoreId)>::empty());
        b
    }

    fn find_main(&self, g: &str) -> (r: Option<usize>)
        ensures
            match r {
                Some(i) => i < self.mains().len() && self.mains()[i as int].0 == g@,
                None => forall|k: int| 0 <= k < self.mains().len() ==> self.mains()[k].0 != g@,
            },
    {
        let mut i: usize = 0;
        while i < self.main.len()
            invariant
                i <= self.main@.len(),
                self.mains().len() == self.main@.len(),
                forall|k: int| 0 <= k < i ==> self.mains()[k].0 != g@,
            decreases self.main@.len() - i,
        {
            assert(self.mains()[i as int].0 == self.main@[i as int].0@);
            if text_eq(self.main[i].0.as_str(), g) {
                return Some(i);
            }
            i = i + 1;
        }
        None
    }

    fn find_ovr(&self, g: &str) -> (r: Option<usize>)
        ensures
            match r {
                Some(i) => i < self.ovrs().len() && self.ovrs()[i as int].0 == g@,
                None => forall|k: int| 0 <= k < self.ovrs().len() ==> self.ovrs()[k].0 != g@,
            },
    {
        let mut i: usize = 0;
        while i < self.overrides.len()
            invariant
                i <= self.overrides@.len(),
                self.ovrs().len() == self.overrides@.len(),
                forall|k: int| 0 <= k < i ==> self.ovrs()[k].0 != g@,
            decreases self.overrides@.len() - i,
        {
            assert(self.ovrs()[i as int].0 == self.overrides@[i as int].0@);
            if text_eq(self.overrides[i].0.as_str(), g) {
                return Some(i);
            }
            i = i + 1;
        }
        None
    }

    /// The coin open full-screen on the main chart of `group`.
    pub fn main_chart_target(&self, group: &str) -> (r: Option<(CoreId, String)>)
        requires
            self.wf(),
        ensures
            match r {
                Some(t) => self.target(group@) == Some((t.0, t.1@)),
                None => self.target(group@) is None,
            },
    {
        match self.find_main(group) {
            Some(i) => {
                proof {
                    lemma_main_at_index(self.mains(), i as int);
                }
                Some((self.main[i].1, self.main[i].2.clone()))
            },
            None => None,
        }
    }

    /// The hand-chosen core of `group`, if any.
    fn chosen_core(&self, group: &str) -> (r: Option<CoreId>)
        requires
            self.wf(),
        ensures
            r == self.chosen(group@),
    {
        match self.find_ovr(group) {
            Some(i) => {
                proof {
                    lemma_ovr_at_index(self.ovrs(), i as int);
                }
                Some(self.overrides[i].1)
            },
            None => None,
        }
    }

    fn remove_override(&mut self, group: &str)
        requires
            old(self).wf(),
        ensures
            final(self).wf(),
            final(self).mains() == old(self).mains(),
            final(self).chosen(group@) is None,
            forall|h: Seq<char>| h != group@ ==> final(self).chosen(h) == old(self).chosen(h),
    {
        match self.find_ovr(group) {
            Some(i) => {
                let ghost s = self.ovrs();
                self.overrides.remove(i);
                proof {
                    let t = self.ovrs();
                    assert(t =~= s.remove(i as int));
                    assert forall|a: int, b: int| 0 <= a < b < t.len() implies t[a].0 != t[b].0 by {
                        let a2 = if a < i { a } else { a + 1 };
                        let b2 = if b < i { b } else { b + 1 };
                        assert(t[a] == s[a2] && t[b] == s[b2]);
                    }
                    assert forall|h: Seq<char>| h != group@ implies #[trigger] ovr_at(t, h) == ovr_at(s, h) by {
                        if exists|k: int| 0 <= k < s.len() && #[trigger] s[k].0 == h {
                            let k = choose|k: int| 0 <= k < s.len() && #[trigger] s[k].0 == h;
                            lemma_ovr_at_index(s, k);
                            assert(k != i);
                            let k2 = if k < i { k } else { k - 1 };
                            assert(t[k2] == s[k]);
                            lemma_ovr_at_index(t, k2);
                        } else {
                            assert forall|k: int| 0 <= k < t.len() implies #[trigger] t[k].0 != h by {
                                let k2 = if k < i { k } else { k + 1 };
                                assert(t[k] == s[k2]);
                            }
                        }
                    }
                    assert forall|k: int| 0 <= k < t.len() implies #[trigger] t[k].0 != group@ by {
                        let k2 = if k < i { k } else { k + 1 };
                        assert(t[k] == s[k2]);
                        if k2 < i {
                            assert(s[k2].0 != s[i as int].0);
                        } else {
                            assert(s[i as int].0 != s[k2].0);
                        }
                    }
                }
            },
            None => {},
        }
    }

    /// Record the hand choice of `core` as the trading core of `group`.
    pub fn set_trade_core_override(&mut self, group: &str, core: CoreId)
        requires
            old(self).wf(),
        ensures
            final(self).wf(),
            final(self).chosen(group@) == Some(core),
            forall|h: Seq<char>| h != group@ ==> final(self).chosen(h) == old(self).chosen(h),
            forall|h: Seq<char>| final(self).target(h) == old(self).target(h),
    {
        let ghost s = self.ovrs();
        match self.find_ovr(group) {
            Some(i) => {
                let key = self.overrides[i].0.clone();
                self.overrides.set(i, (key, core));
                proof {
                    let t = self.ovrs();
                    assert(t =~= s.update(i as int, (group@, core)));
                    assert forall|a: int, b: int| 0 <= a < b < t.len() implies t[a].0 != t[b].0 by {
                        assert(t[a].0 == s[a].0 && t[b].0 == s[b].0);
                    }
                    lemma_ovr_at_index(t, i as int);
                    assert forall|h: Seq<char>| h != group@ implies #[trigger] ovr_at(t, h) == ovr_at(s, h) by {
                        if exists|k: int| 0 <= k < s.len() && #[trigger] s[k].0 == h {
                            let k = choose|k: int| 0 <= k < s.len() && #[trigger] s[k].0 == h;
                            lemma_ovr_at_index(s, k);
                            assert(t[k] == s[k]);
                            lemma_ovr_at_index(t, k);
                        } else {
                            assert forall|k: int| 0 <= k < t.len() implies #[trigger] t[k].0 != h by {
                                assert(t[k].0 == s[k].0);
                            }
                        }
                    }
                }
            },
            None => {
                self.overrides.push((String::from_str(group), core));
                proof {
                    let t = self.ovrs();
                    assert(t =~= s.push((group@, core)));
                    lemma_ovr_at_index(t, s.len() as int);
                    assert forall|h: Seq<char>| h != group@ implies #[trigger] ovr_at(t, h) == ovr_at(s, h) by {
                        if exists|k: int| 0 <= k < s.len() && #[trigger] s[k].0 == h {
                            let k = choose|k: int| 0 <= k < s.len() && #[trigger] s[k].0 == h;
                            lemma_ovr_at_index(s, k);
                            assert(t[k] == s[k]);
                            lemma_ovr_at_index(t, k);
                        } else {
                            assert forall|k: int| 0 <= k < t.len() implies #[trigger] t[k].0 != h by {
                                if k < s.len() {
                                    assert(t[k] == s[k]);
                                }
                            }
                        }
                    }
                }
            },
        }
    }

    /// Open `target` full-screen on the main chart of `group` (`None`: none open). A
    /// coin of another core than before drops the hand choice of the group.
    pub fn set_main_chart_target(&mut self, group: &str, target: Option<(CoreId, String)>)
        requires
            old(self).wf(),
        ensures
            final(self).wf(),
            final(self).target(group@) == (match target {
                Some(t) => Some((t.0, t.1@)),
                None => None,
            }),
            forall|h: Seq<char>| h != group@ ==> final(self).target(h) == old(self).target(h),
            forall|h: Seq<char>| h != group@ ==> final(self).chosen(h) == old(self).chosen(h),
            final(self).chosen(group@) == (match target {
                Some(t) => if (match old(self).target(group@) { Some(p) => p.0 == t.0, None => false }) {
                    old(self).chosen(group@)
                } else {
                    None
                },
                None => old(self).chosen(group@),
            }),
    {
        let prev = self.main_chart_target(group);
        if let Some(t) = &target {
            let same = match &prev {
                Some(p) => p.0 == t.0,
                None => false,
            };
            if !same {
                self.remove_override(group);
            }
        }
        let ghost s = self.mains();
        let ghost ov = self.ovrs();
        let idx = self.find_main(group);
        match target {
            Some(t) => {
                let ghost tv = (group@, t.0, t.1@);
                match idx {
                    Some(i) => {
                        let key = self.main[i].0.clone();
                        self.main.set(i, (key, t.0, t.1));
                        proof {
                            let u = self.mains();
                            assert(u =~= s.update(i as int, tv));
                            assert forall|a: int, b: int| 0 <= a < b < u.len() implies u[a].0 != u[b].0 by {
                                assert(u[a].0 == s[a].0 && u[b].0 == s[b].0);
                            }
                            lemma_main_at_index(u, i as int);
                            assert forall|h: Seq<char>| h != group@ implies #[trigger] main_at(u, h) == main_at(s, h) by {
                                if exists|k: int| 0 <= k < s.len() && #[trigger] s[k].0 == h {
                                    let k = choose|k: int| 0 <= k < s.len() && #[trigger] s[k].0 == h;
                                    lemma_main_at_index(s, k);
                                    assert(u[k] == s[k]);
                                    lemma_main_at_index(u, k);
                                } else {
                                    assert forall|k: int| 0 <= k < u.len() implies #[trigger] u[k].0 != h by {
                                        assert(u[k].0 == s[k].0);
                                    }
                                }
                            }
                        }
                    },
                    None => {
                        self.main.push((String::from_str(group), t.0, t.1));
                        proof {
                            let u = self.mains();
                            assert(u =~= s.push(tv));
                            lemma_main_at_index(u, s.len() as int);
                            assert forall|h: Seq<char>| h != group@ implies #[trigger] main_at(u, h) == main_at(s, h) by {
                                if exists|k: int| 0 <= k < s.len() && #[trigger] s[k].0 == h {
                                    let k = choose|k: int| 0 <= k < s.len() && #[trigger] s[k].0 == h;
                                    lemma_main_at_index(s, k);
                                    assert(u[k] == s[k]);
                                    lemma_main_at_index(u, k);
                                } else {
                                    assert forall|k: int| 0 <= k < u.len() implies #[trigger] u[k].0 != h by {
                                        if k < s.len() {
                                            assert(u[k] == s[k]);
                                        }
                                    }
                                }
                            }
                        }
                    },
                }
            },
            None => {
                match idx {
                    Some(i) => {
                        self.main.remove(i);
                        proof {
                            let u = self.mains();
                            assert(u =~= s.remove(i as int));
                            assert forall|a: int, b: int| 0 <= a < b < u.len() implies u[a].0 != u[b].0 by {
                                let a2 = if a < i { a } else { a + 1 };
                                let b2 = if b < i { b } else { b + 1 };
                                assert(u[a] == s[a2] && u[b] == s[b2]);
                            }
                            assert forall|k: int| 0 <= k < u.len() implies #[trigger] u[k].0 != group@ by {
                                let k2 = if k < i { k } else { k + 1 };
                                assert(u[k] == s[k2]);
                                if k2 < i {
                                    assert(s[k2].0 != s[i as int].0);
                                } else {
                                    assert(s[i as int].0 != s[k2].0);
                                }
                            }
                            assert forall|h: Seq<char>| h != group@ implies #[trigger] main_at(u, h) == main_at(s, h) by {
                                if exists|k: int| 0 <= k < s.len() && #[trigger] s[k].0 == h {
                                    let k = choose|k: int| 0 <= k < s.len() && #[trigger] s[k].0 == h;
                                    lemma_main_at_index(s, k);
                                    assert(k != i);
                                    let k2 = if k < i { k } else { k - 1 };
                                    assert(u[k2] == s[k]);
                                    lemma_main_at_index(u, k2);
                                } else {
                                    assert forall|k: int| 0 <= k < u.len() implies #[trigger] u[k].0 != h by {
                                        let k2 = if k < i { k } else { k + 1 };
                                        assert(u[k] == s[k2]);
                                    }
                                }
                            }
                        }
                    },
                    None => {},
                }
            },
        }
    }

    /// The trading core of `group` for the header and the toolbar.
    pub fn active_trade_core(&self, group: &str, sessions: &Vec<SessionEntry>) -> (r: Option<CoreId>)
        requires
            self.wf(),
        ensures
            r == trade_core_spec(self.mains(), self.ovrs(), sessions_view(sessions@), group@),
    {
        if let Some(core) = self.chosen_core(group) {
            if session_in_group(sessions, core, group) {
                return Some(core);
            }
        }
        match self.main_chart_target(group) {
            Some(t) => Some(t.0),
            None => None,
        }
    }
}

// ---------------------------------------------------------------------------
// Windows

/// The open windows: one per group, and the chart tabs moved out into windows of
/// their own, each with its group. Windows are named by their id.
pub struct WindowBook {
    pub group_windows: Vec<(String, u64)>,
    pub detached_charts: Vec<(String, u64)>,
}

pub open spec fn pairs_view(v: Seq<(String, u64)>) -> Seq<(Seq<char>, u64)> {
    v.map_values(|e: (String, u64)| (e.0@, e.1))
}

/// The entries of `s` whose group is (`keep_group` true) or is not `g`.
pub open spec fn by_group(s: Seq<(Seq<char>, u64)>, g: Seq<char>, same: bool) -> Seq<(Seq<char>, u64)>
    decreases s.len(),
{
    if s.len() == 0 {
        s
    } else {
        let p = by_group(s.drop_last(), g, same);
        if (s.last().0 == g) == same { p.push(s.last()) } else { p }
    }
}

/// The entries of `s` whose window is not `id`.
pub open spec fn without_id(s: Seq<(Seq<char>, u64)>, id: u64) -> Seq<(Seq<char>, u64)>
    decreases s.len(),
{
    if s.len() == 0 {
        s
    } else {
        let p = without_id(s.drop_last(), id);
        if s.last().1 != id { p.push(s.last()) } else { p }
    }
}

pub open spec fn ids_of(s: Seq<(Seq<char>, u64)>) -> Seq<u64> {
    s.map_values(|e: (Seq<char>, u64)| e.1)
}

/// The group whose window is `id`: the first such entry.
pub open spec fn first_with_id(s: Seq<(Seq<char>, u64)>, id: u64) -> Option<int> {
    if exists|i: int| 0 <= i < s.len() && #[trigger] s[i].1 == id {
        Some(choose|i: int| 0 <= i < s.len() && #[trigger] s[i].1 == id && forall|k: int| 0 <= k < i ==> s[k].1 != id)
    } else {
        None
    }
}

fn keep_by_group(v: &Vec<(String, u64)>, g: &str, same: bool) -> (r: Vec<(String, u64)>)
    ensures
        pairs_view(r@) == by_group(pairs_view(v@), g@, same),
{
    let ghost pv = pairs_view(v@);
    let mut out: Vec<(String, u64)> = Vec::new();
    let mut i: usize = 0;
    proof {
        assert(pv.subrange(0, 0) =~= Seq::<(Seq<char>, u64)>::empty());
        assert(pairs_view(out@) =~= Seq::<(Seq<char>, u64)>::empty());
    }
    while i < v.len()
        invariant
            i <= v@.len(),
            pv == pairs_view(v@),
            pairs_view(out@) == by_group(pv.subrange(0, i as int), g@, same),
        decreases v@.len() - i,
    {
        proof {
            let sub = pv.subrange(0, i + 1);
            assert(sub.drop_last() =~= pv.subrange(0, i as int));
            assert(sub.last() == (v@[i as int].0@, v@[i as int].1));
        }
        if text_eq(v[i].0.as_str(), g) == same {
            let ghost before = pairs_view(out@);
            let e = (v[i].0.clone(), v[i].1);
            out.push(e);
            proof {
                assert(pairs_view(out@) =~= before.push((v@[i as int].0@, v@[i as int].1)));
            }
        }
        i = i + 1;
    }
    proof {
        assert(pv.subrange(0, v@.len() as int) =~= pv);
    }
    out
}

fn keep_without_id(v: &Vec<(String, u64)>, id: u64) -> (r: Vec<(String, u64)>)
    ensures
        pairs_view(r@) == without_id(pairs_view(v@), id),
{
    let ghost pv = pairs_view(v@);
    let mut out: Vec<(String, u64)> = Vec::new();
    let mut i: usize = 0;
    proof {
        assert(pv.subrange(0, 0) =~= Seq::<(Seq<char>, u64)>::empty());
        assert(pairs_view(out@) =~= Seq::<(Seq<char>, u64)>::empty());
    }
    while i < v.len()
        invariant
            i <= v@.len(),
            pv == pairs_view(v@),
            pairs_view(out@) == without_id(pv.subrange(0, i as int), id),
        decreases v@.len() - i,
    {
        proof {
            let sub = pv.subrange(0, i + 1);
            assert(sub.drop_last() =~= pv.subrange(0, i as int));
            assert(sub.last() == (v@[i as int].0@, v@[i as int].1));
        }
        if v[i].1 != id {
            let ghost before = pairs_view(out@);
            let e = (v[i].0.clone(), v[i].1);
            out.push(e);
            proof {
                assert(pairs_view(out@) =~= before.push((v@[i as int].0@, v@[i as int].1)));
            }
        }
        i = i + 1;
    }
    proof {
        assert(pv.subrange(0, v@.len() as int) =~= pv);
    }
    out
}

impl WindowBook {
    /// Window `id` closed. When it was a group window, it leaves the book; when no
    /// group window is left the application quits, else the chart windows of that
    /// group are to close (returned) and leave the book. Any other window just leaves
    /// the chart windows. Returns the windows to close and whether to quit.
    pub fn window_closed(&mut self, id: u64) -> (r: (Vec<u64>, bool))
        ensures
            match first_with_id(pairs_view(old(self).group_windows@), id) {
                Some(i) => {
                    let g = pairs_view(old(self).group_windows@)[i].0;
                    &&& pairs_view(final(self).group_windows@) == pairs_view(old(self).group_windows@).remove(i)
                    &&& if old(self).group_windows@.len() == 1 {
                        r.0@.len() == 0 && r.1 && pairs_view(final(self).detached_charts@) == pairs_view(old(self).detached_charts@)
                    } else {
                        &&& r.0@ == ids_of(by_group(pairs_view(old(self).detached_charts@), g, true))
                        &&& !r.1
                        &&& pairs_view(final(self).detached_charts@) == by_group(pairs_view(old(self).detached_charts@), g, false)
                    }
                },
                None => {
                    &&& r.0@.len() == 0
                    &&& !r.1
                    &&& pairs_view(final(self).group_windows@) == pairs_view(old(self).group_windows@)
                    &&& pairs_view(final(self).detached_charts@) == without_id(pairs_view(old(self).detached_charts@), id)
                },
            },
    {
        let ghost gw = pairs_view(self.group_windows@);
        let mut i: usize = 0;
        while i < self.group_windows.len()
            invariant
                i <= self.group_windows@.len(),
                gw == pairs_view(self.group_windows@),
                forall|k: int| 0 <= k < i ==> gw[k].1 != id,
            ensures
                i <= self.group_windows@.len(),
                gw == pairs_view(self.group_windows@),
                forall|k: int| 0 <= k < i ==> gw[k].1 != id,
                i < self.group_windows@.len() ==> gw[i as int].1 == id,
            decreases self.group_windows@.len() - i,
        {
            if self.group_windows[i].1 == id {
                break;
            }
            i = i + 1;
        }
        if i < self.group_windows.len() {
            proof {
                assert(gw[i as int].1 == id);
                let c = choose|c: int| 0 <= c < gw.len() && #[trigger] gw[c].1 == id && forall|k: int| 0 <= k < c ==> gw[k].1 != id;
                assert(c == i) by {
                    if c < i {
                        assert(gw[c].1 != id);
                    }
                    if c > i {
                        assert(gw[i as int].1 != id);
                    }
                }
            }
            let group = self.group_windows[i].0.clone();
            let ghost before = self.group_windows@;
            self.group_windows.remove(i);
            proof {
                assert(pairs_view(self.group_windows@) =~= gw.remove(i as int));
            }
            if self.group_windows.len() == 0 {
                return (Vec::new(), true);
            }
            let close = keep_by_group(&self.detached_charts, group.as_str(), true);
            let mut ids: Vec<u64> = Vec::new();
            let mut k: usize = 0;
            while k < close.len()
                invariant
                    k <= close@.len(),
                    ids@ == ids_of(pairs_view(close@)).subrange(0, k as int),
                decreases close@.len() - k,
            {
                ids.push(close[k].1);
                proof {
                    assert(ids@ =~= ids_of(pairs_view(close@)).subrange(0, k + 1));
                }
                k = k + 1;
            }
            proof {
                assert(ids_of(pairs_view(close@)).subrange(0, close@.len() as int) =~= ids_of(pairs_view(close@)));
            }
            let rest = keep_by_group(&self.detached_charts, group.as_str(), false);
            self.detached_charts = rest;
            (ids, false)
        } else {
            proof {
                assert(!exists|c: int| 0 <= c < gw.len() && #[trigger] gw[c].1 == id);
            }
            let rest = keep_without_id(&self.detached_charts, id);
            self.detached_charts = rest;
            (Vec::new(), false)
        }
    }
}


// ---------------------------------------------------------------------------
// The coin the debug chart windows open

/// A running session as the debug windows read it: its core, whether its connection
/// is ready, and the markets of its open orders in order.
pub struct DebugCore {
    pub id: CoreId,
    pub ready: bool,
    pub order_markets: Vec<String>,
}

pub type DebugView = (CoreId, bool, Seq<Seq<char>>);

pub open spec fn debug_view(v: Seq<DebugCore>) -> Seq<DebugView> {
    v.map_values(|c: DebugCore| (c.id, c.ready, texts_view(c.order_markets@)))
}

/// Index of the first session of core `id`.
pub open spec fn first_session(s: Seq<DebugView>, id: CoreId) -> Option<int> {
    if exists|j: int| 0 <= j < s.len() && #[trigger] s[j].0 == id {
        Some(choose|j: int| 0 <= j < s.len() && #[trigger] s[j].0 == id && forall|k: int| 0 <= k < j ==> s[k].0 != id)
    } else {
        None
    }
}

/// Whether the configured server `x` has its first session ready.
pub open spec fn server_ready(x: (CoreId, Seq<char>), s: Seq<DebugView>) -> bool {
    match first_session(s, x.0) {
        Some(j) => s[j].1,
        None => false,
    }
}

/// A text that is not blank.
pub open spec fn filled(t: Seq<char>) -> bool {
    trimmed(t).len() > 0
}

/// Whether the session has an open order on a market that is not blank.
pub open spec fn has_order_market(c: DebugView) -> bool {
    exists|k: int| 0 <= k < c.2.len() && filled(#[trigger] c.2[k])
}

/// The first order market of a session that is not blank.
pub open spec fn first_order_market(c: DebugView) -> Seq<char> {
    let k = choose|k: int| 0 <= k < c.2.len() && filled(#[trigger] c.2[k]) && forall|m: int| 0 <= m < k ==> !filled(c.2[m]);
    c.2[k]
}

fn first_filled(v: &Vec<String>) -> (r: Option<usize>)
    ensures
        match r {
            Some(k) => k < v@.len() && filled(v@[k as int]@) && forall|m: int| 0 <= m < k ==> !filled(v@[m]@),
            None => forall|m: int| 0 <= m < v@.len() ==> !filled(#[trigger] v@[m]@),
        },
{
    let mut k: usize = 0;
    while k < v.len()
        invariant
            k <= v@.len(),
            forall|m: int| 0 <= m < k ==> !filled(v@[m]@),
        decreases v@.len() - k,
    {
        if trim(v[k].as_str()).unicode_len() > 0 {
            return Some(k);
        }
        k = k + 1;
    }
    None
}

proof fn lemma_first_with_order(dv: Seq<DebugView>, j: int)
    requires
        0 <= j < dv.len(),
        has_order_market(dv[j]),
        forall|k: int| 0 <= k < j ==> !has_order_market(#[trigger] dv[k]),
    ensures
        (choose|w: int| 0 <= w < dv.len() && has_order_market(#[trigger] dv[w])
            && forall|q: int| 0 <= q < w ==> !has_order_market(dv[q])) == j,
{
    let w = choose|w: int| 0 <= w < dv.len() && has_order_market(#[trigger] dv[w])
        && forall|q: int| 0 <= q < w ==> !has_order_market(dv[q]);
    assert(w == j) by {
        if w < j {
            assert(!has_order_market(dv[w]));
        }
        if w > j {
            assert(!has_order_market(dv[j]));
        }
    }
}

/// The first order market of a session that is not blank, if any.
fn order_market_of(c: &DebugCore) -> (r: Option<String>)
    ensures
        match r {
            Some(m) => has_order_market((c.id, c.ready, texts_view(c.order_markets@)))
                && m@ == first_order_market((c.id, c.ready, texts_view(c.order_markets@))),
            None => !has_order_market((c.id, c.ready, texts_view(c.order_markets@))),
        },
{
    let ghost cv = (c.id, c.ready, texts_view(c.order_markets@));
    match first_filled(&c.order_markets) {
        Some(k) => {
            proof {
                assert(cv.2[k as int] == c.order_markets@[k as int]@);
                let m = choose|m: int| 0 <= m < cv.2.len() && filled(#[trigger] cv.2[m]) && forall|q: int| 0 <= q < m ==> !filled(cv.2[q]);
                assert(m == k) by {
                    if m < k {
                        assert(cv.2[m] == c.order_markets@[m]@);
                        assert(!filled(c.order_markets@[m]@));
                    }
                    if m > k {
                        assert(!filled(cv.2[k as int]));
                    }
                }
            }
            Some(c.order_markets[k].clone())
        },
        None => {
            proof {
                assert forall|m: int| 0 <= m < cv.2.len() implies !filled(#[trigger] cv.2[m]) by {
                    assert(cv.2[m] == c.order_markets@[m]@);
                }
            }
            None
        },
    }
}

/// The coin the debug chart windows open: on the first configured server whose first
/// session is ready, the market given for them (`env_market`, when not blank), else
/// the server's own market (trimmed, when not blank), else BTCUSDT; failing that, the
/// first order market of the first session that has one; failing that, BTCUSDT on the
/// first session.
pub fn debug_chart_target(servers: &Vec<(CoreId, String)>, sessions: &Vec<DebugCore>, env_market: Option<&str>) -> (r: Option<(CoreId, String)>)
    ensures
        ({
            let sv = servers@.map_values(|x: (CoreId, String)| (x.0, x.1@));
            let dv = debug_view(sessions@);
            if exists|i: int| 0 <= i < sv.len() && server_ready(#[trigger] sv[i], dv) {
                let i = choose|i: int| 0 <= i < sv.len() && server_ready(#[trigger] sv[i], dv)
                    && forall|k: int| 0 <= k < i ==> !server_ready(sv[k], dv);
                r matches Some(t) && t.0 == sv[i].0 && t.1@ == (match env_market {
                    Some(e) => if filled(e@) { trimmed(e@) } else if filled(sv[i].1) { trimmed(sv[i].1) } else { "BTCUSDT"@ },
                    None => if filled(sv[i].1) { trimmed(sv[i].1) } else { "BTCUSDT"@ },
                })
            } else if exists|j: int| 0 <= j < dv.len() && has_order_market(#[trigger] dv[j]) {
                let j = choose|j: int| 0 <= j < dv.len() && has_order_market(#[trigger] dv[j])
                    && forall|k: int| 0 <= k < j ==> !has_order_market(dv[k]);
                r matches Some(t) && t.0 == dv[j].0 && t.1@ == first_order_market(dv[j])
            } else if dv.len() > 0 {
                r matches Some(t) && t.0 == dv[0].0 && t.1@ == "BTCUSDT"@
            } else {
                r is None
            }
        }),
{
    let ghost sv = servers@.map_values(|x: (CoreId, String)| (x.0, x.1@));
    let ghost dv = debug_view(sessions@);
    let mut i: usize = 0;
    while i < servers.len()
        invariant
            i <= servers@.len(),
            sv == servers@.map_values(|x: (CoreId, String)| (x.0, x.1@)),
            dv == debug_view(sessions@),
            forall|k: int| 0 <= k < i ==> !server_ready(#[trigger] sv[k], dv),
        decreases servers@.len() - i,
    {
        let id = servers[i].0;
        assert(sv[i as int] == (id, servers@[i as int].1@));
        let mut j: usize = 0;
        while j < sessions.len() && sessions[j].id != id
            invariant
                j <= sessions@.len(),
                dv == debug_view(sessions@),
                forall|k: int| 0 <= k < j ==> dv[k].0 != id,
            decreases sessions@.len() - j,
        {
            j = j + 1;
        }
        proof {
            if j < sessions@.len() {
                assert(dv[j as int].0 == id);
                let c = choose|c: int| 0 <= c < dv.len() && #[trigger] dv[c].0 == id && forall|k: int| 0 <= k < c ==> dv[k].0 != id;
                assert(c == j) by {
                    if c < j {
                        assert(dv[c].0 != id);
                    }
                    if c > j {
                        assert(dv[j as int].0 != id);
                    }
                }
            } else {
                assert(!exists|c: int| 0 <= c < dv.len() && #[trigger] dv[c].0 == id);
            }
        }
        if j < sessions.len() && sessions[j].ready {
            proof {
                let c = choose|c: int| 0 <= c < sv.len() && server_ready(#[trigger] sv[c], dv)
                    && forall|k: int| 0 <= k < c ==> !server_ready(sv[k], dv);
                assert(server_ready(sv[i as int], dv));
                assert(c == i) by {
                    if c < i {
                        assert(!server_ready(sv[c], dv));
                    }
                    if c > i {
                        assert(!server_ready(sv[i as int], dv));
                    }
                }
            }
            let own = trim(servers[i].1.as_str());
            let market = match env_market {
                Some(e) => {
                    let te = trim(e);
                    if te.unicode_len() > 0 {
                        String::from_str(te)
                    } else if own.unicode_len() > 0 {
                        String::from_str(own)
                    } else {
                        String::from_str("BTCUSDT")
                    }
                },
                None => if own.unicode_len() > 0 { String::from_str(own) } else { String::from_str("BTCUSDT") },
            };
            return Some((sessions[j].id, market));
        }
        i = i + 1;
    }
    let mut j: usize = 0;
    while j < sessions.len()
        invariant
            j <= sessions@.len(),
            dv == debug_view(sessions@),
            sv == servers@.map_values(|x: (CoreId, String)| (x.0, x.1@)),
            forall|k: int| 0 <= k < sv.len() ==> !server_ready(#[trigger] sv[k], dv),
            forall|k: int| 0 <= k < j ==> !has_order_market(#[trigger] dv[k]),
        decreases sessions@.len() - j,
    {
        let c = &sessions[j];
        assert(dv[j as int] == (c.id, c.ready, texts_view(c.order_markets@)));
        match order_market_of(c) {
            Some(m) => {
                proof {
                    lemma_first_with_order(dv, j as int);
                }
                return Some((c.id, m));
            },
            None => {},
        }
        j = j + 1;
    }
    if sessions.len() > 0 {
        Some((sessions[0].id, String::from_str("BTCUSDT")))
    } else {
        None
    }
}

} // verus!
