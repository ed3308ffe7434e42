//! The log panel: its sources, the merged log of a group's cores, the search and
//! "errors only" filter, and how a line reads.

use vstd::prelude::*;
use crate::keys::CoreId;
use crate::text::{lowercase, trimmed, occurs_in, text_lt, lemma_text_lt_total, to_lower, trim, contains, push_char, text_less};
use crate::orders::{sig_of, orders_sig};

verus! {

/// Lines kept in view.
pub const VIEW_LIMIT: usize = 5000;

/// Lines taken from each core for the merged log.
pub const AGG_PER_CORE: usize = 2000;

/// Severity of a log line.
#[derive(Clone, Copy, Debug, PartialEq, Eq, Structural)]
pub enum LogLevel {
    Error,
    Warn,
    Info,
    Debug,
    Trace,
}

/// A log line: its time stamp (`date time`), level, source, message, and whether the
/// log store counts it as an error.
pub struct LogLine {
    pub ts: String,
    pub level: LogLevel,
    pub target: String,
    pub msg: String,
    pub errorish: bool,
}

pub type LineView = (Seq<char>, LogLevel, Seq<char>, Seq<char>, bool);

impl View for LogLine {
    type V = LineView;

    open spec fn view(&self) -> LineView {
        (self.ts@, self.level, self.target@, self.msg@, self.errorish)
    }
}

pub open spec fn lines_view(v: Seq<LogLine>) -> Seq<LineView> {
    v.map_values(|l: LogLine| l@)
}

impl LogLine {
    /// A copy of the line.
    pub fn copy(&self) -> (r: LogLine)
        ensures
            r@ == self@,
    {
        LogLine {
            ts: self.ts.clone(),
            level: self.level,
            target: self.target.clone(),
            msg: self.msg.clone(),
            errorish: self.errorish,
        }
    }
}

/// The level badge of a line and its colour: ERR in `red`, WARN in `amber`, none
/// for the other levels.
pub fn level_tag(level: LogLevel, red: u32, amber: u32) -> (r: Option<(String, u32)>)
    ensures
        level == LogLevel::Error ==> (r matches Some(t) && t.0@ == "ERR"@ && t.1 == red),
        level == LogLevel::Warn ==> (r matches Some(t) && t.0@ == "WARN"@ && t.1 == amber),
        level != LogLevel::Error && level != LogLevel::Warn ==> r is None,
{
    match level {
        LogLevel::Error => Some((String::from_str("ERR"), red)),
        LogLevel::Warn => Some((String::from_str("WARN"), amber)),
        _ => None,
    }
}

/// The part of a time stamp after its last space (the whole stamp without one).
pub open spec fn after_last_space(s: Seq<char>) -> Seq<char>
    decreases s.len(),
{
    if s.len() == 0 {
        s
    } else if s.last() == ' ' {
        Seq::empty()
    } else {
        after_last_space(s.drop_last()).push(s.last())
    }
}

/// A message on one line: each line break shown as " ⏎ ".
pub open spec fn flat(s: Seq<char>) -> Seq<char>
    decreases s.len(),
{
    if s.len() == 0 {
        s
    } else if s.last() == '\n' {
        flat(s.drop_last()) + seq![' ', '⏎', ' ']
    } else {
        flat(s.drop_last()).push(s.last())
    }
}

proof fn lemma_after_last_space(s: Seq<char>, k: int)
    requires
        0 <= k <= s.len(),
        k == 0 || s[k - 1] == ' ',
        forall|j: int| k <= j < s.len() ==> s[j] != ' ',
    ensures
        after_last_space(s) == s.subrange(k, s.len() as int),
    decreases s.len(),
{
    if s.len() == k {
        if k == 0 {
            assert(s =~= s.subrange(k, s.len() as int));
        } else {
            assert(s.subrange(k, s.len() as int) =~= Seq::<char>::empty());
        }
    } else {
        let d = s.drop_last();
        assert(k == 0 || d[k - 1] == ' ');
        lemma_after_last_space(d, k);
        assert(d.subrange(k, d.len() as int).push(s.last()) =~= s.subrange(k, s.len() as int));
    }
}

/// The time of a stamp: what follows its last space.
pub fn time_part(ts: &str) -> (r: String)
    ensures
        r@ == after_last_space(ts@),
{
    let n = ts.unicode_len();
    let mut i: usize = n;
    while i > 0 && ts.get_char(i - 1) != ' '
        invariant
            i <= n,
            n == ts@.len(),
            forall|j: int| i <= j < n ==> ts@[j] != ' ',
        decreases i,
    {
        i = i - 1;
    }
    proof {
        lemma_after_last_space(ts@, i as int);
    }
    let part = ts.substring_char(i, n);
    String::from_str(part)
}

/// The message on one line.
pub fn flatten(msg: &str) -> (r: String)
    ensures
        r@ == flat(msg@),
{
    let mut out = String::new();
    let n = msg.unicode_len();
    let mut i: usize = 0;
    proof {
        assert(msg@.subrange(0, 0) =~= Seq::<char>::empty());
    }
    while i < n
        invariant
            i <= n,
            n == msg@.len(),
            out@ == flat(msg@.subrange(0, i as int)),
        decreases n - i,
    {
        let c = msg.get_char(i);
        proof {
            let sub = msg@.subrange(0, i + 1);
            assert(sub.drop_last() =~= msg@.subrange(0, i as int));
            assert(sub.last() == c);
        }
        if c == '\n' {
            let ghost before = out@;
            push_char(&mut out, ' ');
            push_char(&mut out, '⏎');
            push_char(&mut out, ' ');
            proof {
                assert(out@ =~= before + seq![' ', '⏎', ' ']);
            }
        } else {
            push_char(&mut out, c);
        }
        i = i + 1;
    }
    proof {
        assert(msg@.subrange(0, n as int) =~= msg@);
    }
    out
}

/// How a log line reads: time, level badge, source (when there is one), message.
pub struct RowText {
    pub time: String,
    pub tag: Option<(String, u32)>,
    pub target: Option<String>,
    pub text: String,
}

pub fn log_row(line: &LogLine, red: u32, amber: u32) -> (r: RowText)
    ensures
        r.time@ == after_last_space(line.ts@),
        line.level == LogLevel::Error ==> (r.tag matches Some(t) && t.0@ == "ERR"@ && t.1 == red),
        line.level == LogLevel::Warn ==> (r.tag matches Some(t) && t.0@ == "WARN"@ && t.1 == amber),
        line.level != LogLevel::Error && line.level != LogLevel::Warn ==> r.tag is None,
        line.target@.len() == 0 ==> r.target is None,
        line.target@.len() > 0 ==> (r.target matches Some(t) && t@ == line.target@),
        r.text@ == flat(line.msg@),
{
    let tag = level_tag(line.level, red, amber);
    let target = if line.target.as_str().unicode_len() == 0 {
        None
    } else {
        Some(line.target.clone())
    };
    RowText { time: time_part(line.ts.as_str()), tag, target, text: flatten(line.msg.as_str()) }
}

// ---------------------------------------------------------------------------
// Sources

/// Where the lines come from: the merged log of the group, the application's own
/// log, or one core's server log.
#[derive(Clone, Copy, Debug, PartialEq, Eq, Structural)]
pub enum LogSource {
    Aggregate,
    Local,
    Core(CoreId),
}

/// An entry of the source list: the source, its display name, and the label its log
/// files are saved under.
pub struct LogSourceItem {
    pub source: LogSource,
    pub display: String,
    pub file_label: String,
}

/// A configured core as the source list reads it (`file_label` is its name made
/// safe for a file name).
pub struct ServerLog {
    pub id: CoreId,
    pub group: String,
    pub name: String,
    pub file_label: String,
}

pub type SourceView = (LogSource, Seq<char>, Seq<char>);

pub open spec fn source_view(s: LogSourceItem) -> SourceView {
    (s.source, s.display@, s.file_label@)
}

pub open spec fn sources_view(v: Seq<LogSourceItem>) -> Seq<SourceView> {
    v.map_values(|s: LogSourceItem| source_view(s))
}

/// The cores listed after the merged and local logs: those of the group, or all of
/// them when no group is given.
pub open spec fn core_sources(group: Seq<char>, servers: Seq<(CoreId, Seq<char>, Seq<char>, Seq<char>)>) -> Seq<SourceView>
    decreases servers.len(),
{
    if servers.len() == 0 {
        Seq::empty()
    } else {
        let p = core_sources(group, servers.drop_last());
        let s = servers.last();
        if group.len() > 0 && s.1 != group {
            p
        } else {
            p.push((LogSource::Core(s.0), s.2, s.3))
        }
    }
}

pub open spec fn servers_view(v: Seq<ServerLog>) -> Seq<(CoreId, Seq<char>, Seq<char>, Seq<char>)> {
    v.map_values(|s: ServerLog| (s.id, s.group@, s.name@, s.file_label@))
}

/// The source list: the merged log (named `group_label` for a group, `all_label`
/// otherwise), the application's log (`local_label`, files under "app"), then the cores.
pub fn build_sources(group: &String, servers: &Vec<ServerLog>, group_label: &str, all_label: &str, local_label: &str) -> (r: Vec<LogSourceItem>)
    ensures
        sources_view(r@) == seq![
            (LogSource::Aggregate, if group@.len() > 0 { group_label@ } else { all_label@ }, Seq::<char>::empty()),
            (LogSource::Local, local_label@, "app"@),
        ] + core_sources(group@, servers_view(servers@)),
{
    let scoped = group.as_str().unicode_len() > 0;
    let mut v: Vec<LogSourceItem> = Vec::new();
    v.push(LogSourceItem {
        source: LogSource::Aggregate,
        display: if scoped { String::from_str(group_label) } else { String::from_str(all_label) },
        file_label: String::new(),
    });
    v.push(LogSourceItem { source: LogSource::Local, display: String::from_str(local_label), file_label: String::from_str("app") });
    let ghost head = sources_view(v@);
    let mut i: usize = 0;
    proof {
        assert(servers_view(servers@).subrange(0, 0) =~= Seq::empty());
        assert(head + core_sources(group@, Seq::empty()) =~= head);
    }
    while i < servers.len()
        invariant
            i <= servers@.len(),
            scoped == (group@.len() > 0),
            sources_view(v@) == head + core_sources(group@, servers_view(servers@).subrange(0, i as int)),
        decreases servers@.len() - i,
    {
        let s = &servers[i];
        proof {
            let sub = servers_view(servers@).subrange(0, i + 1);
            assert(sub.drop_last() =~= servers_view(servers@).subrange(0, i as int));
            assert(sub.last() == (s.id, s.group@, s.name@, s.file_label@));
        }
        if !(scoped && s.group != *group) {
            let ghost before = sources_view(v@);
            v.push(LogSourceItem { source: LogSource::Core(s.id), display: s.name.clone(), file_label: s.file_label.clone() });
            proof {
                assert(sources_view(v@) =~= before.push((LogSource::Core(s.id), s.name@, s.file_label@)));
                let cs = core_sources(group@, servers_view(servers@).subrange(0, i as int));
                assert((head + cs).push((LogSource::Core(s.id), s.name@, s.file_label@)) =~= head + cs.push((LogSource::Core(s.id), s.name@, s.file_label@)));
            }
        }
        i = i + 1;
    }
    proof {
        assert(servers_view(servers@).subrange(0, servers@.len() as int) =~= servers_view(servers@));
        reveal_strlit("app");
    }
    v
}

/// The file label of the chosen source: that of its first entry in the list, "app"
/// when it is not listed.
pub open spec fn label_of(s: Seq<SourceView>, cur: LogSource) -> Seq<char>
    decreases s.len(),
{
    if s.len() == 0 {
        "app"@
    } else if s[0].0 == cur {
        s[0].2
    } else {
        label_of(s.drop_first(), cur)
    }
}

pub fn file_label(sources: &Vec<LogSourceItem>, current: LogSource) -> (r: String)
    ensures
        r@ == label_of(sources_view(sources@), current),
{
    let mut i: usize = 0;
    proof {
        assert(sources_view(sources@).subrange(0, sources@.len() as int) =~= sources_view(sources@));
    }
    while i < sources.len()
        invariant
            i <= sources@.len(),
            label_of(sources_view(sources@), current) == label_of(sources_view(sources@).subrange(i as int, sources@.len() as int), current),
        decreases sources@.len() - i,
    {
        let ghost rest = sources_view(sources@).subrange(i as int, sources@.len() as int);
        assert(rest[0] == source_view(sources@[i as int]));
        if sources[i].source == current {
            return sources[i].file_label.clone();
        }
        assert(rest.drop_first() =~= sources_view(sources@).subrange(i + 1, sources@.len() as int));
        i = i + 1;
    }
    String::from_str("app")
}

/// What the panel shows: a live log, or a saved file.
pub enum LogFile {
    Live,
    Named(String),
}

pub open spec fn file_view(f: LogFile) -> Option<Seq<char>> {
    match f {
        LogFile::Live => None,
        LogFile::Named(n) => Some(n@),
    }
}

/// The choices of a log panel.
pub struct LogViewState {
    pub source: LogSource,
    pub file: LogFile,
    pub errors_only: bool,
}

impl LogViewState {
    /// The merged log, live, errors only.
    pub fn new() -> (r: LogViewState)
        ensures
            r.source == LogSource::Aggregate,
            file_view(r.file) is None,
            r.errors_only,
    {
        LogViewState { source: LogSource::Aggregate, file: LogFile::Live, errors_only: true }
    }

    /// Choose a source; a new one goes back to the live log. True when it changed.
    pub fn set_source(&mut self, s: LogSource) -> (changed: bool)
        ensures
            changed == (s != old(self).source),
            final(self).source == s,
            final(self).errors_only == old(self).errors_only,
            changed ==> file_view(final(self).file) is None,
            !changed ==> file_view(final(self).file) == file_view(old(self).file),
    {
        if self.source != s {
            self.source = s;
            self.file = LogFile::Live;
            true
        } else {
            false
        }
    }

    /// Choose the live log or a file. True when it changed.
    pub fn set_file(&mut self, f: LogFile) -> (changed: bool)
        ensures
            changed == (file_view(f) != file_view(old(self).file)),
            file_view(final(self).file) == file_view(f),
            final(self).source == old(self).source,
            final(self).errors_only == old(self).errors_only,
    {
        let same = match (&self.file, &f) {
            (LogFile::Live, LogFile::Live) => true,
            (LogFile::Named(a), LogFile::Named(b)) => *a == *b,
            _ => false,
        };
        self.file = f;
        !same
    }
}

// ---------------------------------------------------------------------------
// Filter

/// Whether a line stays under the filter: an error when `errors_only`, and its
/// message holding the query `q` (already trimmed and lowered) when there is one,
/// regardless of case.
pub open spec fn line_kept(l: LineView, errors_only: bool, q: Seq<char>) -> bool {
    (!errors_only || l.4) && (q.len() == 0 || occurs_in(lowercase(l.3), q))
}

pub open spec fn kept_lines(s: Seq<LineView>, errors_only: bool, q: Seq<char>) -> Seq<LineView>
    decreases s.len(),
{
    if s.len() == 0 {
        s
    } else {
        let p = kept_lines(s.drop_last(), errors_only, q);
        if line_kept(s.last(), errors_only, q) {
            p.push(s.last())
        } else {
            p
        }
    }
}

/// After the filter ran: when the number of shown lines changed and some are shown,
/// the list scrolls to the last one.
pub fn scroll_after_filter(prev_len: usize, new_len: usize) -> (r: Option<usize>)
    ensures
        r == (if prev_len != new_len && new_len > 0 { Some((new_len - 1) as usize) } else { None }),
{
    if prev_len != new_len && new_len > 0 {
        Some(new_len - 1)
    } else {
        None
    }
}

/// The lines shown for the search text `query` and the "errors only" switch, in order.
pub fn filter_lines(raw: &Vec<LogLine>, errors_only: bool, query: &str) -> (r: Vec<LogLine>)
    ensures
        lines_view(r@) == kept_lines(lines_view(raw@), errors_only, lowercase(trimmed(query@))),
{
    let q = to_lower(trim(query));
    let qn = q.as_str().unicode_len();
    let mut out: Vec<LogLine> = Vec::new();
    let mut i: usize = 0;
    let ghost src = lines_view(raw@);
    proof {
        assert(src.subrange(0, 0) =~= Seq::<LineView>::empty());
    }
    while i < raw.len()
        invariant
            i <= raw@.len(),
            src == lines_view(raw@),
            q@ == lowercase(trimmed(query@)),
            qn == q@.len(),
            lines_view(out@) == kept_lines(src.subrange(0, i as int), errors_only, q@),
        decreases raw@.len() - i,
    {
        let l = &raw[i];
        proof {
            let sub = src.subrange(0, i + 1);
            assert(sub.drop_last() =~= src.subrange(0, i as int));
            assert(sub.last() == l@);
        }
        let keep = (!errors_only || l.errorish) && (qn == 0 || contains(to_lower(l.msg.as_str()).as_str(), q.as_str()));
        if keep {
            let ghost before = lines_view(out@);
            out.push(l.copy());
            proof {
                assert(lines_view(out@) =~= before.push(l@));
            }
        }
        i = i + 1;
    }
    proof {
        assert(src.subrange(0, raw@.len() as int) =~= src);
    }
    out
}

// ---------------------------------------------------------------------------
// Merged log

/// One core's part of the merged log: its display name and its latest lines.
pub struct CoreLog {
    pub display: String,
    pub lines: Vec<LogLine>,
}

/// The lines of the cores one after the other, each with its core's name as source.
pub open spec fn tagged(cores: Seq<(Seq<char>, Seq<LineView>)>) -> Seq<LineView>
    decreases cores.len(),
{
    if cores.len() == 0 {
        Seq::empty()
    } else {
        let c = cores.last();
        tagged(cores.drop_last()) + c.1.map_values(|l: LineView| (l.0, l.1, c.0, l.3, l.4))
    }
}

pub open spec fn cores_view(v: Seq<CoreLog>) -> Seq<(Seq<char>, Seq<LineView>)> {
    v.map_values(|c: CoreLog| (c.display@, lines_view(c.lines@)))
}

/// In time order (time stamps read as text, which is chronological).
pub open spec fn sorted_by_time(s: Seq<LineView>) -> bool {
    forall|i: int, j: int| 0 <= i < j < s.len() ==> !text_lt(s[j].0, s[i].0)
}

/// The lines of `s` stamped `t`, in their order.
pub open spec fn stamped(s: Seq<LineView>, t: Seq<char>) -> Seq<LineView>
    decreases s.len(),
{
    if s.len() == 0 {
        s
    } else {
        let p = stamped(s.drop_last(), t);
        if s.last().0 == t {
            p.push(s.last())
        } else {
            p
        }
    }
}

/// The newest `VIEW_LIMIT` lines.
pub open spec fn last_lines(s: Seq<LineView>) -> Seq<LineView> {
    if s.len() > VIEW_LIMIT {
        s.subrange(s.len() - VIEW_LIMIT, s.len() as int)
    } else {
        s
    }
}

proof fn lemma_stamped_add(a: Seq<LineView>, b: Seq<LineView>, t: Seq<char>)
    ensures
        stamped(a + b, t) == stamped(a, t) + stamped(b, t),
    decreases b.len(),
{
    if b.len() == 0 {
        assert(a + b =~= a);
        assert(stamped(a, t) + stamped(b, t) =~= stamped(a, t));
    } else {
        assert((a + b).drop_last() =~= a + b.drop_last());
        assert((a + b).last() == b.last());
        lemma_stamped_add(a, b.drop_last(), t);
        let l = stamped(a, t);
        let r = stamped(b.drop_last(), t);
        if b.last().0 == t {
            assert((l + r).push(b.last()) =~= l + r.push(b.last()));
        }
    }
}

proof fn lemma_stamped_none(s: Seq<LineView>, t: Seq<char>)
    requires
        forall|i: int| 0 <= i < s.len() ==> (#[trigger] s[i]).0 != t,
    ensures
        stamped(s, t) == Seq::<LineView>::empty(),
    decreases s.len(),
{
    if s.len() > 0 {
        assert(s[s.len() - 1].0 != t);
        lemma_stamped_none(s.drop_last(), t);
    }
}

proof fn lemma_stamped_one(x: LineView, t: Seq<char>)
    ensures
        stamped(seq![x], t) == (if x.0 == t { seq![x] } else { Seq::<LineView>::empty() }),
{
    let s = seq![x];
    let e = Seq::<LineView>::empty();
    assert(s.drop_last() =~= e);
    assert(stamped(e, t) == e);
    assert(s.last() == x);
    assert(e.push(x) =~= seq![x]);
    assert(stamped(s, t) == (if x.0 == t { e.push(x) } else { e }));
}

proof fn lemma_insert_by_time(s: Seq<LineView>, x: LineView, p: int)
    requires
        sorted_by_time(s),
        0 <= p <= s.len(),
        forall|i: int| 0 <= i < p ==> !text_lt(x.0, (#[trigger] s[i]).0),
        forall|i: int| p <= i < s.len() ==> text_lt(x.0, (#[trigger] s[i]).0),
    ensures
        sorted_by_time(s.insert(p, x)),
        forall|t: Seq<char>| #[trigger] stamped(s.insert(p, x), t) == if x.0 == t {
            stamped(s, t).push(x)
        } else {
            stamped(s, t)
        },
{
    let u = s.insert(p, x);
    assert forall|i: int, j: int| 0 <= i < j < u.len() implies !text_lt(u[j].0, u[i].0) by {
        if j < p {
            assert(u[i] == s[i] && u[j] == s[j]);
        } else if j == p {
            assert(u[i] == s[i]);
        } else if i < p {
            assert(u[i] == s[i] && u[j] == s[j - 1]);
            assert(!text_lt(x.0, s[i].0));
            assert(text_lt(x.0, s[j - 1].0));
            lemma_text_lt_total(s[j - 1].0, s[i].0);
            lemma_text_lt_total(x.0, s[i].0);
            if text_lt(s[j - 1].0, s[i].0) {
                lemma_text_lt_trans(x.0, s[j - 1].0, s[i].0);
            }
        } else if i == p {
            assert(u[j] == s[j - 1]);
            lemma_text_lt_total(x.0, s[j - 1].0);
        } else {
            assert(u[i] == s[i - 1] && u[j] == s[j - 1]);
        }
    }
    let a = s.subrange(0, p);
    let b = s.subrange(p, s.len() as int);
    assert(u =~= a + seq![x] + b);
    assert(s =~= a + b);
    assert forall|t: Seq<char>| #[trigger] stamped(u, t) == if x.0 == t {
        stamped(s, t).push(x)
    } else {
        stamped(s, t)
    } by {
        lemma_stamped_add(a + seq![x], b, t);
        lemma_stamped_add(a, seq![x], t);
        lemma_stamped_add(a, b, t);
        lemma_stamped_one(x, t);
        if x.0 == t {
            assert forall|i: int| 0 <= i < b.len() implies (#[trigger] b[i]).0 != t by {
                assert(b[i] == s[p + i]);
                assert(text_lt(x.0, s[p + i].0));
                lemma_text_lt_total(x.0, x.0);
            }
            lemma_stamped_none(b, t);
            assert(stamped(a, t) + stamped(b, t) =~= stamped(a, t));
            assert(stamped(a, t) + seq![x] + stamped(b, t) =~= stamped(a, t).push(x));
        } else {
            assert(stamped(a, t) + Seq::<LineView>::empty() =~= stamped(a, t));
        }
    }
}

proof fn lemma_text_lt_trans(a: Seq<char>, b: Seq<char>, c: Seq<char>)
    requires
        text_lt(a, b),
        text_lt(b, c),
    ensures
        text_lt(a, c),
{
    crate::keys::lemma_bytes_order_trans(vstd::utf8::encode_utf8(a), vstd::utf8::encode_utf8(b), vstd::utf8::encode_utf8(c));
}

/// Put `x` into the time-ordered `out`, after every line stamped no later.
fn insert_by_time(out: &mut Vec<LogLine>, x: LogLine)
    requires
        sorted_by_time(lines_view(old(out)@)),
    ensures
        sorted_by_time(lines_view(final(out)@)),
        forall|t: Seq<char>| #[trigger] stamped(lines_view(final(out)@), t) == if x@.0 == t {
            stamped(lines_view(old(out)@), t).push(x@)
        } else {
            stamped(lines_view(old(out)@), t)
        },
{
    let ghost so = lines_view(out@);
    let mut p: usize = out.len();
    while p > 0 && text_less(x.ts.as_str(), out[p - 1].ts.as_str())
        invariant
            p <= out@.len(),
            so == lines_view(out@),
            forall|j: int| p <= j < so.len() ==> text_lt(x@.0, (#[trigger] so[j]).0),
        decreases p,
    {
        p = p - 1;
    }
    proof {
        assert forall|j: int| 0 <= j < p implies !text_lt(x@.0, (#[trigger] so[j]).0) by {
            assert(!text_lt(x@.0, so[p - 1].0));
            if j < p - 1 {
                assert(!text_lt(so[p - 1].0, so[j].0));
                lemma_text_lt_total(x@.0, so[j].0);
                lemma_text_lt_total(so[p - 1].0, so[j].0);
                lemma_text_lt_total(x@.0, so[p - 1].0);
                if text_lt(x@.0, so[j].0) {
                    if so[p - 1].0 == so[j].0 {
                    } else if text_lt(so[j].0, so[p - 1].0) {
                        lemma_text_lt_trans(x@.0, so[j].0, so[p - 1].0);
                    }
                }
            }
        }
        lemma_insert_by_time(so, x@, p as int);
    }
    let ghost xv = x@;
    out.insert(p, x);
    proof {
        assert(lines_view(out@) =~= so.insert(p as int, xv));
    }
}

/// The merge of the cores' parts: their lines, each with its core's name as source,
/// in time order (lines with the same stamp keep their order), and only the newest
/// `VIEW_LIMIT` of them.
pub fn merge_core_logs(cores: &Vec<CoreLog>) -> (r: Vec<LogLine>)
    ensures
        exists|m: Seq<LineView>| #![trigger last_lines(m)]
            sorted_by_time(m)
            && (forall|t: Seq<char>| #[trigger] stamped(m, t) == stamped(tagged(cores_view(cores@)), t))
            && lines_view(r@) == last_lines(m),
{
    let ghost cs = cores_view(cores@);
    let mut merged: Vec<LogLine> = Vec::new();
    let mut ci: usize = 0;
    proof {
        assert(cs.subrange(0, 0) =~= Seq::<(Seq<char>, Seq<LineView>)>::empty());
    }
    while ci < cores.len()
        invariant
            ci <= cores@.len(),
            cs == cores_view(cores@),
            sorted_by_time(lines_view(merged@)),
            forall|t: Seq<char>| #[trigger] stamped(lines_view(merged@), t) == stamped(tagged(cs.subrange(0, ci as int)), t),
        decreases cores@.len() - ci,
    {
        let c = &cores[ci];
        let ghost done = tagged(cs.subrange(0, ci as int));
        let ghost mine = lines_view(c.lines@).map_values(|l: LineView| (l.0, l.1, c.display@, l.3, l.4));
        proof {
            let sub = cs.subrange(0, ci + 1);
            assert(sub.drop_last() =~= cs.subrange(0, ci as int));
            assert(sub.last() == (c.display@, lines_view(c.lines@)));
            assert(tagged(sub) == done + mine);
            assert(mine.subrange(0, 0) =~= Seq::<LineView>::empty());
            assert(done + mine.subrange(0, 0) =~= done);
        }
        let mut k: usize = 0;
        while k < c.lines.len()
            invariant
                k <= c.lines@.len(),
                mine == lines_view(c.lines@).map_values(|l: LineView| (l.0, l.1, c.display@, l.3, l.4)),
                sorted_by_time(lines_view(merged@)),
                forall|t: Seq<char>| #[trigger] stamped(lines_view(merged@), t) == stamped(done + mine.subrange(0, k as int), t),
            decreases c.lines@.len() - k,
        {
            let l = &c.lines[k];
            let x = LogLine { ts: l.ts.clone(), level: l.level, target: c.display.clone(), msg: l.msg.clone(), errorish: l.errorish };
            let ghost before = lines_view(merged@);
            insert_by_time(&mut merged, x);
            proof {
                assert(mine[k as int] == x@);
                let nxt = done + mine.subrange(0, k + 1);
                let cur = done + mine.subrange(0, k as int);
                assert(nxt =~= cur.push(x@));
                assert forall|t: Seq<char>| #[trigger] stamped(lines_view(merged@), t) == stamped(done + mine.subrange(0, k + 1), t) by {
                    assert(cur.push(x@).drop_last() =~= cur);
                    assert(stamped(before, t) == stamped(cur, t));
                }
            }
            k = k + 1;
        }
        proof {
            assert(mine.subrange(0, c.lines@.len() as int) =~= mine);
            let sub = cs.subrange(0, ci + 1);
            assert(sub.drop_last() =~= cs.subrange(0, ci as int));
        }
        ci = ci + 1;
    }
    proof {
        assert(cs.subrange(0, cores@.len() as int) =~= cs);
    }
    let ghost full = lines_view(merged@);
    if merged.len() > VIEW_LIMIT {
        let drop = merged.len() - VIEW_LIMIT;
        let mut kept: Vec<LogLine> = Vec::new();
        let mut j: usize = drop;
        proof {
            assert(full.subrange(drop as int, drop as int) =~= Seq::<LineView>::empty());
        }
        while j < merged.len()
            invariant
                drop <= j <= merged@.len(),
                full == lines_view(merged@),
                lines_view(kept@) == full.subrange(drop as int, j as int),
            decreases merged@.len() - j,
        {
            let ghost before = lines_view(kept@);
            kept.push(merged[j].copy());
            proof {
                assert(full[j as int] == merged@[j as int]@);
                assert(lines_view(kept@) =~= before.push(full[j as int]));
                assert(lines_view(kept@) =~= full.subrange(drop as int, j + 1));
            }
            j = j + 1;
        }
        proof {
            assert(lines_view(kept@) == last_lines(full));
        }
        kept
    } else {
        proof {
            assert(lines_view(merged@) == last_lines(full));
        }
        merged
    }
}

/// A core's log as the session store keeps it: the core's id and its lines, oldest
/// first.
pub struct CoreLogStore {
    pub id: CoreId,
    pub lines: Vec<LogLine>,
}

pub open spec fn store_view(v: Seq<CoreLogStore>) -> Seq<(CoreId, Seq<LineView>)> {
    v.map_values(|c: CoreLogStore| (c.id, lines_view(c.lines@)))
}

/// The lines the store keeps for core `id` (its first entry), none when the store has
/// no data for the core.
pub open spec fn store_lines(store: Seq<(CoreId, Seq<LineView>)>, id: CoreId) -> Option<Seq<LineView>>
    decreases store.len(),
{
    if store.len() == 0 {
        None
    } else if store[0].0 == id {
        Some(store[0].1)
    } else {
        store_lines(store.drop_first(), id)
    }
}

/// The newest `n` lines of `s` (all of them when there are fewer), oldest first.
pub open spec fn newest(s: Seq<LineView>, n: int) -> Seq<LineView> {
    if s.len() > n { s.subrange(s.len() - n, s.len() as int) } else { s }
}

/// What feeds the merged log: in the order of the source list, each core entry whose
/// core has data in the store gives its display name and the newest `AGG_PER_CORE`
/// lines of that core; the merged and local entries and cores without data give
/// nothing.
pub open spec fn fed(sources: Seq<SourceView>, store: Seq<(CoreId, Seq<LineView>)>) -> Seq<(Seq<char>, Seq<LineView>)>
    decreases sources.len(),
{
    if sources.len() == 0 {
        Seq::empty()
    } else {
        let p = fed(sources.drop_last(), store);
        let x = sources.last();
        match x.0 {
            LogSource::Core(id) => match store_lines(store, id) {
                Some(l) => p.push((x.1, newest(l, AGG_PER_CORE as int))),
                None => p,
            },
            _ => p,
        }
    }
}

/// The index of the first store entry of core `id`.
fn find_core_log(store: &Vec<CoreLogStore>, id: CoreId) -> (r: Option<usize>)
    ensures
        match r {
            Some(i) => i < store@.len() && store_lines(store_view(store@), id) == Some(lines_view(store@[i as int].lines@)),
            None => store_lines(store_view(store@), id) is None,
        },
{
    let ghost sv = store_view(store@);
    let mut i: usize = 0;
    proof {
        assert(sv.subrange(0, sv.len() as int) =~= sv);
    }
    while i < store.len()
        invariant
            i <= store@.len(),
            sv == store_view(store@),
            store_lines(sv, id) == store_lines(sv.subrange(i as int, sv.len() as int), id),
        decreases store@.len() - i,
    {
        let ghost rest = sv.subrange(i as int, sv.len() as int);
        assert(rest[0] == sv[i as int]);
        if store[i].id == id {
            return Some(i);
        }
        assert(rest.drop_first() =~= sv.subrange(i + 1, sv.len() as int));
        i = i + 1;
    }
    None
}

/// The newest `AGG_PER_CORE` lines of a core's log, copied.
fn newest_lines(lines: &Vec<LogLine>) -> (r: Vec<LogLine>)
    ensures
        lines_view(r@) == newest(lines_view(lines@), AGG_PER_CORE as int),
{
    let from: usize = if lines.len() > AGG_PER_CORE { lines.len() - AGG_PER_CORE } else { 0 };
    let ghost full = lines_view(lines@);
    let mut out: Vec<LogLine> = Vec::new();
    let mut j: usize = from;
    proof {
        assert(lines_view(out@) =~= full.subrange(from as int, from as int));
    }
    while j < lines.len()
        invariant
            from <= j <= lines@.len(),
            full == lines_view(lines@),
            lines_view(out@) == full.subrange(from as int, j as int),
        decreases lines@.len() - j,
    {
        let ghost before = lines_view(out@);
        out.push(lines[j].copy());
        proof {
            assert(full[j as int] == lines@[j as int]@);
            assert(lines_view(out@) =~= before.push(full[j as int]));
            assert(lines_view(out@) =~= full.subrange(from as int, j + 1));
        }
        j = j + 1;
    }
    proof {
        if lines@.len() <= AGG_PER_CORE {
            assert(full.subrange(0, full.len() as int) =~= full);
        }
    }
    out
}

/// The merged log of a group: for each core entry of the source list whose core
/// has data in the store, the newest `AGG_PER_CORE` lines of that core, each with the
/// entry's display name as source; all of them in time order (lines with the same
/// stamp keep their order), and only the newest `VIEW_LIMIT` of them.
pub fn aggregate(store: &Vec<CoreLogStore>, sources: &Vec<LogSourceItem>) -> (r: Vec<LogLine>)
    ensures
        exists|m: Seq<LineView>| #![trigger last_lines(m)]
            sorted_by_time(m)
            && (forall|t: Seq<char>| #[trigger] stamped(m, t) == stamped(tagged(fed(sources_view(sources@), store_view(store@))), t))
            && lines_view(r@) == last_lines(m),
{
    let ghost src = sources_view(sources@);
    let ghost stv = store_view(store@);
    let mut cores: Vec<CoreLog> = Vec::new();
    let mut i: usize = 0;
    proof {
        assert(src.subrange(0, 0) =~= Seq::<SourceView>::empty());
        assert(cores_view(cores@) =~= Seq::<(Seq<char>, Seq<LineView>)>::empty());
    }
    while i < sources.len()
        invariant
            i <= sources@.len(),
            src == sources_view(sources@),
            stv == store_view(store@),
            cores_view(cores@) == fed(src.subrange(0, i as int), stv),
        decreases sources@.len() - i,
    {
        let item = &sources[i];
        proof {
            let sub = src.subrange(0, i + 1);
            assert(sub.drop_last() =~= src.subrange(0, i as int));
            assert(sub.last() == source_view(sources@[i as int]));
        }
        match item.source {
            LogSource::Core(id) => {
                match find_core_log(store, id) {
                    Some(k) => {
                        let lines = newest_lines(&store[k].lines);
                        let ghost before = cores_view(cores@);
                        let part = CoreLog { display: item.display.clone(), lines };
                        let ghost pv = (part.display@, lines_view(part.lines@));
                        cores.push(part);
                        proof {
                            assert(cores_view(cores@) =~= before.push(pv));
                        }
                    },
                    None => {},
                }
            },
            _ => {},
        }
        i = i + 1;
    }
    proof {
        assert(src.subrange(0, sources@.len() as int) =~= src);
    }
    merge_core_logs(&cores)
}

/// Signature of a log view: the application log's revision plus the fold of the
/// cores' log revisions (`acc * 31 + rev`), all modulo 2^64. The log is gathered
/// again only when it changes.
pub fn log_sig(app_rev: u64, core_revs: &Vec<u64>) -> (sig: u64)
    ensures
        sig == (app_rev + sig_of(core_revs@)) % 0x1_0000_0000_0000_0000,
{
    app_rev.wrapping_add(orders_sig(core_revs))
}

/// Every line kept by `kept_lines` is a line of `s` that passes the filter, and every
/// line of `s` that passes it is kept.
proof fn lemma_kept_lines_members(s: Seq<LineView>, errors_only: bool, q: Seq<char>)
    ensures
        forall|x: LineView| #[trigger] kept_lines(s, errors_only, q).contains(x) ==> s.contains(x) && line_kept(x, errors_only, q),
        forall|j: int| 0 <= j < s.len() && line_kept(s[j], errors_only, q) ==> #[trigger] kept_lines(s, errors_only, q).contains(s[j]),
    decreases s.len(),
{
    if s.len() > 0 {
        let d = s.drop_last();
        lemma_kept_lines_members(d, errors_only, q);
        let p = kept_lines(d, errors_only, q);
        assert forall|x: LineView| #[trigger] kept_lines(s, errors_only, q).contains(x) implies s.contains(x) && line_kept(x, errors_only, q) by {
            if line_kept(s.last(), errors_only, q) {
                if x != s.last() {
                    let t = choose|t: int| 0 <= t < p.push(s.last()).len() && p.push(s.last())[t] == x;
                    assert(p[t] == x);
                    assert(p.contains(x));
                    let u = choose|u: int| 0 <= u < d.len() && d[u] == x;
                    assert(s[u] == x);
                } else {
                    assert(s[s.len() - 1] == x);
                }
            } else {
                assert(p.contains(x));
                let u = choose|u: int| 0 <= u < d.len() && d[u] == x;
                assert(s[u] == x);
            }
        }
        assert forall|j: int| 0 <= j < s.len() && line_kept(s[j], errors_only, q) implies #[trigger] kept_lines(s, errors_only, q).contains(s[j]) by {
            if j < s.len() - 1 {
                assert(d[j] == s[j]);
                assert(p.contains(s[j]));
                let t = choose|t: int| 0 <= t < p.len() && p[t] == s[j];
                if line_kept(s.last(), errors_only, q) {
                    assert(p.push(s.last())[t] == s[j]);
                }
            } else {
                let pp = p.push(s.last());
                assert(pp[pp.len() - 1] == s[j]);
            }
        }
    }
}

/// The filter keeps exactly the lines that pass it: with errors-only off, a line
/// whose lowered message holds the lowered, trimmed search text anywhere is kept (all
/// lines are kept for an empty search); a kept line is a line of the input, an
/// error when errors-only is on, and holds the search text somewhere.
pub proof fn law_filter_keeps_matches(raw: Seq<LineView>, errors_only: bool, query: Seq<char>, out: Seq<LineView>)
    requires
        out == kept_lines(raw, errors_only, lowercase(trimmed(query))),
    ensures
        ({
            let q = lowercase(trimmed(query));
            &&& forall|j: int, i: int| 0 <= j < raw.len() && !errors_only && 0 <= i && i + q.len() <= lowercase(raw[j].3).len()
                    && #[trigger] lowercase(raw[j].3).subrange(i, i + q.len()) == q ==> out.contains(raw[j])
            &&& forall|j: int| 0 <= j < raw.len() && !errors_only && q.len() == 0 ==> #[trigger] out.contains(raw[j])
            &&& forall|x: LineView| #[trigger] out.contains(x) ==> raw.contains(x) && (errors_only ==> x.4)
                    && (q.len() > 0 ==> exists|i: int| 0 <= i && i + q.len() <= lowercase(x.3).len()
                        && #[trigger] lowercase(x.3).subrange(i, i + q.len()) == q)
        }),
{
    let q = lowercase(trimmed(query));
    lemma_kept_lines_members(raw, errors_only, q);
    assert forall|j: int, i: int| 0 <= j < raw.len() && !errors_only && 0 <= i && i + q.len() <= lowercase(raw[j].3).len()
        && #[trigger] lowercase(raw[j].3).subrange(i, i + q.len()) == q implies out.contains(raw[j]) by {
        assert(line_kept(raw[j], errors_only, q));
    }
    assert forall|j: int| 0 <= j < raw.len() && !errors_only && q.len() == 0 implies #[trigger] out.contains(raw[j]) by {
        assert(line_kept(raw[j], errors_only, q));
    }
    assert forall|x: LineView| #[trigger] out.contains(x) implies raw.contains(x) && (errors_only ==> x.4)
        && (q.len() > 0 ==> exists|i: int| 0 <= i && i + q.len() <= lowercase(x.3).len()
            && #[trigger] lowercase(x.3).subrange(i, i + q.len()) == q) by {
        assert(line_kept(x, errors_only, q));
        if q.len() > 0 {
            let i = choose|i: int| 0 <= i <= lowercase(x.3).len() - q.len() && #[trigger] lowercase(x.3).subrange(i, i + q.len()) == q;
            assert(lowercase(x.3).subrange(i, i + q.len()) == q);
        }
    }
}

} // verus!
