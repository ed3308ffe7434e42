//! The report of closed trades: which columns show, how a cell of the database reads,
//! the filter handed to the query, and the sort.

use vstd::prelude::*;
use crate::text::text_eq;

verus! {

/// Rows asked of the database at most.
pub const MAX_REPORT_ROWS: usize = 100_000;

/// Seconds added to the "to" date so that its whole day is inside the period.
pub const DAY_END_SECS: i64 = 86_399;

/// Columns holding numbers (aligned right).
pub open spec fn numeric_column(c: Seq<char>) -> bool {
    c == "quantity"@ || c == "boughtq"@ || c == "buyprice"@ || c == "sellprice"@
        || c == "spentbtc"@ || c == "gainedbtc"@ || c == "profitbtc"@ || c == "lev"@
        || c == "db_id"@ || c == "taskid"@
}

pub fn is_numeric_report_column(col: &str) -> (r: bool)
    ensures
        r == numeric_column(col@),
{
    text_eq(col, "quantity") || text_eq(col, "boughtq") || text_eq(col, "buyprice")
        || text_eq(col, "sellprice") || text_eq(col, "spentbtc") || text_eq(col, "gainedbtc")
        || text_eq(col, "profitbtc") || text_eq(col, "lev") || text_eq(col, "db_id")
        || text_eq(col, "taskid")
}

/// Columns shown when no choice was saved.
pub open spec fn default_visible(c: Seq<char>) -> bool {
    c == "buydate"@ || c == "closedate"@ || c == "core_name"@ || c == "coin"@
        || c == "isshort"@ || c == "quantity"@ || c == "buyprice"@ || c == "sellprice"@
        || c == "profitbtc"@ || c == "lev"@ || c == "sellreason"@ || c == "comment"@
}

pub fn is_default_visible(col: &str) -> (r: bool)
    ensures
        r == default_visible(col@),
{
    text_eq(col, "buydate") || text_eq(col, "closedate") || text_eq(col, "core_name")
        || text_eq(col, "coin") || text_eq(col, "isshort") || text_eq(col, "quantity")
        || text_eq(col, "buyprice") || text_eq(col, "sellprice") || text_eq(col, "profitbtc")
        || text_eq(col, "lev") || text_eq(col, "sellreason") || text_eq(col, "comment")
}

/// Least width of a column, in logical pixels.
pub open spec fn column_width(c: Seq<char>) -> u32 {
    if c == "buydate"@ || c == "closedate"@ {
        120
    } else if c == "sellsetdate"@ || c == "last_update_at"@ {
        116
    } else if c == "comment"@ {
        280
    } else if c == "sellreason"@ {
        170
    } else if c == "channelname"@ || c == "signaltype"@ || c == "fname"@ || c == "exorderid"@ {
        110
    } else if c == "core_name"@ || c == "coin"@ {
        88
    } else if c == "profitbtc"@ || c == "gainedbtc"@ || c == "spentbtc"@ {
        96
    } else if c == "lev"@ || c == "isshort"@ || c == "emulator"@ {
        52
    } else {
        82
    }
}

pub fn width_for(col: &str) -> (w: u32)
    ensures
        w == column_width(col@),
{
    if text_eq(col, "buydate") || text_eq(col, "closedate") {
        120
    } else if text_eq(col, "sellsetdate") || text_eq(col, "last_update_at") {
        116
    } else if text_eq(col, "comment") {
        280
    } else if text_eq(col, "sellreason") {
        170
    } else if text_eq(col, "channelname") || text_eq(col, "signaltype") || text_eq(col, "fname") || text_eq(col, "exorderid") {
        110
    } else if text_eq(col, "core_name") || text_eq(col, "coin") {
        88
    } else if text_eq(col, "profitbtc") || text_eq(col, "gainedbtc") || text_eq(col, "spentbtc") {
        96
    } else if text_eq(col, "lev") || text_eq(col, "isshort") || text_eq(col, "emulator") {
        52
    } else {
        82
    }
}

/// Heading of a column: `(true, key)` for a text to localise under `key`, `(false,
/// text)` for a heading shown as it is (the column's own name when it has no other).
pub open spec fn heading(c: Seq<char>) -> (bool, Seq<char>) {
    if c == "buydate"@ { (true, "report.col.buydate"@) }
    else if c == "closedate"@ { (true, "report.col.closedate"@) }
    else if c == "sellsetdate"@ { (false, "Sell set"@) }
    else if c == "last_update_at"@ { (true, "report.col.last_update"@) }
    else if c == "core_name"@ { (true, "report.col.core"@) }
    else if c == "db_id"@ { (false, "ID"@) }
    else if c == "taskid"@ { (false, "TaskID"@) }
    else if c == "exorderid"@ { (false, "ExOrderID"@) }
    else if c == "coin"@ { (true, "report.col.coin"@) }
    else if c == "isshort"@ { (true, "report.col.side"@) }
    else if c == "quantity"@ { (true, "report.col.quantity"@) }
    else if c == "boughtq"@ { (true, "report.col.bought"@) }
    else if c == "buyprice"@ { (true, "report.col.buyprice"@) }
    else if c == "sellprice"@ { (true, "report.col.sellprice"@) }
    else if c == "spentbtc"@ { (true, "report.col.spentbtc"@) }
    else if c == "gainedbtc"@ { (true, "report.col.gainedbtc"@) }
    else if c == "profitbtc"@ { (true, "report.col.profitbtc"@) }
    else if c == "lev"@ { (true, "report.col.lev"@) }
    else if c == "strategyid"@ { (false, "Strat"@) }
    else if c == "channelname"@ { (true, "report.col.channel"@) }
    else if c == "signaltype"@ { (true, "report.col.signal"@) }
    else if c == "fname"@ { (true, "report.col.file"@) }
    else if c == "basecurrency"@ { (false, "BaseCur"@) }
    else if c == "emulator"@ { (true, "report.col.emulator"@) }
    else if c == "status"@ { (true, "report.col.status"@) }
    else if c == "sellreason"@ { (true, "report.col.reason"@) }
    else if c == "comment"@ { (true, "report.col.comment"@) }
    else { (false, c) }
}

fn said(b: bool, s: &str) -> (r: (bool, String))
    ensures
        r.0 == b,
        r.1@ == s@,
{
    (b, String::from_str(s))
}

pub fn header_for(col: &str) -> (r: (bool, String))
    ensures
        r.0 == heading(col@).0,
        r.1@ == heading(col@).1,
{
    if text_eq(col, "buydate") { said(true, "report.col.buydate") }
    else if text_eq(col, "closedate") { said(true, "report.col.closedate") }
    else if text_eq(col, "sellsetdate") { said(false, "Sell set") }
    else if text_eq(col, "last_update_at") { said(true, "report.col.last_update") }
    else if text_eq(col, "core_name") { said(true, "report.col.core") }
    else if text_eq(col, "db_id") { said(false, "ID") }
    else if text_eq(col, "taskid") { said(false, "TaskID") }
    else if text_eq(col, "exorderid") { said(false, "ExOrderID") }
    else if text_eq(col, "coin") { said(true, "report.col.coin") }
    else if text_eq(col, "isshort") { said(true, "report.col.side") }
    else if text_eq(col, "quantity") { said(true, "report.col.quantity") }
    else if text_eq(col, "boughtq") { said(true, "report.col.bought") }
    else if text_eq(col, "buyprice") { said(true, "report.col.buyprice") }
    else if text_eq(col, "sellprice") { said(true, "report.col.sellprice") }
    else if text_eq(col, "spentbtc") { said(true, "report.col.spentbtc") }
    else if text_eq(col, "gainedbtc") { said(true, "report.col.gainedbtc") }
    else if text_eq(col, "profitbtc") { said(true, "report.col.profitbtc") }
    else if text_eq(col, "lev") { said(true, "report.col.lev") }
    else if text_eq(col, "strategyid") { said(false, "Strat") }
    else if text_eq(col, "channelname") { said(true, "report.col.channel") }
    else if text_eq(col, "signaltype") { said(true, "report.col.signal") }
    else if text_eq(col, "fname") { said(true, "report.col.file") }
    else if text_eq(col, "basecurrency") { said(false, "BaseCur") }
    else if text_eq(col, "emulator") { said(true, "report.col.emulator") }
    else if text_eq(col, "status") { said(true, "report.col.status") }
    else if text_eq(col, "sellreason") { said(true, "report.col.reason") }
    else if text_eq(col, "comment") { said(true, "report.col.comment") }
    else { said(false, col) }
}

/// A value of the database as the report reads it. A real keeps its value truncated
/// toward zero (saturating) and its sign (-1, 0, 1; 0 also for NaN).
pub enum CellValue {
    Null,
    Integer(i64),
    Real { truncated: i64, sign: i8 },
    Text(String),
    Blob,
}

/// The value as an integer: an integer as it is, a real truncated, nothing else.
pub open spec fn int_of(v: CellValue) -> Option<i64> {
    match v {
        CellValue::Integer(i) => Some(i),
        CellValue::Real { truncated, .. } => Some(truncated),
        _ => None,
    }
}

/// Sign of a number value, `None` when the value is no number.
pub open spec fn sign_of(v: CellValue) -> Option<int> {
    match v {
        CellValue::Integer(i) => Some(if i > 0 { 1int } else if i < 0 { -1int } else { 0int }),
        CellValue::Real { sign, .. } => Some(sign as int),
        _ => None,
    }
}

pub fn as_i64(v: &CellValue) -> (r: Option<i64>)
    ensures
        r == int_of(*v),
{
    match v {
        CellValue::Integer(i) => Some(*i),
        CellValue::Real { truncated, .. } => Some(*truncated),
        _ => None,
    }
}

/// The colours a report cell may take.
pub struct ReportColors {
    pub red: u32,
    pub green: u32,
    pub text_soft: u32,
}

/// What a cell shows, for the caller to render: nothing, a date from unix seconds,
/// the short or long side label, the emulator label, the number with its sign and six
/// decimals, or the value itself as text.
#[derive(Clone, Copy, Debug, PartialEq, Eq, Structural)]
pub enum CellText {
    Empty,
    Date(i64),
    ShortSide,
    LongSide,
    Emulator,
    SignedNumber,
    Value,
}

pub struct CellOut {
    pub text: CellText,
    pub color: Option<u32>,
    pub right: bool,
}

pub open spec fn is_date_column(c: Seq<char>) -> bool {
    c == "buydate"@ || c == "closedate"@ || c == "sellsetdate"@ || c == "last_update_at"@
}

/// Text and colour of a cell, by its column and value.
pub open spec fn cell_spec(c: Seq<char>, v: CellValue, p: ReportColors) -> (CellText, Option<u32>) {
    if is_date_column(c) {
        (match int_of(v) {
            Some(t) => CellText::Date(t),
            None => CellText::Empty,
        }, None)
    } else if c == "isshort"@ {
        match int_of(v) {
            Some(x) => if x == 1 {
                (CellText::ShortSide, Some(p.red))
            } else if x == 0 {
                (CellText::LongSide, Some(p.green))
            } else {
                (CellText::Empty, Some(p.text_soft))
            },
            None => (CellText::Empty, Some(p.text_soft)),
        }
    } else if c == "emulator"@ {
        match int_of(v) {
            Some(x) => if x == 1 { (CellText::Emulator, Some(p.text_soft)) } else { (CellText::Empty, None) },
            None => (CellText::Empty, None),
        }
    } else if c == "profitbtc"@ || c == "gainedbtc"@ {
        match sign_of(v) {
            Some(sg) => (CellText::SignedNumber, if sg > 0 { Some(p.green) } else if sg < 0 { Some(p.red) } else { None }),
            None => (CellText::Empty, None),
        }
    } else {
        (CellText::Value, None)
    }
}

fn is_date_col(col: &str) -> (r: bool)
    ensures
        r == is_date_column(col@),
{
    text_eq(col, "buydate") || text_eq(col, "closedate") || text_eq(col, "sellsetdate") || text_eq(col, "last_update_at")
}

/// A cell of the report: what it shows, its colour (`None`: the default), and
/// whether it is aligned right (numeric columns).
pub fn report_data_cell(col: &str, val: &CellValue, p: &ReportColors) -> (r: CellOut)
    ensures
        (r.text, r.color) == cell_spec(col@, *val, *p),
        r.right == numeric_column(col@),
{
    let (text, color) = if is_date_col(col) {
        (match as_i64(val) {
            Some(t) => CellText::Date(t),
            None => CellText::Empty,
        }, None)
    } else if text_eq(col, "isshort") {
        match as_i64(val) {
            Some(1) => (CellText::ShortSide, Some(p.red)),
            Some(0) => (CellText::LongSide, Some(p.green)),
            _ => (CellText::Empty, Some(p.text_soft)),
        }
    } else if text_eq(col, "emulator") {
        match as_i64(val) {
            Some(1) => (CellText::Emulator, Some(p.text_soft)),
            _ => (CellText::Empty, None),
        }
    } else if text_eq(col, "profitbtc") || text_eq(col, "gainedbtc") {
        let sign: Option<i8> = match val {
            CellValue::Integer(i) => Some(if *i > 0 { 1 } else if *i < 0 { -1 } else { 0 }),
            CellValue::Real { sign, .. } => Some(*sign),
            _ => None,
        };
        match sign {
            Some(sg) => (CellText::SignedNumber, if sg > 0 { Some(p.green) } else if sg < 0 { Some(p.red) } else { None }),
            None => (CellText::Empty, None),
        }
    } else {
        (CellText::Value, None)
    };
    CellOut { text, color, right: is_numeric_report_column(col) }
}

/// The cells of row `ri` for the visible columns `vis` (indices into `cols`); a value
/// missing from the row reads as NULL; a row that is not there has no cells.
pub fn report_data_row(ri: usize, rows: &Vec<Vec<CellValue>>, cols: &Vec<String>, vis: &Vec<usize>, p: &ReportColors) -> (r: Vec<CellOut>)
    requires
        forall|k: int| 0 <= k < vis@.len() ==> vis@[k] < cols@.len(),
    ensures
        ri >= rows@.len() ==> r@.len() == 0,
        ri < rows@.len() ==> r@.len() == vis@.len(),
        ri < rows@.len() ==> forall|k: int| 0 <= k < vis@.len() ==> {
            let i = #[trigger] vis@[k] as int;
            let v = if i < rows@[ri as int]@.len() { rows@[ri as int]@[i] } else { CellValue::Null };
            (r@[k].text, r@[k].color) == cell_spec(cols@[i]@, v, *p) && r@[k].right == numeric_column(cols@[i]@)
        },
{
    let mut cells: Vec<CellOut> = Vec::new();
    if ri < rows.len() {
        let row = &rows[ri];
        let null = CellValue::Null;
        let mut k: usize = 0;
        while k < vis.len()
            invariant
                k <= vis@.len(),
                ri < rows@.len(),
                *row == rows@[ri as int],
                null == CellValue::Null,
                forall|j: int| 0 <= j < vis@.len() ==> vis@[j] < cols@.len(),
                cells@.len() == k,
                forall|j: int| 0 <= j < k ==> {
                    let i = #[trigger] vis@[j] as int;
                    let v = if i < rows@[ri as int]@.len() { rows@[ri as int]@[i] } else { CellValue::Null };
                    (cells@[j].text, cells@[j].color) == cell_spec(cols@[i]@, v, *p) && cells@[j].right == numeric_column(cols@[i]@)
                },
            decreases vis@.len() - k,
        {
            let i = vis[k];
            let val = if i < row.len() { &row[i] } else { &null };
            let c = report_data_cell(cols[i].as_str(), val, p);
            cells.push(c);
            k = k + 1;
        }
    }
    cells
}

/// Which of the columns `cols` show at first: those of the saved choice when there
/// is one, else the default ones.
pub fn initial_visible(cols: &Vec<String>, saved: &Option<Vec<String>>) -> (r: Vec<bool>)
    ensures
        r@.len() == cols@.len(),
        forall|i: int| 0 <= i < cols@.len() ==> #[trigger] r@[i] == match saved {
            Some(s) => exists|j: int| 0 <= j < s@.len() && s@[j]@ == cols@[i]@,
            None => default_visible(cols@[i]@),
        },
{
    let mut out: Vec<bool> = Vec::new();
    let mut i: usize = 0;
    while i < cols.len()
        invariant
            i <= cols@.len(),
            out@.len() == i,
            forall|k: int| 0 <= k < i ==> #[trigger] out@[k] == match saved {
                Some(s) => exists|j: int| 0 <= j < s@.len() && s@[j]@ == cols@[k]@,
                None => default_visible(cols@[k]@),
            },
        decreases cols@.len() - i,
    {
        let c = cols[i].as_str();
        let on = match saved {
            Some(s) => {
                let mut found = false;
                let mut j: usize = 0;
                while j < s.len()
                    invariant
                        j <= s@.len(),
                        found == exists|m: int| 0 <= m < j && s@[m]@ == c@,
                    decreases s@.len() - j,
                {
                    if text_eq(s[j].as_str(), c) {
                        found = true;
                    }
                    j = j + 1;
                }
                found
            },
            None => is_default_visible(c),
        };
        out.push(on);
        i = i + 1;
    }
    out
}

/// Switch column `i` on or off (nothing happens for a column that is not there).
pub fn toggle_column(visible: &mut Vec<bool>, i: usize)
    ensures
        final(visible)@.len() == old(visible)@.len(),
        i < old(visible)@.len() ==> final(visible)@ == old(visible)@.update(i as int, !old(visible)@[i as int]),
        i >= old(visible)@.len() ==> final(visible)@ == old(visible)@,
{
    if i < visible.len() {
        let v = !visible[i];
        visible.set(i, v);
    }
}

/// The visible columns, in order, by index into the columns.
pub open spec fn shown_indices(n: nat, visible: Seq<bool>) -> Seq<usize>
    decreases n,
{
    if n == 0 {
        Seq::empty()
    } else {
        let p = shown_indices((n - 1) as nat, visible);
        if n - 1 < visible.len() && visible[n - 1] {
            p.push((n - 1) as usize)
        } else {
            p
        }
    }
}

pub fn visible_indices(n: usize, visible: &Vec<bool>) -> (r: Vec<usize>)
    ensures
        r@ == shown_indices(n as nat, visible@),
        forall|k: int| 0 <= k < r@.len() ==> r@[k] < n,
{
    let mut out: Vec<usize> = Vec::new();
    let mut i: usize = 0;
    while i < n
        invariant
            i <= n,
            out@ == shown_indices(i as nat, visible@),
            forall|k: int| 0 <= k < out@.len() ==> out@[k] < i,
        decreases n - i,
    {
        if i < visible.len() && visible[i] {
            out.push(i);
        }
        i = i + 1;
    }
    out
}

/// The names of the visible columns, in order: what is saved as the choice.
pub fn visible_names(cols: &Vec<String>, visible: &Vec<bool>) -> (r: Vec<String>)
    ensures
        r@.map_values(|s: String| s@) == shown_indices(cols@.len(), visible@).map_values(|i: usize| cols@[i as int]@),
{
    let idx = visible_indices(cols.len(), visible);
    let mut out: Vec<String> = Vec::new();
    let mut k: usize = 0;
    while k < idx.len()
        invariant
            k <= idx@.len(),
            idx@ == shown_indices(cols@.len(), visible@),
            forall|j: int| 0 <= j < idx@.len() ==> idx@[j] < cols@.len(),
            out@.map_values(|s: String| s@) == idx@.subrange(0, k as int).map_values(|i: usize| cols@[i as int]@),
        decreases idx@.len() - k,
    {
        let ghost before = out@;
        let c = cols[idx[k]].clone();
        assert(c@ == cols@[idx@[k as int] as int]@);
        let ghost cg = c;
        out.push(c);
        proof {
            assert(out@ == before.push(cg));
            assert(before.map_values(|s: String| s@).len() == before.len());
            let lhs = out@.map_values(|s: String| s@);
            let rhs = idx@.subrange(0, k + 1).map_values(|i: usize| cols@[i as int]@);
            let prev = idx@.subrange(0, k as int).map_values(|i: usize| cols@[i as int]@);
            assert forall|j: int| 0 <= j < k + 1 implies lhs[j] == rhs[j] by {
                if j < k {
                    assert(out@[j] == before[j]);
                    assert(before.map_values(|s: String| s@)[j] == prev[j]);
                }
            }
            assert(lhs =~= rhs);
        }
        k = k + 1;
    }
    proof {
        assert(idx@.subrange(0, idx@.len() as int) =~= idx@);
    }
    out
}

/// Which side of trades the report shows.
#[derive(Clone, Copy, Debug, PartialEq, Eq, Structural)]
pub enum SideFilter {
    All,
    Long,
    Short,
}

/// The filter handed to the report query.
pub struct ReportFilter {
    pub core_uid: Option<u64>,
    pub date_from: Option<i64>,
    pub date_to: Option<i64>,
    pub coin: String,
    pub side: SideFilter,
}

/// The filter of the panel's choices: entry `sel_core` of the list (0: every core,
/// `k`: the `k`-th listed core, none when there is no such entry), the period from the
/// start of the day `from` to the end of the day `to` (unix seconds), the coin text
/// and the side.
pub fn report_filter(sel_core: usize, cores: &Vec<(u64, String)>, from: Option<i64>, to: Option<i64>, coin: &str, side: SideFilter) -> (f: ReportFilter)
    requires
        to matches Some(d) ==> d + DAY_END_SECS <= i64::MAX,
    ensures
        f.core_uid == (if sel_core == 0 || sel_core - 1 >= cores@.len() { None } else { Some(cores@[sel_core - 1].0) }),
        f.date_from == from,
        f.date_to == (match to {
            Some(d) => Some((d + DAY_END_SECS) as i64),
            None => None,
        }),
        f.coin@ == coin@,
        f.side == side,
{
    let core_uid = if sel_core == 0 {
        None
    } else if sel_core - 1 < cores.len() {
        Some(cores[sel_core - 1].0)
    } else {
        None
    };
    let date_to = match to {
        Some(d) => Some(d + DAY_END_SECS),
        None => None,
    };
    ReportFilter { core_uid, date_from: from, date_to, coin: String::from_str(coin), side }
}

/// The panel's choices: the core entry and the side, and the sort of the table.
pub struct ReportChoices {
    pub sel_core: usize,
    pub side: SideFilter,
    pub sort_key: String,
    pub sort_desc: bool,
}

impl ReportChoices {
    /// Every core, both sides, sorted as saved or else newest buy date first.
    pub fn new(saved_sort: Option<(String, bool)>) -> (r: ReportChoices)
        ensures
            r.sel_core == 0,
            r.side == SideFilter::All,
            saved_sort matches Some(s) ==> r.sort_key@ == s.0@ && r.sort_desc == s.1,
            saved_sort is None ==> r.sort_key@ == "buydate"@ && r.sort_desc,
    {
        let (sort_key, sort_desc) = match saved_sort {
            Some(s) => s,
            None => (String::from_str("buydate"), true),
        };
        ReportChoices { sel_core: 0, side: SideFilter::All, sort_key, sort_desc }
    }

    /// Choose the core entry; true when it changed (the report is queried again).
    pub fn set_core(&mut self, i: usize) -> (changed: bool)
        ensures
            changed == (i != old(self).sel_core),
            final(self).sel_core == i,
            final(self).side == old(self).side,
            final(self).sort_key@ == old(self).sort_key@,
            final(self).sort_desc == old(self).sort_desc,
    {
        let changed = self.sel_core != i;
        self.sel_core = i;
        changed
    }

    /// Choose the side; true when it changed.
    pub fn set_side(&mut self, s: SideFilter) -> (changed: bool)
        ensures
            changed == (s != old(self).side),
            final(self).side == s,
            final(self).sel_core == old(self).sel_core,
            final(self).sort_key@ == old(self).sort_key@,
            final(self).sort_desc == old(self).sort_desc,
    {
        let changed = self.side != s;
        self.side = s;
        changed
    }

    /// Sort by `col`, descending when `desc`; true when the sort changed (it is then
    /// saved and the report queried again).
    pub fn set_report_sort(&mut self, col: &str, desc: bool) -> (changed: bool)
        ensures
            changed == !(old(self).sort_key@ == col@ && old(self).sort_desc == desc),
            final(self).sort_key@ == col@,
            final(self).sort_desc == desc,
            final(self).sel_core == old(self).sel_core,
            final(self).side == old(self).side,
    {
        if text_eq(self.sort_key.as_str(), col) && self.sort_desc == desc {
            return false;
        }
        self.sort_key = String::from_str(col);
        self.sort_desc = desc;
        true
    }
}

/// The writer of the reports moved to generation `current`: true (the report is
/// queried again) when it differs from the last one seen, which it then becomes.
pub fn generation_changed(last: &mut u64, current: u64) -> (changed: bool)
    ensures
        changed == (current != *old(last)),
        *final(last) == current,
{
    let changed = current != *last;
    *last = current;
    changed
}

/// Colour of the period's total: green above zero, red below, soft at zero (`sign`
/// is the sign of the total: -1, 0 or 1).
pub fn total_color(sign: i8, p: &ReportColors) -> (c: u32)
    ensures
        c == (if sign > 0 { p.green } else if sign < 0 { p.red } else { p.text_soft }),
{
    if sign > 0 {
        p.green
    } else if sign < 0 {
        p.red
    } else {
        p.text_soft
    }
}

/// A cell of a date column ("buydate", "closedate", "sellsetdate",
/// "last_update_at") holding a number shows that number of unix seconds as a date
/// (a real by its whole seconds), in the default colour; holding anything else it
/// shows nothing.
pub proof fn law_date_columns_show_dates(c: Seq<char>, v: CellValue, p: ReportColors, text: CellText, color: Option<u32>)
    requires
        (text, color) == cell_spec(c, v, p),
        c == "closedate"@ || c == "buydate"@ || c == "last_update_at"@ || c == "sellsetdate"@,
    ensures
        color is None,
        v matches CellValue::Integer(t) ==> text == CellText::Date(t),
        v matches CellValue::Real { truncated, .. } ==> text == CellText::Date(truncated),
        v is Null || v is Text || v is Blob ==> text == CellText::Empty,
{
}


/// The side, emulator and profit columns: "isshort" 1 reads as the short side in red,
/// 0 as the long side in green; "emulator" 1 reads as the emulator label in the soft
/// colour, 0 as nothing; a profit ("profitbtc", "gainedbtc") shows its signed number,
/// green when above zero, red when below, default at zero.
pub proof fn law_side_emulator_profit_cells(c: Seq<char>, v: CellValue, p: ReportColors, text: CellText, color: Option<u32>)
    requires
        (text, color) == cell_spec(c, v, p),
    ensures
        c == "isshort"@ && v == CellValue::Integer(1) ==> text == CellText::ShortSide && color == Some(p.red),
        c == "isshort"@ && v == CellValue::Integer(0) ==> text == CellText::LongSide && color == Some(p.green),
        c == "emulator"@ && v == CellValue::Integer(1) ==> text == CellText::Emulator && color == Some(p.text_soft),
        c == "emulator"@ && v == CellValue::Integer(0) ==> text == CellText::Empty && color is None,
        (c == "profitbtc"@ || c == "gainedbtc"@) ==> (v matches CellValue::Integer(x) ==>
            text == CellText::SignedNumber && color == (if x > 0 { Some(p.green) } else if x < 0 { Some(p.red) } else { None })),
{
    reveal_strlit("buydate");
    reveal_strlit("closedate");
    reveal_strlit("sellsetdate");
    reveal_strlit("last_update_at");
    reveal_strlit("isshort");
    reveal_strlit("emulator");
    reveal_strlit("profitbtc");
    reveal_strlit("gainedbtc");
    let firsts = seq!["buydate"@[0], "closedate"@[0], "sellsetdate"@[0], "last_update_at"@[0],
        "isshort"@[0], "emulator"@[0], "profitbtc"@[0], "gainedbtc"@[0]];
    assert(firsts =~= seq!['b', 'c', 's', 'l', 'i', 'e', 'p', 'g']);
}

} // verus!
