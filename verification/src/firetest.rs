//! The built-in diagnostic scenario: its command-line switch and settings, and the
//! steps it goes through (open a chart, wait for its bounds, warm up, measure a
//! baseline, run a mouse storm, cool down, judge). The caller does the outside work
//! each step asks for and reports back.

use vstd::prelude::*;
use crate::text::{trimmed, trim, text_eq};

verus! {

pub const START_DELAY_MS: u64 = 1000;
pub const BASELINE_MS: u64 = 5000;
pub const BASELINE_WARMUP_MS: u64 = 1500;
pub const COOLDOWN_MS: u64 = 1200;
pub const TEXT_WARMUP_MS: u64 = 2500;
pub const OPEN_TIMEOUT_MS: u64 = 10_000;
pub const PROBE_TIMEOUT_MS: u64 = 10_000;
pub const WAIT_LOG_EVERY_MS: u64 = 1000;
pub const DEFAULT_STORM_MS: u64 = 5000;
pub const MIN_STORM_MS: u64 = 1000;
pub const DEFAULT_TEXT_LABELS: usize = 0;

/// A scenario that `--debug-script` can name.
#[derive(Clone, Copy, Debug, PartialEq, Eq, Structural)]
pub enum Script {
    ChartSmoke,
}

/// Why the command line was refused.
pub enum ArgError {
    /// `--debug-script` came last, with no name after it.
    MissingScriptName,
    /// `--debug-script` named no known scenario.
    UnknownScript(String),
}

/// The command line read from argument `i` on, with `cur` the scenario chosen so far:
/// the last `--debug-script NAME` wins; `Err(None)` for a missing name, `Err(Some(n))`
/// for the unknown name `n` (the first failure stops the reading).
pub open spec fn scan_args(args: Seq<Seq<char>>, i: int, cur: Option<Script>) -> Result<Option<Script>, Option<Seq<char>>>
    decreases args.len() - i,
{
    if i < 0 || i >= args.len() {
        Ok(cur)
    } else if args[i] != "--debug-script"@ {
        scan_args(args, i + 1, cur)
    } else if i + 1 >= args.len() {
        Err(None)
    } else if args[i + 1] == "chart-smoke"@ {
        scan_args(args, i + 2, Some(Script::ChartSmoke))
    } else {
        Err(Some(args[i + 1]))
    }
}

pub open spec fn args_view(v: Seq<String>) -> Seq<Seq<char>> {
    v.map_values(|s: String| s@)
}

pub open spec fn arg_error_view(e: ArgError) -> Option<Seq<char>> {
    match e {
        ArgError::MissingScriptName => None,
        ArgError::UnknownScript(n) => Some(n@),
    }
}

/// The scenario the command line asks for, if any.
pub fn script_from_args(args: &Vec<String>) -> (r: Result<Option<Script>, ArgError>)
    ensures
        match scan_args(args_view(args@), 0, None) {
            Ok(s) => r matches Ok(t) && t == s,
            Err(e) => r matches Err(f) && arg_error_view(f) == e,
        },
{
    let ghost a = args_view(args@);
    let mut script: Option<Script> = None;
    let mut i: usize = 0;
    while i < args.len()
        invariant
            i <= args@.len(),
            a == args_view(args@),
            scan_args(a, 0, None) == scan_args(a, i as int, script),
        decreases args@.len() - i,
    {
        assert(a[i as int] == args@[i as int]@);
        if !text_eq(args[i].as_str(), "--debug-script") {
            i = i + 1;
            continue;
        }
        if i + 1 >= args.len() {
            return Err(ArgError::MissingScriptName);
        }
        let value = &args[i + 1];
        assert(a[i + 1] == value@);
        if text_eq(value.as_str(), "chart-smoke") {
            script = Some(Script::ChartSmoke);
            i = i + 2;
        } else {
            return Err(ArgError::UnknownScript(value.clone()));
        }
    }
    Ok(script)
}

/// Value of a decimal digit character.
pub open spec fn digit(c: char) -> int {
    c as int - '0' as int
}

pub open spec fn is_digit(c: char) -> bool {
    '0' <= c && c <= '9'
}

/// Value of a run of decimal digits.
pub open spec fn decimal(d: Seq<char>) -> int
    decreases d.len(),
{
    if d.len() == 0 {
        0
    } else {
        decimal(d.drop_last()) * 10 + digit(d.last())
    }
}

pub open spec fn all_digits(d: Seq<char>) -> bool {
    forall|i: int| 0 <= i < d.len() ==> is_digit(#[trigger] d[i])
}

/// The text without one leading `+`.
pub open spec fn strip_plus(s: Seq<char>) -> Seq<char> {
    if s.len() > 0 && s[0] == '+' { s.drop_first() } else { s }
}

/// `u64` read from text as Rust reads it: an optional `+`, then at least one
/// decimal digit and nothing else, the value fitting in 64 bits.
pub open spec fn parse_u64_spec(s: Seq<char>) -> Option<u64> {
    let d = strip_plus(s);
    if d.len() > 0 && all_digits(d) && decimal(d) <= u64::MAX {
        Some(decimal(d) as u64)
    } else {
        None
    }
}

proof fn lemma_decimal_nonneg(d: Seq<char>)
    requires
        forall|i: int| 0 <= i < d.len() ==> is_digit(#[trigger] d[i]),
    ensures
        decimal(d) >= 0,
    decreases d.len(),
{
    if d.len() > 0 {
        lemma_decimal_nonneg(d.drop_last());
        assert(is_digit(d[d.len() - 1]));
    }
}

proof fn lemma_decimal_grows(d: Seq<char>, k: int)
    requires
        0 <= k <= d.len(),
        forall|i: int| 0 <= i < d.len() ==> is_digit(#[trigger] d[i]),
    ensures
        decimal(d.subrange(0, k)) <= decimal(d),
    decreases d.len() - k,
{
    if k < d.len() {
        lemma_decimal_grows(d, k + 1);
        let t = d.subrange(0, k + 1);
        assert(t.drop_last() =~= d.subrange(0, k));
        assert(is_digit(t.last()));
        lemma_decimal_nonneg(d.subrange(0, k));
    } else {
        assert(d.subrange(0, k) =~= d);
    }
}

/// Read a `u64` from text as `str::parse::<u64>` does.
pub fn parse_u64(s: &str) -> (r: Option<u64>)
    ensures
        r == parse_u64_spec(s@),
{
    let n = s.unicode_len();
    let mut start: usize = 0;
    if n > 0 && s.get_char(0) == '+' {
        start = 1;
    }
    let ghost d = strip_plus(s@);
    proof {
        assert(d =~= s@.subrange(start as int, n as int));
    }
    if start == n {
        return None;
    }
    let mut v: u64 = 0;
    let mut i: usize = start;
    proof {
        assert(d.subrange(0, 0) =~= Seq::<char>::empty());
    }
    while i < n
        invariant
            start <= i <= n,
            n == s@.len(),
            d =~= s@.subrange(start as int, n as int),
            d == strip_plus(s@),
            forall|j: int| 0 <= j < i - start ==> is_digit(#[trigger] d[j]),
            v as int == decimal(d.subrange(0, i - start)),
        decreases n - i,
    {
        let c = s.get_char(i);
        assert(c == d[i - start]);
        if !('0' <= c && c <= '9') {
            proof {
                assert(!is_digit(d[i - start]));
                assert(!all_digits(d));
            }
            return None;
        }
        let dv = (c as u32 - '0' as u32) as u64;
        proof {
            let t = d.subrange(0, i - start + 1);
            assert(t.drop_last() =~= d.subrange(0, i - start));
            assert(t.last() == c);
            assert(dv == digit(c));
            assert(decimal(t) == v * 10 + dv);
        }
        if v > (u64::MAX - dv) / 10 {
            proof {
                assert(forall|j: int| 0 <= j < i - start + 1 ==> is_digit(#[trigger] d[j]));
                assert(v * 10 + dv > u64::MAX) by (nonlinear_arith)
                    requires
                        v > (u64::MAX - dv) / 10,
                        dv <= 9;
                let t = d.subrange(0, i - start + 1);
                assert(decimal(t) == v * 10 + dv);
                if all_digits(d) {
                    lemma_decimal_grows(d, i - start + 1);
                    assert(decimal(d) > u64::MAX);
                }
            }
            return None;
        }
        proof {
            assert(v * 10 + dv <= u64::MAX) by (nonlinear_arith)
                requires
                    v <= (u64::MAX - dv) / 10,
                    dv <= 9;
        }
        v = v * 10 + dv;
        i = i + 1;
    }
    proof {
        assert(d.subrange(0, n - start) =~= d);
    }
    Some(v)
}

/// Length of the mouse storm: the given number of ms when it reads as a `u64` of at
/// least 1000, else 5000.
pub open spec fn storm_ms_spec(raw: Option<Seq<char>>) -> u64 {
    match raw {
        Some(s) => match parse_u64_spec(s) {
            Some(v) => if v >= MIN_STORM_MS { v } else { DEFAULT_STORM_MS },
            None => DEFAULT_STORM_MS,
        },
        None => DEFAULT_STORM_MS,
    }
}

pub fn storm_ms_from(raw: Option<&str>) -> (ms: u64)
    ensures
        ms == storm_ms_spec(match raw {
            Some(s) => Some(s@),
            None => None,
        }),
{
    match raw {
        Some(s) => match parse_u64(s) {
            Some(v) => if v >= MIN_STORM_MS { v } else { DEFAULT_STORM_MS },
            None => DEFAULT_STORM_MS,
        },
        None => DEFAULT_STORM_MS,
    }
}

/// Number of text labels to draw on the chart: the given number when it reads as a
/// `usize`, else none.
pub fn text_labels_from(raw: Option<&str>) -> (n: usize)
    ensures
        n == (match raw {
            Some(s) => match parse_u64_spec(s@) {
                Some(v) => if v <= usize::MAX { v as usize } else { DEFAULT_TEXT_LABELS },
                None => DEFAULT_TEXT_LABELS,
            },
            None => DEFAULT_TEXT_LABELS,
        }),
{
    match raw {
        Some(s) => match parse_u64(s) {
            Some(v) => if v <= usize::MAX as u64 { v as usize } else { DEFAULT_TEXT_LABELS },
            None => DEFAULT_TEXT_LABELS,
        },
        None => DEFAULT_TEXT_LABELS,
    }
}

/// The market to open: the given one unless it is blank, else BTCUSDT.
pub fn market_from(raw: Option<String>) -> (m: String)
    ensures
        match raw {
            Some(s) => if trimmed(s@).len() > 0 { m@ == s@ } else { m@ == "BTCUSDT"@ },
            None => m@ == "BTCUSDT"@,
        },
{
    match raw {
        Some(s) => {
            if trim(s.as_str()).unicode_len() > 0 {
                s
            } else {
                String::from_str("BTCUSDT")
            }
        },
        None => String::from_str("BTCUSDT"),
    }
}

/// Settings of a run (the mouse rate stays with the caller, who drives the storm).
pub struct FiretestConfig {
    pub script: Script,
    pub market: String,
    pub storm_ms: u64,
    pub text_labels: usize,
}

/// Steps of a run, in their order.
#[derive(Clone, Copy, Debug, PartialEq, Eq, Structural)]
pub enum Phase {
    WaitStartup,
    WaitOpen,
    WaitProbe,
    WarmText,
    Baseline,
    Storm,
    Cooldown,
    Done,
}

pub open spec fn rank(p: Phase) -> int {
    match p {
        Phase::WaitStartup => 0,
        Phase::WaitOpen => 1,
        Phase::WaitProbe => 2,
        Phase::WarmText => 3,
        Phase::Baseline => 4,
        Phase::Storm => 5,
        Phase::Cooldown => 6,
        Phase::Done => 7,
    }
}

/// Why a run failed.
#[derive(Clone, Copy, Debug, PartialEq, Eq, Structural)]
pub enum FailReason {
    /// No active visible core or window to open the chart in.
    NoOpenTarget,
    /// The chart opened but the text overlay attached to no chart.
    TextOverlayMissing,
    /// The chart opened but its bounds never arrived.
    NoProbe,
    /// The bounds were gone when the storm was due.
    MissingProbe,
    /// The storm could not be started.
    StormStart,
}

/// What the run waits for, for the periodic note.
#[derive(Clone, Copy, Debug, PartialEq, Eq, Structural)]
pub enum WaitReason {
    OpenTarget,
    ChartProbe,
}

/// The outside work a step asks of the caller.
#[derive(Clone, Copy, Debug, PartialEq, Eq, Structural)]
pub enum Action {
    Nothing,
    /// A new phase began (note it).
    Enter(Phase),
    /// Try to open the chart, then report with `opened`.
    TryOpen,
    /// Ask the live charts to draw this many text labels, then report how many
    /// accepted with `text_applied`.
    ApplyText(usize),
    /// The overlay is off: note it (the run goes on to the baseline).
    TextDisabled,
    /// Start the mouse storm, then report with `storm_started`.
    StartStorm,
    /// Stop the storm; the cool-down began.
    EndStorm,
    /// Judge the samples and end the process.
    Evaluate,
    /// Stop any storm, note the failure and end the process with failure.
    Fail(FailReason),
    /// Note what the run waits for.
    Waiting(WaitReason),
}

/// The result of a tick: a change of the forced presenting of the charts, if any, and
/// the outside work to do.
#[derive(Clone, Copy, Debug, PartialEq, Eq, Structural)]
pub struct TickOut {
    pub pressure: Option<bool>,
    pub action: Action,
}

/// The state of a run. Times are ms of the caller's monotonic clock.
#[derive(Clone, Copy, Debug, PartialEq, Eq, Structural)]
pub struct Firetest {
    pub phase: Phase,
    pub phase_since_ms: u64,
    pub started_ms: u64,
    pub has_probe: bool,
    pub text_overlay_enabled: bool,
    pub present_pressure: bool,
    pub storm_running: bool,
    pub last_wait_log_ms: u64,
}

pub open spec fn elapsed(now: u64, since: u64) -> u64 {
    if now >= since { (now - since) as u64 } else { 0 }
}

pub open spec fn enter(s: Firetest, p: Phase, now: u64) -> Firetest {
    Firetest { phase: p, phase_since_ms: now, ..s }
}

pub open spec fn failed(s: Firetest, now: u64, why: FailReason) -> (Firetest, Action) {
    (Firetest { phase: Phase::Done, phase_since_ms: now, storm_running: false, ..s }, Action::Fail(why))
}

pub open spec fn waiting(s: Firetest, now: u64, why: WaitReason) -> (Firetest, Action) {
    if elapsed(now, s.last_wait_log_ms) < WAIT_LOG_EVERY_MS {
        (s, Action::Nothing)
    } else {
        (Firetest { last_wait_log_ms: now, ..s }, Action::Waiting(why))
    }
}

pub open spec fn with_pressure(s: Firetest, on: bool) -> (Firetest, Option<bool>) {
    if s.present_pressure == on {
        (s, None)
    } else {
        (Firetest { present_pressure: on, ..s }, Some(on))
    }
}

/// After the text overlay reported `applied` charts: a failure when labels were
/// asked and none attached; else the baseline (no labels) or the text warm-up.
pub open spec fn after_text(s: Firetest, labels: usize, applied: usize, now: u64) -> (Firetest, Action) {
    if labels > 0 && applied == 0 {
        failed(s, now, FailReason::TextOverlayMissing)
    } else if labels == 0 {
        (enter(s, Phase::Baseline, now), Action::Enter(Phase::Baseline))
    } else {
        (enter(s, Phase::WarmText, now), Action::Enter(Phase::WarmText))
    }
}

/// One tick at `now` (`storm_done`: the storm reported it finished).
pub open spec fn after_tick(s: Firetest, labels: usize, storm_ms: u64, now: u64, storm_done: bool) -> (Firetest, TickOut) {
    let in_phase = elapsed(now, s.phase_since_ms);
    match s.phase {
        Phase::WaitStartup => if elapsed(now, s.started_ms) >= START_DELAY_MS {
            (enter(s, Phase::WaitOpen, now), TickOut { pressure: None, action: Action::Enter(Phase::WaitOpen) })
        } else {
            (s, TickOut { pressure: None, action: Action::Nothing })
        },
        Phase::WaitOpen => (s, TickOut { pressure: None, action: Action::TryOpen }),
        Phase::WaitProbe => if s.has_probe {
            if s.text_overlay_enabled {
                let r = after_text(s, labels, 0, now);
                (r.0, TickOut { pressure: None, action: r.1 })
            } else {
                let t = Firetest { text_overlay_enabled: true, ..s };
                if labels == 0 {
                    let r = after_text(t, labels, 0, now);
                    (r.0, TickOut { pressure: None, action: if r.1 == Action::Enter(Phase::Baseline) { Action::TextDisabled } else { r.1 } })
                } else {
                    (t, TickOut { pressure: None, action: Action::ApplyText(labels) })
                }
            }
        } else if in_phase >= PROBE_TIMEOUT_MS {
            let r = failed(s, now, FailReason::NoProbe);
            (r.0, TickOut { pressure: None, action: r.1 })
        } else {
            let r = waiting(s, now, WaitReason::ChartProbe);
            (r.0, TickOut { pressure: None, action: r.1 })
        },
        Phase::WarmText => if in_phase >= TEXT_WARMUP_MS {
            (enter(s, Phase::Baseline, now), TickOut { pressure: None, action: Action::Enter(Phase::Baseline) })
        } else {
            (s, TickOut { pressure: None, action: Action::Nothing })
        },
        Phase::Baseline => {
            let (t, pr) = with_pressure(s, true);
            if in_phase >= BASELINE_MS {
                if !t.has_probe {
                    let r = failed(t, now, FailReason::MissingProbe);
                    (r.0, TickOut { pressure: pr, action: r.1 })
                } else {
                    (t, TickOut { pressure: pr, action: Action::StartStorm })
                }
            } else {
                (t, TickOut { pressure: pr, action: Action::Nothing })
            }
        },
        Phase::Storm => {
            let (t, pr) = with_pressure(s, true);
            if (t.storm_running && storm_done) || in_phase >= storm_ms {
                (enter(Firetest { storm_running: false, ..t }, Phase::Cooldown, now), TickOut { pressure: pr, action: Action::EndStorm })
            } else {
                (t, TickOut { pressure: pr, action: Action::Nothing })
            }
        },
        Phase::Cooldown => {
            let (t, pr) = with_pressure(s, false);
            if in_phase >= COOLDOWN_MS {
                (enter(t, Phase::Done, now), TickOut { pressure: pr, action: Action::Evaluate })
            } else {
                (t, TickOut { pressure: pr, action: Action::Nothing })
            }
        },
        Phase::Done => (s, TickOut { pressure: None, action: Action::Nothing }),
    }
}

/// After trying to open the chart (in `WaitOpen`; elsewhere nothing happens).
pub open spec fn after_open(s: Firetest, ok: bool, now: u64) -> (Firetest, Action) {
    if s.phase != Phase::WaitOpen {
        (s, Action::Nothing)
    } else if ok {
        (enter(s, Phase::WaitProbe, now), Action::Enter(Phase::WaitProbe))
    } else if elapsed(now, s.phase_since_ms) >= OPEN_TIMEOUT_MS {
        failed(s, now, FailReason::NoOpenTarget)
    } else {
        waiting(s, now, WaitReason::OpenTarget)
    }
}

/// After the storm was asked to start (in `Baseline`; elsewhere nothing happens).
pub open spec fn after_storm_start(s: Firetest, ok: bool, now: u64) -> (Firetest, Action) {
    if s.phase != Phase::Baseline {
        (s, Action::Nothing)
    } else if ok {
        (enter(Firetest { storm_running: true, ..s }, Phase::Storm, now), Action::Enter(Phase::Storm))
    } else {
        failed(s, now, FailReason::StormStart)
    }
}

impl Firetest {
    /// A run that starts at `now_ms` (diagnostics get switched on by the caller).
    pub fn new(now_ms: u64) -> (r: Firetest)
        ensures
            r.phase == Phase::WaitStartup,
            r.phase_since_ms == now_ms,
            r.started_ms == now_ms,
            r.last_wait_log_ms == now_ms,
            !r.has_probe && !r.text_overlay_enabled && !r.present_pressure && !r.storm_running,
    {
        Firetest {
            phase: Phase::WaitStartup,
            phase_since_ms: now_ms,
            started_ms: now_ms,
            has_probe: false,
            text_overlay_enabled: false,
            present_pressure: false,
            storm_running: false,
            last_wait_log_ms: now_ms,
        }
    }

    fn elapsed_since(now: u64, since: u64) -> (e: u64)
        ensures
            e == elapsed(now, since),
    {
        if now >= since { now - since } else { 0 }
    }

    fn enter_phase(&mut self, p: Phase, now: u64)
        ensures
            *final(self) == enter(*old(self), p, now),
    {
        self.phase = p;
        self.phase_since_ms = now;
    }

    fn fail(&mut self, now: u64, why: FailReason) -> (a: Action)
        ensures
            (*final(self), a) == failed(*old(self), now, why),
    {
        self.phase = Phase::Done;
        self.phase_since_ms = now;
        self.storm_running = false;
        Action::Fail(why)
    }

    fn wait_note(&mut self, now: u64, why: WaitReason) -> (a: Action)
        ensures
            (*final(self), a) == waiting(*old(self), now, why),
    {
        if Self::elapsed_since(now, self.last_wait_log_ms) < WAIT_LOG_EVERY_MS {
            return Action::Nothing;
        }
        self.last_wait_log_ms = now;
        Action::Waiting(why)
    }

    fn set_pressure(&mut self, on: bool) -> (pr: Option<bool>)
        ensures
            (*final(self), pr) == with_pressure(*old(self), on),
    {
        if self.present_pressure == on {
            None
        } else {
            self.present_pressure = on;
            Some(on)
        }
    }

    fn text_result(&mut self, labels: usize, applied: usize, now: u64) -> (a: Action)
        ensures
            (*final(self), a) == after_text(*old(self), labels, applied, now),
    {
        if labels > 0 && applied == 0 {
            self.fail(now, FailReason::TextOverlayMissing)
        } else if labels == 0 {
            self.enter_phase(Phase::Baseline, now);
            Action::Enter(Phase::Baseline)
        } else {
            self.enter_phase(Phase::WarmText, now);
            Action::Enter(Phase::WarmText)
        }
    }

    /// One tick of the run at `now_ms`.
    pub fn tick(&mut self, cfg: &FiretestConfig, now_ms: u64, storm_done: bool) -> (out: TickOut)
        ensures
            (*final(self), out) == after_tick(*old(self), cfg.text_labels, cfg.storm_ms, now_ms, storm_done),
    {
        let in_phase = Self::elapsed_since(now_ms, self.phase_since_ms);
        match self.phase {
            Phase::WaitStartup => {
                if Self::elapsed_since(now_ms, self.started_ms) >= START_DELAY_MS {
                    self.enter_phase(Phase::WaitOpen, now_ms);
                    TickOut { pressure: None, action: Action::Enter(Phase::WaitOpen) }
                } else {
                    TickOut { pressure: None, action: Action::Nothing }
                }
            },
            Phase::WaitOpen => TickOut { pressure: None, action: Action::TryOpen },
            Phase::WaitProbe => {
                if self.has_probe {
                    if self.text_overlay_enabled {
                        let a = self.text_result(cfg.text_labels, 0, now_ms);
                        TickOut { pressure: None, action: a }
                    } else {
                        self.text_overlay_enabled = true;
                        if cfg.text_labels == 0 {
                            let a = self.text_result(cfg.text_labels, 0, now_ms);
                            TickOut { pressure: None, action: if a == Action::Enter(Phase::Baseline) { Action::TextDisabled } else { a } }
                        } else {
                            TickOut { pressure: None, action: Action::ApplyText(cfg.text_labels) }
                        }
                    }
                } else if in_phase >= PROBE_TIMEOUT_MS {
                    let a = self.fail(now_ms, FailReason::NoProbe);
                    TickOut { pressure: None, action: a }
                } else {
                    let a = self.wait_note(now_ms, WaitReason::ChartProbe);
                    TickOut { pressure: None, action: a }
                }
            },
            Phase::WarmText => {
                if in_phase >= TEXT_WARMUP_MS {
                    self.enter_phase(Phase::Baseline, now_ms);
                    TickOut { pressure: None, action: Action::Enter(Phase::Baseline) }
                } else {
                    TickOut { pressure: None, action: Action::Nothing }
                }
            },
            Phase::Baseline => {
                let pr = self.set_pressure(true);
                if in_phase >= BASELINE_MS {
                    if !self.has_probe {
                        let a = self.fail(now_ms, FailReason::MissingProbe);
                        TickOut { pressure: pr, action: a }
                    } else {
                        TickOut { pressure: pr, action: Action::StartStorm }
                    }
                } else {
                    TickOut { pressure: pr, action: Action::Nothing }
                }
            },
            Phase::Storm => {
                let pr = self.set_pressure(true);
                if (self.storm_running && storm_done) || in_phase >= cfg.storm_ms {
                    self.storm_running = false;
                    self.enter_phase(Phase::Cooldown, now_ms);
                    TickOut { pressure: pr, action: Action::EndStorm }
                } else {
                    TickOut { pressure: pr, action: Action::Nothing }
                }
            },
            Phase::Cooldown => {
                let pr = self.set_pressure(false);
                if in_phase >= COOLDOWN_MS {
                    self.enter_phase(Phase::Done, now_ms);
                    TickOut { pressure: pr, action: Action::Evaluate }
                } else {
                    TickOut { pressure: pr, action: Action::Nothing }
                }
            },
            Phase::Done => TickOut { pressure: None, action: Action::Nothing },
        }
    }

    /// The caller tried to open the chart; `ok` when it did.
    pub fn opened(&mut self, ok: bool, now_ms: u64) -> (a: Action)
        ensures
            (*final(self), a) == after_open(*old(self), ok, now_ms),
    {
        if self.phase != Phase::WaitOpen {
            return Action::Nothing;
        }
        if ok {
            self.enter_phase(Phase::WaitProbe, now_ms);
            Action::Enter(Phase::WaitProbe)
        } else if Self::elapsed_since(now_ms, self.phase_since_ms) >= OPEN_TIMEOUT_MS {
            self.fail(now_ms, FailReason::NoOpenTarget)
        } else {
            self.wait_note(now_ms, WaitReason::OpenTarget)
        }
    }

    /// The live charts took the text labels; `applied` of them accepted (while waiting
    /// for the bounds; elsewhere nothing happens).
    pub fn text_applied(&mut self, cfg: &FiretestConfig, applied: usize, now_ms: u64) -> (a: Action)
        ensures
            old(self).phase == Phase::WaitProbe ==> (*final(self), a) == after_text(*old(self), cfg.text_labels, applied, now_ms),
            old(self).phase != Phase::WaitProbe ==> *final(self) == *old(self) && a == Action::Nothing,
    {
        if self.phase != Phase::WaitProbe {
            return Action::Nothing;
        }
        self.text_result(cfg.text_labels, applied, now_ms)
    }

    /// The caller tried to start the storm; `ok` when it runs.
    pub fn storm_started(&mut self, ok: bool, now_ms: u64) -> (a: Action)
        ensures
            (*final(self), a) == after_storm_start(*old(self), ok, now_ms),
    {
        if self.phase != Phase::Baseline {
            return Action::Nothing;
        }
        if ok {
            self.storm_running = true;
            self.enter_phase(Phase::Storm, now_ms);
            Action::Enter(Phase::Storm)
        } else {
            self.fail(now_ms, FailReason::StormStart)
        }
    }

    /// The chart reported its bounds: they are kept while waiting for them, during the
    /// baseline and during the storm. Returns whether they were kept.
    pub fn observe_probe(&mut self) -> (kept: bool)
        ensures
            kept == (old(self).phase == Phase::WaitProbe || old(self).phase == Phase::Baseline || old(self).phase == Phase::Storm),
            kept ==> *final(self) == (Firetest { has_probe: true, ..*old(self) }),
            !kept ==> *final(self) == *old(self),
    {
        match self.phase {
            Phase::WaitProbe | Phase::Baseline | Phase::Storm => {
                self.has_probe = true;
                true
            },
            _ => false,
        }
    }

    /// Whether a diagnostics sample taken at `now_ms` is kept: never once done, and
    /// not in the first 1.5 s of the baseline.
    pub fn should_record(&self, now_ms: u64) -> (keep: bool)
        ensures
            keep == (self.phase != Phase::Done
                && !(self.phase == Phase::Baseline && elapsed(now_ms, self.phase_since_ms) < BASELINE_WARMUP_MS)),
    {
        if self.phase == Phase::Done {
            return false;
        }
        if self.phase == Phase::Baseline && Self::elapsed_since(now_ms, self.phase_since_ms) < BASELINE_WARMUP_MS {
            return false;
        }
        true
    }
}

/// A run only moves forward through its phases.
pub proof fn law_phases_move_forward(s: Firetest, labels: usize, storm_ms: u64, now: u64, storm_done: bool, ok: bool, applied: usize)
    ensures
        rank(after_tick(s, labels, storm_ms, now, storm_done).0.phase) >= rank(s.phase),
        rank(after_open(s, ok, now).0.phase) >= rank(s.phase),
        s.phase == Phase::WaitProbe ==> rank(after_text(s, labels, applied, now).0.phase) >= rank(s.phase),
        rank(after_storm_start(s, ok, now).0.phase) >= rank(s.phase),
{
}

/// A finished run stays finished and asks for nothing more.
pub proof fn law_done_is_final(s: Firetest, labels: usize, storm_ms: u64, now: u64, storm_done: bool, ok: bool)
    requires
        s.phase == Phase::Done,
    ensures
        after_tick(s, labels, storm_ms, now, storm_done) == (s, TickOut { pressure: None, action: Action::Nothing }),
        after_open(s, ok, now) == (s, Action::Nothing),
        after_storm_start(s, ok, now) == (s, Action::Nothing),
{
}

/// Every failure ends the run with no storm left running.
pub proof fn law_failure_ends_run(s: Firetest, now: u64, why: FailReason)
    ensures
        failed(s, now, why).0.phase == Phase::Done,
        !failed(s, now, why).0.storm_running,
{
}

/// The storm runs only during the storm phase: a tick that leaves it stops it.
pub proof fn law_storm_stops_when_left(s: Firetest, labels: usize, storm_ms: u64, now: u64, storm_done: bool)
    requires
        s.phase == Phase::Storm,
        after_tick(s, labels, storm_ms, now, storm_done).0.phase != Phase::Storm,
    ensures
        !after_tick(s, labels, storm_ms, now, storm_done).0.storm_running,
        after_tick(s, labels, storm_ms, now, storm_done).1.action == Action::EndStorm,
{
}

} // verus!
