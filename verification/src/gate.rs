//! When a dock panel redraws: on a new data signature or a new second (live prices),
//! but never more often than every 250 ms.

use vstd::prelude::*;

verus! {

/// Least time between two redraws, in ms.
pub const MIN_GAP_MS: u64 = 250;

pub struct RenderGate {
    pub last_sig: u64,
    pub last_sec: u64,
    pub last_notify_ms: u64,
}

/// Whether a redraw is due for `sig` at `now_ms`, after the last one of `g`.
pub open spec fn due(g: RenderGate, sig: u64, now_ms: u64) -> bool {
    let changed = sig != g.last_sig || now_ms / 1000 != g.last_sec;
    changed && now_ms - g.last_notify_ms >= MIN_GAP_MS
}

impl RenderGate {
    /// A gate that has not redrawn yet.
    pub fn new() -> (g: RenderGate)
        ensures
            g.last_sig == 0,
            g.last_sec == 0,
            g.last_notify_ms == 0,
    {
        RenderGate { last_sig: 0, last_sec: 0, last_notify_ms: 0 }
    }

    /// True when it is time to redraw (the signature or the second changed, and at
    /// least 250 ms passed); then this redraw is remembered.
    pub fn should_notify(&mut self, sig: u64, now_ms: u64) -> (r: bool)
        ensures
            r == due(*old(self), sig, now_ms),
            r ==> final(self).last_sig == sig && final(self).last_sec == now_ms / 1000
                && final(self).last_notify_ms == now_ms,
            !r ==> *final(self) == *old(self),
    {
        let sec = now_ms / 1000;
        let changed = sig != self.last_sig || sec != self.last_sec;
        if changed && (now_ms as i128) - (self.last_notify_ms as i128) >= MIN_GAP_MS as i128 {
            self.last_sig = sig;
            self.last_sec = sec;
            self.last_notify_ms = now_ms;
            true
        } else {
            false
        }
    }
}

/// Right after a redraw, the same signature in the same second redraws nothing.
pub proof fn law_no_redraw_twice(g: RenderGate, sig: u64, now_ms: u64)
    requires
        g.last_sig == sig,
        g.last_sec == now_ms / 1000,
    ensures
        !due(g, sig, now_ms),
{
}

/// Two redraws are always at least 250 ms apart.
pub proof fn law_min_gap(g: RenderGate, sig: u64, now_ms: u64)
    requires
        due(g, sig, now_ms),
    ensures
        now_ms >= g.last_notify_ms + MIN_GAP_MS,
{
}

/// The shared backend wakes the windows at most every 250 ms: changes mark it dirty,
/// and a flush notifies when it is dirty and the last notice is old enough.
pub struct NotifyGate {
    pub dirty: bool,
    pub last_ms: Option<u64>,
}

pub open spec fn flush_due(g: NotifyGate, now_ms: u64) -> bool {
    g.dirty && match g.last_ms {
        None => true,
        Some(l) => now_ms - l >= MIN_GAP_MS,
    }
}

impl NotifyGate {
    pub fn new() -> (g: NotifyGate)
        ensures
            !g.dirty,
            g.last_ms is None,
    {
        NotifyGate { dirty: false, last_ms: None }
    }

    /// Notify now if due (then it is clean and `now_ms` is remembered).
    pub fn flush(&mut self, now_ms: u64) -> (notify: bool)
        ensures
            notify == flush_due(*old(self), now_ms),
            notify ==> !final(self).dirty && final(self).last_ms == Some(now_ms),
            !notify ==> final(self).dirty == old(self).dirty && final(self).last_ms == old(self).last_ms,
    {
        if !self.dirty {
            return false;
        }
        let due = match self.last_ms {
            None => true,
            Some(l) => (now_ms as i128) - (l as i128) >= MIN_GAP_MS as i128,
        };
        if !due {
            return false;
        }
        self.dirty = false;
        self.last_ms = Some(now_ms);
        true
    }

    /// Something changed: mark dirty and flush.
    pub fn mark_dirty(&mut self, now_ms: u64) -> (notify: bool)
        ensures
            notify == flush_due(marked(*old(self)), now_ms),
            notify ==> !final(self).dirty && final(self).last_ms == Some(now_ms),
            !notify ==> final(self).dirty && final(self).last_ms == old(self).last_ms,
    {
        self.dirty = true;
        self.flush(now_ms)
    }
}

/// The notifier with a change marked.
pub open spec fn marked(g: NotifyGate) -> NotifyGate {
    NotifyGate { dirty: true, ..g }
}

/// Two notices of the backend are at least 250 ms apart.
pub proof fn law_notices_apart(g: NotifyGate, now_ms: u64)
    requires
        flush_due(g, now_ms),
        g.last_ms is Some,
    ensures
        now_ms >= g.last_ms->0 + MIN_GAP_MS,
{
}

} // verus!
