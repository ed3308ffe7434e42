//! Mouse buttons over a chart area: which button is held, whether a left drag pans in
//! time, whether a right drag zooms the price, and which pane a drag acts on.

use vstd::prelude::*;

verus! {

/// A mouse button.
#[derive(Clone, Copy, Debug, PartialEq, Eq, Structural)]
pub enum Btn {
    Left,
    Right,
}

/// The button state of a chart area. `hovered_pane` is the pane under the pointer,
/// kept up to date by the caller.
#[derive(Clone, Copy, Debug, PartialEq, Eq, Structural)]
pub struct ButtonState {
    pub hovered_pane: Option<usize>,
    pub lmb_down: bool,
    pub lmb_x_active: bool,
    pub rmb_down: bool,
    pub rmb_moved: bool,
    pub drag_pane: Option<usize>,
}

impl ButtonState {
    /// No button held, no drag.
    pub open spec fn idle(self) -> bool {
        !self.lmb_down && !self.lmb_x_active && !self.rmb_down && self.drag_pane is None
    }

    /// Nothing held over no pane.
    pub fn new() -> (s: ButtonState)
        ensures
            s.idle(),
            !s.rmb_moved,
            s.hovered_pane is None,
    {
        ButtonState { hovered_pane: None, lmb_down: false, lmb_x_active: false, rmb_down: false, rmb_moved: false, drag_pane: None }
    }

    /// A button goes down. Only a press inside the chart area (`gate_ok`) counts: it
    /// starts a drag of the pane under the pointer (a left drag pans in price until it
    /// also pans in time; a right drag has not moved yet). Returns whether it counted.
    pub fn press(&mut self, button: Btn, gate_ok: bool) -> (counted: bool)
        ensures
            counted == gate_ok,
            *final(self) == pressed(*old(self), button, gate_ok),
            !gate_ok ==> *final(self) == *old(self),
            gate_ok ==> final(self).drag_pane == old(self).hovered_pane,
            gate_ok ==> final(self).hovered_pane == old(self).hovered_pane,
            gate_ok && button == Btn::Left ==> final(self).lmb_down && !final(self).lmb_x_active
                && final(self).rmb_down == old(self).rmb_down && final(self).rmb_moved == old(self).rmb_moved,
            gate_ok && button == Btn::Right ==> final(self).rmb_down && !final(self).rmb_moved
                && final(self).lmb_down == old(self).lmb_down && final(self).lmb_x_active == old(self).lmb_x_active,
    {
        if !gate_ok {
            return false;
        }
        match button {
            Btn::Left => {
                self.lmb_down = true;
                self.lmb_x_active = false;
            },
            Btn::Right => {
                self.rmb_down = true;
                self.rmb_moved = false;
            },
        }
        self.drag_pane = self.hovered_pane;
        true
    }

    /// A button goes up. For the left button, returns the pane to snap back to live
    /// time when the drag was panning in time (`None` otherwise). The drag ends when no
    /// button is held any more.
    pub fn release(&mut self, button: Btn) -> (snap: Option<Option<usize>>)
        ensures
            *final(self) == released(*old(self), button),
            button == Btn::Left ==> !final(self).lmb_down && !final(self).lmb_x_active
                && final(self).rmb_down == old(self).rmb_down,
            button == Btn::Right ==> !final(self).rmb_down
                && final(self).lmb_down == old(self).lmb_down && final(self).lmb_x_active == old(self).lmb_x_active,
            final(self).rmb_moved == old(self).rmb_moved,
            final(self).hovered_pane == old(self).hovered_pane,
            !final(self).lmb_down && !final(self).rmb_down ==> final(self).drag_pane is None,
            final(self).lmb_down || final(self).rmb_down ==> final(self).drag_pane == old(self).drag_pane,
            snap == (if button == Btn::Left && old(self).lmb_down && old(self).lmb_x_active {
                Some(old(self).drag_pane)
            } else {
                None
            }),
    {
        match button {
            Btn::Left => {
                let snap = if self.lmb_down && self.lmb_x_active { Some(self.drag_pane) } else { None };
                self.lmb_down = false;
                self.lmb_x_active = false;
                if !self.rmb_down {
                    self.drag_pane = None;
                }
                snap
            },
            Btn::Right => {
                self.rmb_down = false;
                if !self.lmb_down {
                    self.drag_pane = None;
                }
                None
            },
        }
    }

    /// The pane a drag acts on: the one it started over, else the one under the pointer.
    pub fn drag_target(&self) -> (p: Option<usize>)
        ensures
            p == (match self.drag_pane {
                Some(d) => Some(d),
                None => self.hovered_pane,
            }),
    {
        match self.drag_pane {
            Some(d) => Some(d),
            None => self.hovered_pane,
        }
    }

    /// During a left drag, the horizontal motion passed its threshold (`x_break`):
    /// from then on the drag also pans in time. Returns whether it pans in time.
    pub fn left_drag(&mut self, x_break: bool) -> (x_active: bool)
        ensures
            final(self).lmb_x_active == (old(self).lmb_x_active || (old(self).lmb_down && x_break)),
            x_active == final(self).lmb_x_active,
            final(self).lmb_down == old(self).lmb_down,
            final(self).rmb_down == old(self).rmb_down,
            final(self).rmb_moved == old(self).rmb_moved,
            final(self).drag_pane == old(self).drag_pane,
            final(self).hovered_pane == old(self).hovered_pane,
    {
        if self.lmb_down && !self.lmb_x_active && x_break {
            self.lmb_x_active = true;
        }
        self.lmb_x_active
    }

    /// During a right drag, the pointer went past the zoom threshold (`beyond`):
    /// from then on the drag zooms the price. Returns whether it zooms.
    pub fn right_drag(&mut self, beyond: bool) -> (zooming: bool)
        ensures
            final(self).rmb_moved == (old(self).rmb_moved || (old(self).rmb_down && beyond)),
            zooming == (old(self).rmb_down && final(self).rmb_moved),
            final(self).lmb_down == old(self).lmb_down,
            final(self).lmb_x_active == old(self).lmb_x_active,
            final(self).rmb_down == old(self).rmb_down,
            final(self).drag_pane == old(self).drag_pane,
            final(self).hovered_pane == old(self).hovered_pane,
    {
        if !self.rmb_down {
            return false;
        }
        if beyond {
            self.rmb_moved = true;
        }
        self.rmb_moved
    }

    /// Align with the buttons the last pointer move reports as held: a release that
    /// happened outside the area must not leave a drag stuck.
    pub fn sync_pressed(&mut self, left_held: bool, right_held: bool)
        ensures
            *final(self) == synced(*old(self), left_held, right_held),
            final(self).lmb_down == (old(self).lmb_down && left_held),
            final(self).lmb_x_active == (old(self).lmb_x_active && left_held),
            final(self).rmb_down == (old(self).rmb_down && right_held),
            final(self).drag_pane == (if !left_held && !right_held { None } else { old(self).drag_pane }),
            final(self).rmb_moved == old(self).rmb_moved,
            final(self).hovered_pane == old(self).hovered_pane,
    {
        if !left_held {
            self.lmb_down = false;
            self.lmb_x_active = false;
        }
        if !right_held {
            self.rmb_down = false;
        }
        if !left_held && !right_held {
            self.drag_pane = None;
        }
    }

    /// Whether the right button moved past the zoom threshold since it went down (a
    /// zoom, not a short click).
    pub fn rmb_moved(&self) -> (m: bool)
        ensures
            m == self.rmb_moved,
    {
        self.rmb_moved
    }
}

/// The state after a press of `button` (inside the area when `gate_ok`).
pub open spec fn pressed(s: ButtonState, button: Btn, gate_ok: bool) -> ButtonState {
    if !gate_ok {
        s
    } else {
        match button {
            Btn::Left => ButtonState { lmb_down: true, lmb_x_active: false, drag_pane: s.hovered_pane, ..s },
            Btn::Right => ButtonState { rmb_down: true, rmb_moved: false, drag_pane: s.hovered_pane, ..s },
        }
    }
}

/// The state after `button` goes up.
pub open spec fn released(s: ButtonState, button: Btn) -> ButtonState {
    match button {
        Btn::Left => ButtonState {
            lmb_down: false,
            lmb_x_active: false,
            drag_pane: if s.rmb_down { s.drag_pane } else { None },
            ..s
        },
        Btn::Right => ButtonState {
            rmb_down: false,
            drag_pane: if s.lmb_down { s.drag_pane } else { None },
            ..s
        },
    }
}

/// The state after a pointer move that reports which buttons are held.
pub open spec fn synced(s: ButtonState, left_held: bool, right_held: bool) -> ButtonState {
    ButtonState {
        lmb_down: s.lmb_down && left_held,
        lmb_x_active: s.lmb_x_active && left_held,
        rmb_down: s.rmb_down && right_held,
        drag_pane: if !left_held && !right_held { None } else { s.drag_pane },
        ..s
    }
}

/// When a pointer move reports no button held, no drag is left over.
pub proof fn law_sync_released_is_idle(s: ButtonState)
    ensures
        synced(s, false, false).idle(),
{
}

/// From rest, a press of a button inside the area and its release leave no drag.
pub proof fn law_click_ends_drag(s: ButtonState, button: Btn)
    requires
        s.idle(),
    ensures
        released(pressed(s, button, true), button).idle(),
{
}

/// A press outside the area changes nothing.
pub proof fn law_press_outside_ignored(s: ButtonState, button: Btn)
    ensures
        pressed(s, button, false) == s,
{
}


/// A mouse button for trading gestures on a chart.
#[derive(Clone, Copy, Debug, PartialEq, Eq, Structural)]
pub enum TradeMouseButton {
    Left,
    Middle,
    Right,
}

/// The modifier keys held during a click.
#[derive(Clone, Copy, Debug, PartialEq, Eq, Structural)]
pub struct KeyModifiers {
    pub control: bool,
    pub alt: bool,
    pub shift: bool,
    pub platform: bool,
    pub function: bool,
}

/// Whether any modifier key is held.
pub open spec fn modified(m: KeyModifiers) -> bool {
    m.control || m.alt || m.shift || m.platform || m.function
}

impl KeyModifiers {
    pub fn modified(&self) -> (r: bool)
        ensures
            r == modified(*self),
    {
        self.control || self.alt || self.shift || self.platform || self.function
    }
}

/// The mouse gesture a trading action is bound to.
#[derive(Clone, Copy, Debug, PartialEq, Eq, Structural)]
pub enum MouseGestureBinding {
    Unbound,
    LeftDouble,
    LeftCtrl,
    LeftShift,
    LeftAlt,
    Middle,
    MiddleCtrl,
    MiddleShift,
    MiddleAlt,
    RightDouble,
    RightCtrl,
    RightShift,
    RightAlt,
    LeftCtrlDouble,
    LeftShiftDouble,
    LeftAltDouble,
}

/// Whether a click of `button` with `m` held, the `clicks`-th in a row, is gesture
/// `g`: its button, a double click (two or more) where it says so, no modifier for a
/// plain or double gesture, and the named modifier otherwise (other keys may be held
/// too).
pub open spec fn gesture_spec(g: MouseGestureBinding, button: TradeMouseButton, m: KeyModifiers, clicks: usize) -> bool {
    let dbl = clicks >= 2;
    let clear = !modified(m);
    let left = button == TradeMouseButton::Left;
    let middle = button == TradeMouseButton::Middle;
    let right = button == TradeMouseButton::Right;
    match g {
        MouseGestureBinding::Unbound => false,
        MouseGestureBinding::LeftDouble => left && dbl && clear,
        MouseGestureBinding::LeftCtrl => left && m.control,
        MouseGestureBinding::LeftShift => left && m.shift,
        MouseGestureBinding::LeftAlt => left && m.alt,
        MouseGestureBinding::Middle => middle && clear,
        MouseGestureBinding::MiddleCtrl => middle && m.control,
        MouseGestureBinding::MiddleShift => middle && m.shift,
        MouseGestureBinding::MiddleAlt => middle && m.alt,
        MouseGestureBinding::RightDouble => right && dbl && clear,
        MouseGestureBinding::RightCtrl => right && m.control,
        MouseGestureBinding::RightShift => right && m.shift,
        MouseGestureBinding::RightAlt => right && m.alt,
        MouseGestureBinding::LeftCtrlDouble => left && dbl && m.control,
        MouseGestureBinding::LeftShiftDouble => left && dbl && m.shift,
        MouseGestureBinding::LeftAltDouble => left && dbl && m.alt,
    }
}

pub fn gesture_matches(binding: MouseGestureBinding, button: TradeMouseButton, modifiers: KeyModifiers, click_count: usize) -> (r: bool)
    ensures
        r == gesture_spec(binding, button, modifiers, click_count),
{
    let dbl = click_count >= 2;
    let clear = !modifiers.modified();
    match binding {
        MouseGestureBinding::Unbound => false,
        MouseGestureBinding::LeftDouble => button == TradeMouseButton::Left && dbl && clear,
        MouseGestureBinding::LeftCtrl => button == TradeMouseButton::Left && modifiers.control,
        MouseGestureBinding::LeftShift => button == TradeMouseButton::Left && modifiers.shift,
        MouseGestureBinding::LeftAlt => button == TradeMouseButton::Left && modifiers.alt,
        MouseGestureBinding::Middle => button == TradeMouseButton::Middle && clear,
        MouseGestureBinding::MiddleCtrl => button == TradeMouseButton::Middle && modifiers.control,
        MouseGestureBinding::MiddleShift => button == TradeMouseButton::Middle && modifiers.shift,
        MouseGestureBinding::MiddleAlt => button == TradeMouseButton::Middle && modifiers.alt,
        MouseGestureBinding::RightDouble => button == TradeMouseButton::Right && dbl && clear,
        MouseGestureBinding::RightCtrl => button == TradeMouseButton::Right && modifiers.control,
        MouseGestureBinding::RightShift => button == TradeMouseButton::Right && modifiers.shift,
        MouseGestureBinding::RightAlt => button == TradeMouseButton::Right && modifiers.alt,
        MouseGestureBinding::LeftCtrlDouble => button == TradeMouseButton::Left && dbl && modifiers.control,
        MouseGestureBinding::LeftShiftDouble => button == TradeMouseButton::Left && dbl && modifiers.shift,
        MouseGestureBinding::LeftAltDouble => button == TradeMouseButton::Left && dbl && modifiers.alt,
    }
}

/// Plain gestures fire only with no modifier held, and modifier gestures only with
/// their modifier held; an unbound action never fires.
pub proof fn law_gestures_respect_modifiers(g: MouseGestureBinding, b: TradeMouseButton, m: KeyModifiers, clicks: usize)
    ensures
        (g == MouseGestureBinding::LeftDouble || g == MouseGestureBinding::Middle || g == MouseGestureBinding::RightDouble)
            && modified(m) ==> !gesture_spec(g, b, m, clicks),
        !modified(m) && g != MouseGestureBinding::LeftDouble && g != MouseGestureBinding::Middle
            && g != MouseGestureBinding::RightDouble ==> !gesture_spec(g, b, m, clicks),
        !gesture_spec(MouseGestureBinding::Unbound, b, m, clicks),
{
}

/// A double-click gesture never fires on a single click: it needs a click count of
/// at least two, whatever button and keys are held.
pub proof fn law_double_gestures_need_two_clicks(g: MouseGestureBinding, b: TradeMouseButton, m: KeyModifiers, clicks: usize)
    requires
        g == MouseGestureBinding::LeftDouble || g == MouseGestureBinding::RightDouble
            || g == MouseGestureBinding::LeftCtrlDouble || g == MouseGestureBinding::LeftShiftDouble
            || g == MouseGestureBinding::LeftAltDouble,
        clicks < 2,
    ensures
        !gesture_spec(g, b, m, clicks),
{
}

/// A shift (ctrl, alt) double click of the left button with that key held fires the
/// gesture bound to it; the same click with the key not held does not.
pub proof fn law_modified_double_left(b: TradeMouseButton, m: KeyModifiers, clicks: usize)
    requires
        b == TradeMouseButton::Left,
        clicks >= 2,
    ensures
        gesture_spec(MouseGestureBinding::LeftShiftDouble, b, m, clicks) == m.shift,
        gesture_spec(MouseGestureBinding::LeftCtrlDouble, b, m, clicks) == m.control,
        gesture_spec(MouseGestureBinding::LeftAltDouble, b, m, clicks) == m.alt,
{
}

} // verus!
