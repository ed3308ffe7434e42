//! Dock panels moved out into windows of their own: which panels can go, what their
//! windows are called, and where each window stands.

use vstd::prelude::*;
use crate::text::text_eq;

verus! {

/// A detached window: which panel (by its panel name), from which group, and the
/// window's place and size.
pub struct DetachedSpec {
    pub group: String,
    pub panel: String,
    pub x: i32,
    pub y: i32,
    pub w: u32,
    pub h: u32,
}

pub type SpecView = (Seq<char>, Seq<char>, i32, i32, u32, u32);

pub open spec fn spec_view(s: DetachedSpec) -> SpecView {
    (s.group@, s.panel@, s.x, s.y, s.w, s.h)
}

pub open spec fn specs_view(v: Seq<DetachedSpec>) -> Seq<SpecView> {
    v.map_values(|s: DetachedSpec| spec_view(s))
}

impl DetachedSpec {
    /// A first detach: the window at (200, 160), 1100 × 520.
    pub fn new(group: String, panel: String) -> (s: DetachedSpec)
        ensures
            spec_view(s) == (group@, panel@, 200i32, 160i32, 1100u32, 520u32),
    {
        DetachedSpec { group, panel, x: 200, y: 160, w: 1100, h: 520 }
    }
}

/// The panels that can move into a window of their own.
pub open spec fn detachable(name: Seq<char>) -> bool {
    name == "Orders"@ || name == "Assets"@ || name == "Log"@ || name == "Report"@
}

pub fn supports_panel(name: &str) -> (r: bool)
    ensures
        r == detachable(name@),
{
    text_eq(name, "Orders") || text_eq(name, "Assets") || text_eq(name, "Log") || text_eq(name, "Report")
}

/// The localisation key of a panel's window title.
pub open spec fn title_key(name: Seq<char>) -> Seq<char> {
    if name == "Orders"@ {
        "dock.tab.orders"@
    } else if name == "Assets"@ {
        "dock.tab.assets"@
    } else if name == "Log"@ {
        "dock.tab.log"@
    } else if name == "Report"@ {
        "dock.tab.report"@
    } else {
        "dock.tab.generic"@
    }
}

pub fn panel_title_key(name: &str) -> (r: &'static str)
    ensures
        r@ == title_key(name@),
{
    if text_eq(name, "Orders") {
        "dock.tab.orders"
    } else if text_eq(name, "Assets") {
        "dock.tab.assets"
    } else if text_eq(name, "Log") {
        "dock.tab.log"
    } else if text_eq(name, "Report") {
        "dock.tab.report"
    } else {
        "dock.tab.generic"
    }
}

/// The first window of (`group`, `panel`), if any.
pub open spec fn first_of(s: Seq<SpecView>, group: Seq<char>, panel: Seq<char>) -> Option<int> {
    if exists|i: int| 0 <= i < s.len() && s[i].0 == group && #[trigger] s[i].1 == panel {
        Some(choose|i: int| 0 <= i < s.len() && s[i].0 == group && #[trigger] s[i].1 == panel
            && forall|k: int| 0 <= k < i ==> !(s[k].0 == group && s[k].1 == panel))
    } else {
        None
    }
}

/// The window of (`group`, `panel`) now stands at `geom`: its record follows when it
/// differs. Returns whether the records changed (they are then saved).
pub fn persist_geometry(specs: &mut Vec<DetachedSpec>, group: &str, panel: &str, geom: (i32, i32, u32, u32)) -> (dirty: bool)
    ensures
        match first_of(specs_view(old(specs)@), group@, panel@) {
            Some(i) => {
                let o = specs_view(old(specs)@)[i];
                &&& dirty == ((o.2, o.3, o.4, o.5) != geom)
                &&& specs_view(final(specs)@) == specs_view(old(specs)@).update(i, (o.0, o.1, geom.0, geom.1, geom.2, geom.3))
            },
            None => !dirty && specs_view(final(specs)@) == specs_view(old(specs)@),
        },
{
    let ghost sv = specs_view(specs@);
    let mut i: usize = 0;
    while i < specs.len()
        invariant
            i <= specs@.len(),
            sv == specs_view(specs@),
            forall|k: int| 0 <= k < i ==> !(sv[k].0 == group@ && sv[k].1 == panel@),
        ensures
            i <= specs@.len(),
            sv == specs_view(specs@),
            forall|k: int| 0 <= k < i ==> !(sv[k].0 == group@ && sv[k].1 == panel@),
            i < specs@.len() ==> sv[i as int].0 == group@ && sv[i as int].1 == panel@,
        decreases specs@.len() - i,
    {
        if text_eq(specs[i].group.as_str(), group) && text_eq(specs[i].panel.as_str(), panel) {
            break;
        }
        i = i + 1;
    }
    if i == specs.len() {
        proof {
            assert(!exists|c: int| 0 <= c < sv.len() && sv[c].0 == group@ && #[trigger] sv[c].1 == panel@);
        }
        return false;
    }
    proof {
        let c = choose|c: int| 0 <= c < sv.len() && sv[c].0 == group@ && #[trigger] sv[c].1 == panel@
            && forall|k: int| 0 <= k < c ==> !(sv[k].0 == group@ && sv[k].1 == panel@);
        assert(c == i) by {
            if c < i {
                assert(!(sv[c].0 == group@ && sv[c].1 == panel@));
            }
            if c > i {
                assert(!(sv[i as int].0 == group@ && sv[i as int].1 == panel@));
            }
        }
    }
    let s = &specs[i];
    if s.x == geom.0 && s.y == geom.1 && s.w == geom.2 && s.h == geom.3 {
        return false;
    }
    let updated = DetachedSpec { group: s.group.clone(), panel: s.panel.clone(), x: geom.0, y: geom.1, w: geom.2, h: geom.3 };
    specs.set(i, updated);
    proof {
        assert(specs_view(specs@) =~= sv.update(i as int, (sv[i as int].0, sv[i as int].1, geom.0, geom.1, geom.2, geom.3)));
    }
    true
}

} // verus!
