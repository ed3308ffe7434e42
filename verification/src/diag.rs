use vstd::prelude::*;

verus! {

/// Gate of the render-rate diagnostics: on when the environment asked for it at
/// start-up or when a run forced it on.
pub struct DiagState {
    pub forced: bool,
    pub env_on: bool,
}

pub open spec fn spec_enabled(s: DiagState) -> bool {
    s.forced || s.env_on
}

/// Whether the diagnostic counters are live.
pub fn is_enabled(s: &DiagState) -> (r: bool)
    ensures
        r == spec_enabled(*s),
{
    s.forced || s.env_on
}

/// Switch the diagnostics on for the rest of the run.
pub fn force_enable(s: &mut DiagState)
    ensures
        final(s).forced,
        final(s).env_on == old(s).env_on,
{
    s.forced = true;
}

/// Count one event on `c` when the diagnostics are live (the counter wraps).
pub fn bump(s: &DiagState, c: &mut u64)
    ensures
        *final(c) == if spec_enabled(*s) { (*old(c) + 1) % 0x1_0000_0000_0000_0000 } else { *old(c) as int },
{
    if is_enabled(s) {
        *c = c.wrapping_add(1);
    }
}

/// The counters of the diagnostics, by their labels, in the order of a sample line.
pub open spec fn counter_label_list() -> Seq<Seq<char>> {
    seq![
        "orders_render"@,
        "shell_render"@,
        "chart_render"@,
        "detached_render"@,
        "backend_notify"@,
        "chart_prepare"@,
        "chart_frame"@,
        "chart_frame_request"@,
        "chart_frame_skip_not_presentable"@,
        "chart_frame_skip_idle"@,
        "chart_gpu_prepare"@,
        "chart_present"@,
        "chart_cam_step"@,
        "bg_draw"@,
        "grid_draw"@,
        "cursor_draw"@,
        "base_bake"@,
        "base_blit"@,
        "combo_draw"@,
        "combo_bake"@,
        "orderbook_draw"@,
        "orderbook_bake"@,
        "userdata_draw"@,
        "orders_obs_fire"@,
        "orders_obs_notify"@,
        "shell_obs_fire"@,
        "shell_obs_notify"@,
        "chart_obs_fire"@,
        "chart_obs_notify"@,
        "chart_open_notify"@,
        "chart_ttl_notify"@,
        "chart_input_notify"@,
        "chart_canvas_notify"@,
        "chart_mouse_move"@,
        "chart_mouse_move_fast"@,
        "chart_mouse_move_entity"@,
        "chart_mouse_fast_stop"@,
        "chart_cursor_update"@,
        "firetest_mouse_sent"@,
        "firetest_mouse_post_fail"@,
    ]
}

/// The labels of the counters, in order.
pub fn counter_labels() -> (r: Vec<&'static str>)
    ensures
        r@.map_values(|s: &'static str| s@) == counter_label_list(),
{
    let mut v: Vec<&'static str> = Vec::new();
    v.push("orders_render");
    v.push("shell_render");
    v.push("chart_render");
    v.push("detached_render");
    v.push("backend_notify");
    v.push("chart_prepare");
    v.push("chart_frame");
    v.push("chart_frame_request");
    v.push("chart_frame_skip_not_presentable");
    v.push("chart_frame_skip_idle");
    v.push("chart_gpu_prepare");
    v.push("chart_present");
    v.push("chart_cam_step");
    v.push("bg_draw");
    v.push("grid_draw");
    v.push("cursor_draw");
    v.push("base_bake");
    v.push("base_blit");
    v.push("combo_draw");
    v.push("combo_bake");
    v.push("orderbook_draw");
    v.push("orderbook_bake");
    v.push("userdata_draw");
    v.push("orders_obs_fire");
    v.push("orders_obs_notify");
    v.push("shell_obs_fire");
    v.push("shell_obs_notify");
    v.push("chart_obs_fire");
    v.push("chart_obs_notify");
    v.push("chart_open_notify");
    v.push("chart_ttl_notify");
    v.push("chart_input_notify");
    v.push("chart_canvas_notify");
    v.push("chart_mouse_move");
    v.push("chart_mouse_move_fast");
    v.push("chart_mouse_move_entity");
    v.push("chart_mouse_fast_stop");
    v.push("chart_cursor_update");
    v.push("firetest_mouse_sent");
    v.push("firetest_mouse_post_fail");
    proof {
        assert(v@.map_values(|s: &'static str| s@) =~= counter_label_list());
    }
    v
}

/// The event counters of the diagnostics, one per measured place.
pub struct Counters {
    pub counts: Vec<u64>,
}

impl Counters {
    /// `n` counters at zero.
    pub fn new(n: usize) -> (c: Counters)
        ensures
            c.counts@ == Seq::new(n as nat, |i: int| 0u64),
    {
        let mut v: Vec<u64> = Vec::new();
        let mut i: usize = 0;
        while i < n
            invariant
                i <= n,
                v@ == Seq::new(i as nat, |k: int| 0u64),
            decreases n - i,
        {
            v.push(0);
            proof {
                assert(v@ =~= Seq::new((i + 1) as nat, |k: int| 0u64));
            }
            i = i + 1;
        }
        Counters { counts: v }
    }

    /// Count one event on counter `i` when the diagnostics are live.
    pub fn bump(&mut self, s: &DiagState, i: usize)
        requires
            i < old(self).counts@.len(),
        ensures
            spec_enabled(*s) ==> final(self).counts@ == old(self).counts@.update(i as int, ((old(self).counts@[i as int] + 1) % 0x1_0000_0000_0000_0000) as u64),
            !spec_enabled(*s) ==> final(self).counts@ == old(self).counts@,
    {
        let mut c = self.counts[i];
        bump(s, &mut c);
        self.counts.set(i, c);
    }

    /// The counts since the last sample, each counter back to zero; nothing while the
    /// diagnostics are off.
    pub fn snapshot_and_reset(&mut self, s: &DiagState) -> (r: Option<Vec<u64>>)
        ensures
            !spec_enabled(*s) ==> r is None && final(self).counts@ == old(self).counts@,
            spec_enabled(*s) ==> (r matches Some(v) && v@ == old(self).counts@)
                && final(self).counts@ == Seq::new(old(self).counts@.len(), |i: int| 0u64),
    {
        if !is_enabled(s) {
            return None;
        }
        let n = self.counts.len();
        let mut taken = Counters::new(n).counts;
        std::mem::swap(&mut taken, &mut self.counts);
        Some(taken)
    }
}

/// The GPU frame times of a sample: their sum in µs and their number.
pub struct GpuFrames {
    pub sum_us: u64,
    pub count: u64,
}

impl GpuFrames {
    pub fn new() -> (g: GpuFrames)
        ensures
            g.sum_us == 0 && g.count == 0,
    {
        GpuFrames { sum_us: 0, count: 0 }
    }

    /// Add one frame of `us` µs (at least 1) while the diagnostics are live; the sums wrap.
    pub fn record(&mut self, s: &DiagState, us: u64)
        ensures
            spec_enabled(*s) ==> final(self).sum_us == (old(self).sum_us + us) % 0x1_0000_0000_0000_0000
                && final(self).count == (old(self).count + 1) % 0x1_0000_0000_0000_0000,
            !spec_enabled(*s) ==> final(self).sum_us == old(self).sum_us && final(self).count == old(self).count,
    {
        if is_enabled(s) {
            self.sum_us = self.sum_us.wrapping_add(us);
            self.count = self.count.wrapping_add(1);
        }
    }

    /// The sum and number of frames since the last call; both back to zero.
    pub fn take(&mut self) -> (r: (u64, u64))
        ensures
            r == (old(self).sum_us, old(self).count),
            final(self).sum_us == 0 && final(self).count == 0,
    {
        let r = (self.sum_us, self.count);
        self.sum_us = 0;
        self.count = 0;
        r
    }
}

} // verus!
