use moon_ui_gpui::assets::{assets_sig, group_thousands, kind_label, money_text, pick_selected_core};
use moon_ui_gpui::detached::{panel_title_key, persist_geometry, supports_panel, DetachedSpec};
use moon_ui_gpui::firetest::{
    market_from, parse_u64, script_from_args, storm_ms_from, text_labels_from, Action, ArgError,
    FailReason, Firetest, FiretestConfig, Phase, Script, WaitReason,
};
use moon_ui_gpui::gate::{NotifyGate, RenderGate};
use moon_ui_gpui::input::{Btn, ButtonState};
use moon_ui_gpui::settings::{adjust_retention, decimal_text, delete_server, new_server, next_server_id};
use moon_ui_gpui::shell::{
    cancel_buy_uids, clamp_index, find_open_candidate, group_cores, groups, session_in_group,
    size_slot, OrderFlags, ServerEntry, SessionEntry, TargetBook, WindowBook,
};
use moon_ui_gpui::text::{contains, text_eq, text_less, to_lower, trim};
use moon_ui_gpui::toolbar::TradeMetric;
use moon_ui_gpui::input::{gesture_matches, KeyModifiers, MouseGestureBinding, TradeMouseButton};
use moon_ui_gpui::icons::icon_ids;
use moon_ui_gpui::diag::counter_labels;
use moon_ui_gpui::shell::{debug_chart_target, DebugCore};
use moon_ui_gpui::log_view::scroll_after_filter;
use moon_ui_gpui::report::generation_changed;

fn args(v: &[&str]) -> Vec<String> {
    v.iter().map(|s| s.to_string()).collect()
}

#[test]
fn text_helpers() {
    assert_eq!(to_lower("AbC"), "abc");
    assert_eq!(trim("  x y \n"), "x y");
    assert!(contains("hello world", "o w"));
    assert!(!contains("hello", "world"));
    assert!(contains("abc", ""));
    assert!(text_less("BTC", "ETH"));
    assert!(!text_less("ETH", "BTC"));
    assert!(!text_less("A", "A"));
    assert!(text_eq("A", "A"));
    assert!(!text_eq("A", "a"));
}

#[test]
fn firetest_args() {
    assert!(matches!(script_from_args(&args(&["app"])), Ok(None)));
    assert!(matches!(script_from_args(&args(&["app", "--debug-script", "chart-smoke"])), Ok(Some(Script::ChartSmoke))));
    assert!(matches!(script_from_args(&args(&["app", "--debug-script"])), Err(ArgError::MissingScriptName)));
    match script_from_args(&args(&["app", "--debug-script", "nope"])) {
        Err(ArgError::UnknownScript(n)) => assert_eq!(n, "nope"),
        _ => panic!("expected an unknown script"),
    }
    assert!(matches!(
        script_from_args(&args(&["--debug-script", "chart-smoke", "--debug-script", "x"])),
        Err(ArgError::UnknownScript(_))
    ));
}

#[test]
fn firetest_numbers() {
    assert_eq!(parse_u64("1500"), Some(1500));
    assert_eq!(parse_u64("+7"), Some(7));
    assert_eq!(parse_u64(""), None);
    assert_eq!(parse_u64("+"), None);
    assert_eq!(parse_u64("-1"), None);
    assert_eq!(parse_u64("12a"), None);
    assert_eq!(parse_u64("18446744073709551615"), Some(u64::MAX));
    assert_eq!(parse_u64("18446744073709551616"), None);
    assert_eq!(storm_ms_from(Some("2500")), 2500);
    assert_eq!(storm_ms_from(Some("999")), 5000);
    assert_eq!(storm_ms_from(Some("abc")), 5000);
    assert_eq!(storm_ms_from(None), 5000);
    assert_eq!(text_labels_from(Some("12")), 12);
    assert_eq!(text_labels_from(Some("x")), 0);
    assert_eq!(market_from(Some(" ETHUSDT ".to_string())), " ETHUSDT ");
    assert_eq!(market_from(Some("   ".to_string())), "BTCUSDT");
    assert_eq!(market_from(None), "BTCUSDT");
}

fn cfg(labels: usize) -> FiretestConfig {
    FiretestConfig { script: Script::ChartSmoke, market: "BTCUSDT".into(), storm_ms: 5000, text_labels: labels }
}

#[test]
fn firetest_runs_through_phases() {
    let c = cfg(0);
    let mut f = Firetest::new(0);
    assert_eq!(f.tick(&c, 500, false).action, Action::Nothing);
    assert_eq!(f.tick(&c, 1000, false).action, Action::Enter(Phase::WaitOpen));
    assert_eq!(f.tick(&c, 1100, false).action, Action::TryOpen);
    assert_eq!(f.opened(true, 1100), Action::Enter(Phase::WaitProbe));
    assert!(f.observe_probe());
    assert_eq!(f.tick(&c, 1200, false).action, Action::TextDisabled);
    assert_eq!(f.phase, Phase::Baseline);
    assert!(!f.should_record(1300));
    assert!(f.should_record(2800));
    let out = f.tick(&c, 1300, false);
    assert_eq!(out.pressure, Some(true));
    assert_eq!(out.action, Action::Nothing);
    assert_eq!(f.tick(&c, 6200, false).action, Action::StartStorm);
    assert_eq!(f.storm_started(true, 6200), Action::Enter(Phase::Storm));
    assert_eq!(f.tick(&c, 7000, true).action, Action::EndStorm);
    assert_eq!(f.phase, Phase::Cooldown);
    let out = f.tick(&c, 7100, false);
    assert_eq!(out.pressure, Some(false));
    assert_eq!(f.tick(&c, 8200, false).action, Action::Evaluate);
    assert_eq!(f.phase, Phase::Done);
    assert_eq!(f.tick(&c, 9000, false).action, Action::Nothing);
    assert!(!f.should_record(9000));
}

#[test]
fn firetest_failures() {
    let c = cfg(3);
    let mut f = Firetest::new(0);
    f.tick(&c, 1000, false);
    assert_eq!(f.opened(false, 2000), Action::Waiting(WaitReason::OpenTarget));
    assert_eq!(f.opened(false, 2500), Action::Nothing);
    assert_eq!(f.opened(false, 11_000), Action::Fail(FailReason::NoOpenTarget));
    assert_eq!(f.phase, Phase::Done);

    let mut g = Firetest::new(0);
    g.tick(&c, 1000, false);
    g.opened(true, 1000);
    assert!(g.observe_probe());
    assert_eq!(g.tick(&c, 1100, false).action, Action::ApplyText(3));
    assert_eq!(g.text_applied(&c, 0, 1100), Action::Fail(FailReason::TextOverlayMissing));

    let mut h = Firetest::new(0);
    h.tick(&c, 1000, false);
    h.opened(true, 1000);
    assert_eq!(h.tick(&c, 12_000, false).action, Action::Fail(FailReason::NoProbe));
    assert!(!h.observe_probe());
}

#[test]
fn input_buttons() {
    let mut s = ButtonState::new();
    s.hovered_pane = Some(2);
    assert!(!s.press(Btn::Left, false));
    assert!(!s.lmb_down);
    assert!(s.press(Btn::Left, true));
    assert_eq!(s.drag_target(), Some(2));
    assert!(!s.left_drag(false));
    assert!(s.left_drag(true));
    assert_eq!(s.release(Btn::Left), Some(Some(2)));
    assert_eq!(s.drag_pane, None);
    assert!(s.press(Btn::Right, true));
    assert!(!s.right_drag(false));
    assert!(s.right_drag(true));
    assert!(s.rmb_moved());
    s.press(Btn::Left, true);
    assert_eq!(s.release(Btn::Left), None);
    assert_eq!(s.drag_pane, Some(2));
    s.sync_pressed(false, false);
    assert!(!s.rmb_down && s.drag_pane.is_none());
}

#[test]
fn gates() {
    let mut g = RenderGate::new();
    assert!(g.should_notify(1, 1000));
    assert!(!g.should_notify(1, 1100));
    assert!(!g.should_notify(2, 1100));
    assert!(g.should_notify(2, 1300));
    assert!(g.should_notify(2, 2000));
    let mut n = NotifyGate::new();
    assert!(!n.flush(0));
    assert!(n.mark_dirty(100));
    assert!(!n.mark_dirty(200));
    assert!(n.dirty);
    assert!(n.flush(350));
    assert!(!n.dirty);
}

fn server(id: u64, group: &str, market: &str, active: bool, group_active: bool) -> ServerEntry {
    ServerEntry { id, group: group.into(), name: format!("s{id}"), market: market.into(), active, show_window: true, group_active }
}

#[test]
fn shell_groups() {
    let s = vec![server(1, "a", "", true, true), server(2, "b", "", false, true), server(3, "a", "", true, true), server(4, "c", "", true, false), server(5, "d", "", true, true)];
    assert_eq!(groups(&s), vec!["a".to_string(), "d".to_string()]);
    assert_eq!(groups(&vec![server(1, "a", "", false, true)]), vec!["default".to_string()]);
}

#[test]
fn shell_open_candidate() {
    let servers = vec![server(1, "a", "  ", true, true), server(2, "a", "ETH", true, true), server(3, "b", "X", true, true)];
    let windows = vec!["a".to_string()];
    let sessions = vec![SessionEntry { id: 1, group: "a".into(), name: "n1".into() }, SessionEntry { id: 2, group: "a".into(), name: "n2".into() }];
    assert_eq!(find_open_candidate(&servers, &windows, &sessions, false), Some(0));
    assert_eq!(find_open_candidate(&servers, &windows, &sessions, true), Some(1));
    assert_eq!(find_open_candidate(&servers, &vec![], &sessions, false), None);
    assert!(session_in_group(&sessions, 2, "a"));
    assert!(!session_in_group(&sessions, 2, "b"));
    assert_eq!(group_cores(&sessions, Some("a")).len(), 2);
    assert_eq!(group_cores(&sessions, Some("z")).len(), 0);
    assert_eq!(group_cores(&sessions, None)[1], (2, "n2".to_string()));
}

#[test]
fn shell_cancel_buys() {
    let o = |uid, market: &str, done, short, exec, pending| OrderFlags { uid, market: market.into(), job_is_done: done, is_short: short, executed: exec, pending };
    let orders = vec![
        o(1, "BTC", false, false, false, false),
        o(2, "BTC", false, false, true, false),
        o(3, "BTC", false, true, false, true),
        o(4, "BTC", true, false, false, false),
        o(5, "ETH", false, false, false, false),
        o(6, "BTC", false, true, false, false),
    ];
    assert_eq!(cancel_buy_uids(&orders, "BTC"), vec![1, 3]);
    assert!(cancel_buy_uids(&orders, "XRP").is_empty());
}

#[test]
fn shell_indices() {
    assert_eq!(size_slot(None, 6), 2);
    assert_eq!(size_slot(Some(9), 6), 5);
    assert_eq!(size_slot(None, 0), 0);
    assert_eq!(clamp_index(3, 6), 3);
    assert_eq!(clamp_index(8, 6), 5);
}

#[test]
fn shell_trade_core_override() {
    let sessions = vec![SessionEntry { id: 1, group: "g".into(), name: "a".into() }, SessionEntry { id: 2, group: "g".into(), name: "b".into() }];
    let mut b = TargetBook::new();
    assert_eq!(b.active_trade_core("g", &sessions), None);
    b.set_main_chart_target("g", Some((1, "BTC".into())));
    assert_eq!(b.active_trade_core("g", &sessions), Some(1));
    b.set_trade_core_override("g", 2);
    assert_eq!(b.active_trade_core("g", &sessions), Some(2));
    b.set_main_chart_target("g", Some((1, "ETH".into())));
    assert_eq!(b.active_trade_core("g", &sessions), Some(2));
    b.set_main_chart_target("g", Some((2, "ETH".into())));
    b.set_main_chart_target("g", Some((1, "SOL".into())));
    assert_eq!(b.active_trade_core("g", &sessions), Some(1));
    assert_eq!(b.main_chart_target("g"), Some((1, "SOL".to_string())));
    b.set_trade_core_override("g", 9);
    assert_eq!(b.active_trade_core("g", &sessions), Some(1));
    b.set_main_chart_target("g", None);
    assert_eq!(b.main_chart_target("g"), None);
    assert_eq!(b.main_chart_target("other"), None);
}

#[test]
fn shell_window_closing() {
    let mut w = WindowBook {
        group_windows: vec![("a".into(), 1), ("b".into(), 2)],
        detached_charts: vec![("a".into(), 10), ("b".into(), 20), ("a".into(), 11)],
    };
    assert_eq!(w.window_closed(20), (vec![], false));
    assert_eq!(w.detached_charts.len(), 2);
    assert_eq!(w.window_closed(1), (vec![10, 11], false));
    assert!(w.detached_charts.is_empty());
    assert_eq!(w.window_closed(2), (vec![], true));
}

#[test]
fn settings_edits() {
    assert_eq!(adjust_retention(30, 5), 35);
    assert_eq!(adjust_retention(2, -5), 0);
    assert_eq!(adjust_retention(364, 10), 365);
    assert_eq!(adjust_retention(u32::MAX, 0), 0);
    assert_eq!(decimal_text(0), "0");
    assert_eq!(decimal_text(1207), "1207");
    assert_eq!(parse_u64(&decimal_text(u64::MAX)), Some(u64::MAX));
    assert_eq!(next_server_id(&vec![]), 1);
    assert_eq!(next_server_id(&vec![4, 9, 2]), 10);
    let s = new_server(&vec![1, 2]);
    assert_eq!((s.id, s.name.as_str(), s.group.as_str(), s.market.as_str()), (3, "server 3", "default", "BTCUSDT"));
    let mut v = vec![1, 2, 3];
    delete_server(&mut v, 1);
    delete_server(&mut v, 7);
    assert_eq!(v, vec![1, 3]);
}

#[test]
fn assets_texts() {
    assert_eq!(group_thousands("1111"), "1 111");
    assert_eq!(group_thousands("123"), "123");
    assert_eq!(group_thousands("1234567"), "1 234 567");
    assert_eq!(group_thousands("1234567").replace(' ', ""), "1234567");
    assert_eq!(money_text(false, "1111.1"), "1 111,1$");
    assert_eq!(money_text(true, "5.0"), "-5,0$");
    assert_eq!(money_text(false, "42"), "42,0$");
    assert_eq!(kind_label(2, "USDT"), "fut·USDT");
    assert_eq!(kind_label(7, "BTC"), "?·BTC");
    assert_eq!(assets_sig(&vec![(1, 2)]), 33);
    let cores = vec![(5u64, "a".to_string()), (6u64, "b".to_string())];
    assert_eq!(pick_selected_core(Some(6), &cores), (Some(6), false));
    assert_eq!(pick_selected_core(Some(9), &cores), (Some(5), true));
    assert_eq!(pick_selected_core(None, &vec![]), (None, true));
}

#[test]
fn detached_specs() {
    let s = DetachedSpec::new("g".into(), "Log".into());
    assert_eq!((s.x, s.y, s.w, s.h), (200, 160, 1100, 520));
    assert!(supports_panel("Report"));
    assert!(!supports_panel("Chart"));
    assert_eq!(panel_title_key("Orders"), "dock.tab.orders");
    assert_eq!(panel_title_key("X"), "dock.tab.generic");
    let mut v = vec![s, DetachedSpec::new("h".into(), "Log".into())];
    assert!(!persist_geometry(&mut v, "g", "Log", (200, 160, 1100, 520)));
    assert!(persist_geometry(&mut v, "h", "Log", (1, 2, 3, 4)));
    assert_eq!((v[1].x, v[1].w), (1, 3));
    assert!(!persist_geometry(&mut v, "z", "Log", (1, 2, 3, 4)));
}

#[test]
fn toolbar_metrics() {
    assert_eq!(TradeMetric::Tp.id(), "toolbar-tp");
    assert_eq!(TradeMetric::Sl.label(), "SL");
    assert_eq!(TradeMetric::Lev.unit(), "×");
    assert_eq!(TradeMetric::Tp.unit(), "%");
    assert_eq!(TradeMetric::Lev.title_key(), "toolbar.lev_title");
}

#[test]
fn shell_debug_chart_target() {
    let servers = vec![(1u64, " ETHUSDT ".to_string()), (2u64, "".to_string())];
    let ready = vec![
        DebugCore { id: 1, ready: false, order_markets: vec![] },
        DebugCore { id: 2, ready: true, order_markets: vec![] },
    ];
    assert_eq!(debug_chart_target(&servers, &ready, None), Some((2, "BTCUSDT".to_string())));
    assert_eq!(debug_chart_target(&servers, &ready, Some(" SOL ")), Some((2, "SOL".to_string())));
    let both = vec![DebugCore { id: 1, ready: true, order_markets: vec![] }];
    assert_eq!(debug_chart_target(&servers, &both, Some("  ")), Some((1, "ETHUSDT".to_string())));
    let none_ready = vec![
        DebugCore { id: 7, ready: false, order_markets: vec![" ".into()] },
        DebugCore { id: 8, ready: false, order_markets: vec!["".into(), "XRP".into()] },
    ];
    assert_eq!(debug_chart_target(&servers, &none_ready, None), Some((8, "XRP".to_string())));
    let bare = vec![DebugCore { id: 9, ready: false, order_markets: vec![] }];
    assert_eq!(debug_chart_target(&servers, &bare, None), Some((9, "BTCUSDT".to_string())));
    assert_eq!(debug_chart_target(&servers, &vec![], None), None);
}

#[test]
fn refresh_decisions() {
    assert_eq!(scroll_after_filter(3, 5), Some(4));
    assert_eq!(scroll_after_filter(5, 5), None);
    assert_eq!(scroll_after_filter(5, 0), None);
    let mut last = 4;
    assert!(!generation_changed(&mut last, 4));
    assert!(generation_changed(&mut last, 5));
    assert_eq!(last, 5);
}

#[test]
fn input_gestures() {
    let none = KeyModifiers { control: false, alt: false, shift: false, platform: false, function: false };
    let ctrl = KeyModifiers { control: true, ..none };
    let cmd = KeyModifiers { platform: true, ..none };
    assert!(gesture_matches(MouseGestureBinding::LeftDouble, TradeMouseButton::Left, none, 2));
    assert!(!gesture_matches(MouseGestureBinding::LeftDouble, TradeMouseButton::Left, none, 1));
    assert!(!gesture_matches(MouseGestureBinding::LeftDouble, TradeMouseButton::Left, cmd, 2));
    assert!(gesture_matches(MouseGestureBinding::LeftCtrl, TradeMouseButton::Left, ctrl, 1));
    assert!(!gesture_matches(MouseGestureBinding::LeftCtrl, TradeMouseButton::Right, ctrl, 1));
    assert!(gesture_matches(MouseGestureBinding::Middle, TradeMouseButton::Middle, none, 1));
    assert!(gesture_matches(MouseGestureBinding::RightDouble, TradeMouseButton::Right, none, 3));
    assert!(gesture_matches(MouseGestureBinding::LeftCtrlDouble, TradeMouseButton::Left, ctrl, 2));
    assert!(!gesture_matches(MouseGestureBinding::LeftCtrlDouble, TradeMouseButton::Left, ctrl, 1));
    assert!(!gesture_matches(MouseGestureBinding::Unbound, TradeMouseButton::Left, none, 2));
    assert!(cmd.modified());
    assert!(!none.modified());
}

#[test]
fn icons_from_files() {
    let f = |stem: &str, ext: &str| (stem.to_string(), ext.to_string());
    let files = vec![f("12", "png"), f("3", "png"), f("12", "png"), f("7", "jpg"), f("abc", "png"), f("+5", "png"), f("4294967296", "png"), f("4294967295", "png"), f("9", "PNG")];
    assert_eq!(icon_ids(&files), vec![3, 5, 12, 4294967295]);
    assert!(icon_ids(&vec![]).is_empty());
}

#[test]
fn diag_label_list() {
    let l = counter_labels();
    assert_eq!(l.len(), 40);
    assert_eq!(l[0], "orders_render");
    assert_eq!(l[39], "firetest_mouse_post_fail");
}

#[test]
fn trim_white_space() {
    assert_eq!(trim("\u{3000}\tx\u{a0}"), "x");
    assert_eq!(trim("   "), "");
    assert_eq!(to_lower("Cur.P"), "cur.p");
}

#[test]
fn search_and_trim_on_wide_characters() {
    assert!(contains("价格 ⏎ β", "⏎ β"));
    assert!(!contains("ab", "abc"));
    assert!(contains("", ""));
    assert!(!contains("aab", "abb"));
    assert_eq!(trim("\u{2003}价格\u{205f}"), "价格");
    assert_eq!(trim(""), "");
}
