use moon_ui_gpui::chart_refs::ChartMarketRefs;
use moon_ui_gpui::diag::{bump, force_enable, is_enabled, Counters, DiagState, GpuFrames};
use moon_ui_gpui::keys::{clone_key, key_compare, MarketKey};
use moon_ui_gpui::markets::MarketRefs;
use moon_ui_gpui::refs::{keys_equal, RefTable};

fn key(core: u64, market: &str) -> MarketKey {
    MarketKey { core, market: market.to_string() }
}

fn names(v: &Vec<MarketKey>) -> Vec<(u64, String)> {
    v.iter().map(|k| (k.core, k.market.clone())).collect()
}

#[test]
fn diag_is_off_until_forced() {
    let mut s = DiagState { forced: false, env_on: false };
    assert!(!is_enabled(&s));
    force_enable(&mut s);
    assert!(is_enabled(&s));
    assert!(is_enabled(&DiagState { forced: false, env_on: true }));
}

#[test]
fn diag_bump_counts_only_when_on() {
    let off = DiagState { forced: false, env_on: false };
    let on = DiagState { forced: true, env_on: false };
    let mut c: u64 = 5;
    bump(&off, &mut c);
    assert_eq!(c, 5);
    bump(&on, &mut c);
    assert_eq!(c, 6);
    let mut top = u64::MAX;
    bump(&on, &mut top);
    assert_eq!(top, 0);
}

#[test]
fn diag_counters_snapshot_resets() {
    let on = DiagState { forced: true, env_on: false };
    let off = DiagState { forced: false, env_on: false };
    let mut c = Counters::new(3);
    c.bump(&on, 1);
    c.bump(&on, 1);
    c.bump(&on, 2);
    c.bump(&off, 0);
    assert_eq!(c.snapshot_and_reset(&off), None);
    assert_eq!(c.snapshot_and_reset(&on), Some(vec![0, 2, 1]));
    assert_eq!(c.counts, vec![0, 0, 0]);
}

#[test]
fn diag_gpu_frames_take() {
    let on = DiagState { forced: true, env_on: false };
    let mut g = GpuFrames::new();
    g.record(&on, 1500);
    g.record(&on, 2500);
    assert_eq!(g.take(), (4000, 2));
    assert_eq!(g.take(), (0, 0));
}

#[test]
fn keys_order_by_core_then_bytes() {
    assert_eq!(key_compare(&key(1, "ZZZ"), &key(2, "AAA")), -1);
    assert_eq!(key_compare(&key(2, "ETHUSDT"), &key(2, "BTCUSDT")), 1);
    assert_eq!(key_compare(&key(2, "BTC"), &key(2, "BTCUSDT")), -1);
    assert_eq!(key_compare(&key(3, "X"), &clone_key(&key(3, "X"))), 0);
}

#[test]
fn ref_table_counts_and_sorts() {
    let mut t = RefTable::new();
    t.retain(&key(2, "ETH"));
    t.retain(&key(1, "BTC"));
    t.retain(&key(2, "ETH"));
    assert_eq!(t.len(), 2);
    assert_eq!(t.count(&key(2, "ETH")), 2);
    assert_eq!(t.count(&key(9, "NONE")), 0);
    assert_eq!(names(&t.sorted_keys()), vec![(1, "BTC".to_string()), (2, "ETH".to_string())]);
    t.release(&key(2, "ETH"));
    assert_eq!(t.count(&key(2, "ETH")), 1);
    t.release(&key(2, "ETH"));
    assert_eq!(t.len(), 1);
    t.clear();
    assert_eq!(t.len(), 0);
}

#[test]
fn keys_equal_compares_lists() {
    assert!(keys_equal(&vec![key(1, "A")], &vec![key(1, "A")]));
    assert!(!keys_equal(&vec![key(1, "A")], &vec![key(1, "B")]));
    assert!(!keys_equal(&vec![key(1, "A")], &vec![]));
}

#[test]
fn market_release_undoes_retain() {
    let mut m = MarketRefs::new(50_000);
    m.retain_chart_market(7, "BTCUSDT");
    assert_eq!(names(m.desired()), vec![(7, "BTCUSDT".to_string())]);
    m.release_chart_market(7, "BTCUSDT");
    assert!(m.desired().is_empty());
}

#[test]
fn market_wanted_while_referenced() {
    let mut m = MarketRefs::new(0);
    m.retain_chart_market(1, "ETH");
    m.retain_chart_market(1, "ETH");
    m.release_chart_market(1, "ETH");
    assert_eq!(names(m.desired()), vec![(1, "ETH".to_string())]);
    m.retain_chart_orderbook(1, "ETH");
    assert_eq!(names(m.desired_orderbook()), vec![(1, "ETH".to_string())]);
    m.release_chart_orderbook(1, "ETH");
    assert!(m.desired_orderbook().is_empty());
}

#[test]
fn market_sync_sends_when_dirty_or_due() {
    let mut m = MarketRefs::new(50_000);
    assert!(m.desired_open_dirty());
    let first = m.sync_open_markets_if_due(50_000);
    assert!(first.is_some());
    assert!(m.sync_open_markets_if_due(50_500).is_none());
    assert!(m.sync_open_markets_if_due(51_000).is_some());
    m.retain_chart_market(3, "SOL");
    let sent = m.sync_open_markets_if_due(51_100).unwrap();
    assert_eq!(names(&sent.markets), vec![(3, "SOL".to_string())]);
    assert!(sent.orderbook.is_empty());
}

#[test]
fn market_reset_bumps_epoch() {
    let mut m = MarketRefs::new(0);
    m.retain_chart_market(1, "A");
    let e = m.chart_market_refs_epoch();
    m.reset_chart_market_refs();
    assert_eq!(m.chart_market_refs_epoch(), e + 1);
    assert!(m.desired().is_empty());
    assert!(m.desired_open_dirty());
}

#[test]
fn chart_panel_second_registration_is_free() {
    let mut m = MarketRefs::new(0);
    let mut p = ChartMarketRefs::new(&m);
    p.retain_market_ref(1, "BTC", &mut m);
    p.retain_market_ref(1, "BTC", &mut m);
    let mut q = ChartMarketRefs::new(&m);
    q.retain_market_ref(1, "BTC", &mut m);
    p.release_market_ref(1, "BTC", &mut m);
    assert_eq!(names(m.desired()), vec![(1, "BTC".to_string())]);
    q.release_market_ref(1, "BTC", &mut m);
    assert!(m.desired().is_empty());
}

#[test]
fn chart_panel_orderbook_follows_toggle() {
    let mut m = MarketRefs::new(0);
    let mut p = ChartMarketRefs::new_main(Some((4, "DOGE")), &mut m);
    assert!(p.orderbook_enabled());
    assert_eq!(names(m.desired_orderbook()), vec![(4, "DOGE".to_string())]);
    assert!(p.set_orderbook_enabled(false, &mut m));
    assert!(m.desired_orderbook().is_empty());
    assert!(!p.set_orderbook_enabled(false, &mut m));
    assert!(p.set_orderbook_enabled(true, &mut m));
    assert_eq!(names(m.desired_orderbook()), vec![(4, "DOGE".to_string())]);
}

#[test]
fn chart_panel_release_except_keeps_one() {
    let mut m = MarketRefs::new(0);
    let mut p = ChartMarketRefs::new(&m);
    p.retain_market_ref(1, "A", &mut m);
    p.retain_market_ref(2, "B", &mut m);
    p.release_market_refs_except(Some((2, "B")), &mut m);
    assert_eq!(names(m.desired()), vec![(2, "B".to_string())]);
    p.release_all_market_refs(&mut m);
    assert!(m.desired().is_empty());
}

#[test]
fn chart_panel_after_reset_takes_fresh_refs() {
    let mut m = MarketRefs::new(0);
    let mut p = ChartMarketRefs::new(&m);
    p.retain_market_ref(1, "A", &mut m);
    m.reset_chart_market_refs();
    p.sync_market_ref_epoch(&m);
    p.retain_market_ref(1, "A", &mut m);
    assert_eq!(names(m.desired()), vec![(1, "A".to_string())]);
}

#[test]
fn chart_panel_dirty_only_when_lists_change() {
    let mut m = MarketRefs::new(0);
    let mut p = ChartMarketRefs::new(&m);
    p.retain_market_ref(1, "BTC", &mut m);
    assert!(m.desired_open_dirty());
    assert!(m.sync_open_markets_if_due(0).is_some());
    assert!(!m.desired_open_dirty());
    let mut q = ChartMarketRefs::new(&m);
    q.retain_market_ref(1, "BTC", &mut m);
    assert!(!m.desired_open_dirty());
    q.release_market_ref(1, "BTC", &mut m);
    assert!(!m.desired_open_dirty());
    q.release_all_market_refs(&mut m);
    assert!(!m.desired_open_dirty());
    p.release_market_refs_except(Some((1, "BTC")), &mut m);
    assert!(!m.desired_open_dirty());
    p.retain_market_ref(2, "ETH", &mut m);
    assert!(m.desired_open_dirty());
    assert!(m.sync_open_markets_if_due(100).is_some());
    p.release_market_refs_except(Some((2, "ETH")), &mut m);
    assert!(m.desired_open_dirty());
    assert_eq!(names(m.desired()), vec![(2, "ETH".to_string())]);
}
