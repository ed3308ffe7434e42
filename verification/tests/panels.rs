use moon_ui_gpui::detects::{CoreDetects, DetectRibbon, DetectRow, MAX_DETECT_BTNS};
use moon_ui_gpui::log_view::{
    aggregate, build_sources, file_label, filter_lines, flatten, level_tag, log_row, log_sig,
    time_part, merge_core_logs, CoreLog, CoreLogStore, LogFile, LogSourceItem, LogLevel, LogLine, LogSource, LogViewState, ServerLog, VIEW_LIMIT,
};
use moon_ui_gpui::orders::{
    build_entries, count_orders, entry_shown, flag_cell, is_buy, is_sell, numeric_column,
    order_columns, orders_sig, primary_key, side_cell, OrderEntry, OrderKind, OrderRow,
    OrdersSource, OrdersViewState, PrimarySort, Tone,
};
use moon_ui_gpui::shell::SessionEntry;
use moon_ui_gpui::report::{
    as_i64, header_for, initial_visible, is_numeric_report_column, report_data_cell,
    report_data_row, report_filter, toggle_column, total_color, visible_indices, visible_names,
    width_for, CellText, CellValue, ReportChoices, ReportColors, SideFilter,
};

fn row(uid: u64, market: &str, is_short: bool, emulator: bool, executed: bool) -> OrderRow {
    OrderRow { uid, market: market.to_string(), is_short, emulator, executed, slot: uid as usize }
}

fn entry(core: u64, uid: u64, is_short: bool, emulator: bool, executed: bool) -> OrderEntry {
    OrderEntry { core, core_name: format!("core{core}"), row: row(uid, "BTCUSDT", is_short, emulator, executed) }
}

fn uids(v: &Vec<OrderEntry>) -> Vec<u64> {
    v.iter().map(|e| e.row.uid).collect()
}

#[test]
fn orders_side_classification() {
    assert!(is_sell(&row(1, "X", false, false, true)));
    assert!(!is_sell(&row(1, "X", true, false, true)));
    assert!(is_buy(&row(1, "X", false, false, false)));
    assert!(!is_buy(&row(1, "X", true, false, false)));
    assert_eq!(primary_key(PrimarySort::SellFirst, &row(1, "X", false, false, true)), 0);
    assert_eq!(primary_key(PrimarySort::SellFirst, &row(1, "X", false, false, false)), 1);
    assert_eq!(primary_key(PrimarySort::BuyFirst, &row(1, "X", false, false, false)), 0);
    assert_eq!(primary_key(PrimarySort::Creation, &row(1, "X", true, true, true)), 0);
}

#[test]
fn orders_codes_round_trip() {
    for p in [PrimarySort::SellFirst, PrimarySort::BuyFirst, PrimarySort::Creation] {
        assert_eq!(PrimarySort::from_u8(p.to_u8()), p);
    }
    for k in [OrderKind::All, OrderKind::Real, OrderKind::Emu] {
        assert_eq!(OrderKind::from_u8(k.to_u8()), k);
    }
    assert_eq!(PrimarySort::Creation.to_u8(), 0);
    assert_eq!(PrimarySort::from_u8(9), PrimarySort::Creation);
    assert_eq!(OrderKind::from_u8(7), OrderKind::All);
}

#[test]
fn orders_view_from_saved() {
    let v = OrdersViewState::from_saved(Some(257), Some(2), Some(false), None);
    assert_eq!(v.primary, PrimarySort::SellFirst);
    assert_eq!(v.kind, OrderKind::Emu);
    assert!(!v.newest_first);
    assert!(!v.only_current_market);
    assert_eq!(v.source, OrdersSource::All);
    let d = OrdersViewState::from_saved(None, None, None, None);
    assert_eq!(d, OrdersViewState::new());
    assert!(d.newest_first);
}

#[test]
fn orders_view_set_reports_change() {
    let mut v = OrdersViewState::new();
    let mut next = v;
    assert!(!v.set(next));
    next.newest_first = false;
    assert!(v.set(next));
    assert!(!v.newest_first);
}

#[test]
fn orders_sorted_newest_first_by_default() {
    let entries = vec![entry(1, 5, false, false, false), entry(1, 9, false, false, false), entry(2, 7, false, false, false)];
    let r = build_entries(&entries, &OrdersViewState::new(), &None);
    assert_eq!(uids(&r), vec![9, 7, 5]);
    let mut old_first = OrdersViewState::new();
    old_first.newest_first = false;
    assert_eq!(uids(&build_entries(&entries, &old_first, &None)), vec![5, 7, 9]);
}

#[test]
fn orders_sell_first_groups_then_uid() {
    let entries = vec![
        entry(1, 1, false, false, false),
        entry(1, 2, false, false, true),
        entry(1, 3, true, false, true),
        entry(1, 4, false, false, true),
    ];
    let mut v = OrdersViewState::new();
    v.primary = PrimarySort::SellFirst;
    assert_eq!(uids(&build_entries(&entries, &v, &None)), vec![4, 2, 3, 1]);
    v.primary = PrimarySort::BuyFirst;
    assert_eq!(uids(&build_entries(&entries, &v, &None)), vec![1, 4, 3, 2]);
}

#[test]
fn orders_equal_keys_keep_order() {
    let entries = vec![entry(1, 5, false, false, false), entry(2, 5, false, false, false)];
    let r = build_entries(&entries, &OrdersViewState::new(), &None);
    assert_eq!(r.iter().map(|e| e.core).collect::<Vec<_>>(), vec![1, 2]);
}

#[test]
fn orders_filters_source_kind_current() {
    let entries = vec![entry(1, 1, false, true, false), entry(2, 2, false, false, false), entry(2, 3, false, true, false)];
    let mut v = OrdersViewState::new();
    v.source = OrdersSource::Core(2);
    assert_eq!(uids(&build_entries(&entries, &v, &None)), vec![3, 2]);
    v.kind = OrderKind::Emu;
    assert_eq!(uids(&build_entries(&entries, &v, &None)), vec![3]);
    let mut c = OrdersViewState::new();
    c.only_current_market = true;
    let current = Some((1u64, "BTCUSDT".to_string()));
    assert_eq!(uids(&build_entries(&entries, &c, &current)), vec![1]);
    assert!(entry_shown(&c, &None, &entries[2]));
    let other = Some((1u64, "ETHUSDT".to_string()));
    assert!(build_entries(&entries, &c, &other).is_empty());
}

#[test]
fn orders_side_and_flag_cells() {
    assert_eq!(side_cell(&row(1, "X", false, false, true)), ("SELL".to_string(), Tone::Info));
    assert_eq!(side_cell(&row(1, "X", true, true, false)), ("SHORT(E)".to_string(), Tone::Danger));
    assert_eq!(side_cell(&row(1, "X", false, true, false)), ("BUY(E)".to_string(), Tone::Positive));
    assert_eq!(flag_cell(true), ("ON".to_string(), Tone::Positive));
    assert_eq!(flag_cell(false), ("OFF".to_string(), Tone::Muted));
}

#[test]
fn orders_columns_in_order() {
    let cols = order_columns();
    let keys: Vec<&str> = cols.iter().map(|c| c.key.as_str()).collect();
    assert_eq!(keys, vec!["core", "side", "token", "size", "sl", "ts", "vstop", "buy", "cur.p", "fill", "strat"]);
    assert_eq!(cols[0].width_px, 90);
    assert!(cols[8].numeric);
    assert_eq!(cols[8].title, "Cur.P");
    assert!(!cols[4].numeric);
    let c = numeric_column("ÄBC", 10);
    assert_eq!(c.key, "äbc");
}

#[test]
fn orders_count_and_signature() {
    let sessions = vec![
        SessionEntry { id: 1, group: "g".into(), name: "a".into() },
        SessionEntry { id: 2, group: "g".into(), name: "b".into() },
        SessionEntry { id: 3, group: "other".into(), name: "c".into() },
        SessionEntry { id: 4, group: "g".into(), name: "d".into() },
        SessionEntry { id: 5, group: "G".into(), name: "e".into() },
    ];
    let store = vec![(1u64, 3usize), (3, 10), (4, 4), (1, 99), (5, 7)];
    assert_eq!(count_orders(&sessions, &store, "g"), 7);
    assert_eq!(count_orders(&sessions, &store, "other"), 10);
    assert_eq!(count_orders(&sessions, &store, "none"), 0);
    assert_eq!(count_orders(&vec![], &store, "g"), 0);
    assert_eq!(orders_sig(&vec![]), 0);
    assert_eq!(orders_sig(&vec![2, 3]), 2 * 31 + 3);
    assert_eq!(orders_sig(&vec![u64::MAX, 1]), u64::MAX.wrapping_mul(31).wrapping_add(1));
}

fn line(ts: &str, level: LogLevel, msg: &str, errorish: bool) -> LogLine {
    LogLine { ts: ts.to_string(), level, target: String::new(), msg: msg.to_string(), errorish }
}

#[test]
fn log_level_badges() {
    assert_eq!(level_tag(LogLevel::Error, 1, 2), Some(("ERR".to_string(), 1)));
    assert_eq!(level_tag(LogLevel::Warn, 1, 2), Some(("WARN".to_string(), 2)));
    assert_eq!(level_tag(LogLevel::Info, 1, 2), None);
    assert_eq!(level_tag(LogLevel::Trace, 1, 2), None);
}

#[test]
fn log_time_and_flat_message() {
    assert_eq!(time_part("2024-05-01 12:34:56.789"), "12:34:56.789");
    assert_eq!(time_part("nospace"), "nospace");
    assert_eq!(time_part("ends "), "");
    assert_eq!(flatten("a\nb"), "a ⏎ b");
    assert_eq!(flatten("plain"), "plain");
    let r = log_row(&line("d t", LogLevel::Error, "x\ny", true), 7, 8);
    assert_eq!(r.time, "t");
    assert_eq!(r.tag, Some(("ERR".to_string(), 7)));
    assert_eq!(r.target, None);
    assert_eq!(r.text, "x ⏎ y");
}

#[test]
fn log_filter_by_errors_and_query() {
    let raw = vec![
        line("1", LogLevel::Info, "Order FILLED", false),
        line("2", LogLevel::Error, "connection lost", true),
        line("3", LogLevel::Warn, "order rejected", true),
    ];
    let all = filter_lines(&raw, false, "");
    assert_eq!(all.len(), 3);
    let errs = filter_lines(&raw, true, "");
    assert_eq!(errs.iter().map(|l| l.ts.as_str()).collect::<Vec<_>>(), vec!["2", "3"]);
    let q = filter_lines(&raw, false, "  ORDER ");
    assert_eq!(q.iter().map(|l| l.ts.as_str()).collect::<Vec<_>>(), vec!["1", "3"]);
    assert!(filter_lines(&raw, true, "filled").is_empty());
}

#[test]
fn log_aggregate_merges_by_time() {
    let a = CoreLog { display: "A".into(), lines: vec![line("2024 10:00:01", LogLevel::Info, "a1", false), line("2024 10:00:03", LogLevel::Info, "a2", false)] };
    let b = CoreLog { display: "B".into(), lines: vec![line("2024 10:00:02", LogLevel::Info, "b1", false), line("2024 10:00:03", LogLevel::Info, "b2", false)] };
    let m = merge_core_logs(&vec![a, b]);
    assert_eq!(m.iter().map(|l| l.msg.as_str()).collect::<Vec<_>>(), vec!["a1", "b1", "a2", "b2"]);
    assert_eq!(m[1].target, "B");
    assert_eq!(m[0].target, "A");
}

#[test]
fn log_aggregate_keeps_newest() {
    let lines: Vec<LogLine> = (0..VIEW_LIMIT + 3).map(|i| line(&format!("{i:08}"), LogLevel::Info, "m", false)).collect();
    let m = merge_core_logs(&vec![CoreLog { display: "C".into(), lines }]);
    assert_eq!(m.len(), VIEW_LIMIT);
    assert_eq!(m[0].ts, format!("{:08}", 3));
}

#[test]
fn log_sources_and_labels() {
    let servers = vec![
        ServerLog { id: 1, group: "g1".into(), name: "Alpha".into(), file_label: "alpha".into() },
        ServerLog { id: 2, group: "g2".into(), name: "Beta".into(), file_label: "beta".into() },
    ];
    let scoped = build_sources(&"g1".to_string(), &servers, "Group log", "All logs", "Local");
    assert_eq!(scoped.len(), 3);
    assert_eq!(scoped[0].display, "Group log");
    assert_eq!(scoped[1].file_label, "app");
    assert_eq!(scoped[2].source, LogSource::Core(1));
    let all = build_sources(&String::new(), &servers, "Group log", "All logs", "Local");
    assert_eq!(all.len(), 4);
    assert_eq!(all[0].display, "All logs");
    assert_eq!(file_label(&all, LogSource::Core(2)), "beta");
    assert_eq!(file_label(&all, LogSource::Core(9)), "app");
    assert_eq!(file_label(&all, LogSource::Aggregate), "");
}

#[test]
fn log_view_state_changes() {
    let mut s = LogViewState::new();
    assert!(s.errors_only);
    assert!(s.set_file(LogFile::Named("f.log".into())));
    assert!(!s.set_file(LogFile::Named("f.log".into())));
    assert!(s.set_source(LogSource::Local));
    assert!(matches!(s.file, LogFile::Live));
    assert!(!s.set_source(LogSource::Local));
    assert_eq!(log_sig(5, &vec![2, 3]), 5 + 2 * 31 + 3);
}

#[test]
fn report_numeric_and_widths() {
    assert!(is_numeric_report_column("profitbtc"));
    assert!(!is_numeric_report_column("comment"));
    assert_eq!(width_for("comment"), 280);
    assert_eq!(width_for("buydate"), 120);
    assert_eq!(width_for("unknown"), 82);
    assert_eq!(header_for("db_id"), (false, "ID".to_string()));
    assert_eq!(header_for("coin"), (true, "report.col.coin".to_string()));
    assert_eq!(header_for("weird"), (false, "weird".to_string()));
}

#[test]
fn report_cells() {
    let p = ReportColors { red: 1, green: 2, text_soft: 3 };
    assert_eq!(as_i64(&CellValue::Integer(4)), Some(4));
    assert_eq!(as_i64(&CellValue::Real { truncated: -2, sign: -1 }), Some(-2));
    assert_eq!(as_i64(&CellValue::Text("x".into())), None);
    let c = report_data_cell("isshort", &CellValue::Integer(1), &p);
    assert_eq!((c.text, c.color), (CellText::ShortSide, Some(1)));
    let c = report_data_cell("isshort", &CellValue::Integer(0), &p);
    assert_eq!((c.text, c.color), (CellText::LongSide, Some(2)));
    let c = report_data_cell("isshort", &CellValue::Null, &p);
    assert_eq!((c.text, c.color), (CellText::Empty, Some(3)));
    let c = report_data_cell("profitbtc", &CellValue::Real { truncated: 0, sign: -1 }, &p);
    assert_eq!((c.text, c.color, c.right), (CellText::SignedNumber, Some(1), true));
    let c = report_data_cell("buydate", &CellValue::Integer(1_700_000_000), &p);
    assert_eq!(c.text, CellText::Date(1_700_000_000));
    let c = report_data_cell("emulator", &CellValue::Integer(1), &p);
    assert_eq!((c.text, c.color), (CellText::Emulator, Some(3)));
    let c = report_data_cell("comment", &CellValue::Text("hi".into()), &p);
    assert_eq!((c.text, c.color, c.right), (CellText::Value, None, false));
}

#[test]
fn report_rows_and_visibility() {
    let p = ReportColors { red: 1, green: 2, text_soft: 3 };
    let cols: Vec<String> = vec!["buydate".into(), "isshort".into(), "comment".into()];
    let rows = vec![vec![CellValue::Integer(10), CellValue::Integer(1)]];
    let cells = report_data_row(0, &rows, &cols, &vec![1, 2], &p);
    assert_eq!(cells.len(), 2);
    assert_eq!(cells[0].text, CellText::ShortSide);
    assert_eq!(cells[1].text, CellText::Value);
    assert!(report_data_row(5, &rows, &cols, &vec![1], &p).is_empty());
    let vis = initial_visible(&cols, &None);
    assert_eq!(vis, vec![true, true, true]);
    let saved = Some(vec!["comment".to_string()]);
    let mut vis = initial_visible(&cols, &saved);
    assert_eq!(vis, vec![false, false, true]);
    toggle_column(&mut vis, 0);
    toggle_column(&mut vis, 9);
    assert_eq!(vis, vec![true, false, true]);
    assert_eq!(visible_indices(3, &vis), vec![0, 2]);
    assert_eq!(visible_names(&cols, &vis), vec!["buydate".to_string(), "comment".to_string()]);
}

#[test]
fn report_filter_and_choices() {
    let cores = vec![(11u64, "a".to_string()), (22u64, "b".to_string())];
    let f = report_filter(2, &cores, Some(100), Some(1000), "BTC", SideFilter::Short);
    assert_eq!(f.core_uid, Some(22));
    assert_eq!(f.date_to, Some(1000 + 86_399));
    assert_eq!(f.coin, "BTC");
    assert_eq!(report_filter(0, &cores, None, None, "", SideFilter::All).core_uid, None);
    assert_eq!(report_filter(5, &cores, None, None, "", SideFilter::All).core_uid, None);
    let mut c = ReportChoices::new(None);
    assert_eq!(c.sort_key, "buydate");
    assert!(c.sort_desc);
    assert!(!c.set_report_sort("buydate", true));
    assert!(c.set_report_sort("coin", false));
    assert!(c.set_core(1));
    assert!(!c.set_core(1));
    assert!(c.set_side(SideFilter::Long));
    assert_eq!(total_color(1, &ReportColors { red: 1, green: 2, text_soft: 3 }), 2);
    assert_eq!(total_color(0, &ReportColors { red: 1, green: 2, text_soft: 3 }), 3);
}

fn detect(seq: u64, market: &str, alert: bool, add: i64, keep: u32, t: i64) -> DetectRow {
    DetectRow { seq, market: market.to_string(), sound_alert: alert, add_to_chart: add, keep_alert_secs: keep, time_ms: t }
}

fn core_detects(id: u64, rows: Vec<DetectRow>) -> CoreDetects {
    CoreDetects { id, name: format!("core{id}"), color: [1, 2, 3], detects: Some(rows) }
}

#[test]
fn detects_ingest_only_fresh_alerts() {
    let mut r = DetectRibbon::new();
    let cores = vec![core_detects(1, vec![
        detect(1, "A", true, 0, 5, 1000),
        detect(2, "B", false, 0, 5, 1000),
        detect(3, "C", true, 1, 5, 1000),
    ])];
    r.ingest(&cores);
    assert_eq!(r.items().iter().map(|i| i.market.as_str()).collect::<Vec<_>>(), vec!["A"]);
    assert_eq!(r.items()[0].ttl_ms, 5000);
    r.ingest(&cores);
    assert_eq!(r.items().len(), 1);
}

#[test]
fn detects_same_market_updates_button() {
    let mut r = DetectRibbon::new();
    r.ingest(&vec![core_detects(1, vec![detect(1, "A", true, 0, 0, 1000)])]);
    assert_eq!(r.items()[0].ttl_ms, 1000);
    r.ingest(&vec![core_detects(1, vec![detect(1, "A", true, 0, 0, 1000), detect(2, "B", true, 0, 3, 2000), detect(3, "A", true, 0, 9, 3000)])]);
    let items = r.items();
    assert_eq!(items.len(), 2);
    assert_eq!(items[0].market, "A");
    assert_eq!(items[0].born_ms, 3000);
    assert_eq!(items[0].ttl_ms, 9000);
}

#[test]
fn detects_capped_prune_open() {
    let mut r = DetectRibbon::new();
    let rows: Vec<DetectRow> = (1..=50).map(|i| detect(i, &format!("M{i}"), true, 0, 1, 0)).collect();
    r.ingest(&vec![core_detects(1, rows)]);
    assert_eq!(r.items().len(), MAX_DETECT_BTNS);
    assert_eq!(r.items()[0].market, "M3");
    assert_eq!(r.items()[0].remaining_secs(500), 1);
    assert_eq!(r.items()[0].remaining_secs(1000), 0);
    let req = r.open(1, "M10".to_string());
    assert_eq!(req, (1, "M10".to_string()));
    assert_eq!(r.items().len(), MAX_DETECT_BTNS - 1);
    r.prune(999);
    assert_eq!(r.items().len(), MAX_DETECT_BTNS - 1);
    r.prune(1000);
    assert!(r.items().is_empty());
}

#[test]
fn log_aggregate_from_sources_and_store() {
    let store = vec![
        CoreLogStore { id: 1, lines: vec![line("t3", LogLevel::Info, "one-late", false)] },
        CoreLogStore { id: 2, lines: (0..2005).map(|i| line(&format!("t{:05}", i), LogLevel::Info, "two", false)).collect() },
        CoreLogStore { id: 1, lines: vec![line("t0", LogLevel::Info, "shadowed", false)] },
    ];
    let item = |source: LogSource, display: &str| LogSourceItem { source, display: display.into(), file_label: String::new() };
    let sources = vec![
        item(LogSource::Aggregate, "Group"),
        item(LogSource::Local, "Local"),
        item(LogSource::Core(1), "Alpha"),
        item(LogSource::Core(9), "Missing"),
    ];
    let m = aggregate(&store, &sources);
    assert_eq!(m.len(), 1);
    assert_eq!(m[0].msg, "one-late");
    assert_eq!(m[0].target, "Alpha");
    let m2 = aggregate(&store, &vec![item(LogSource::Core(2), "Beta")]);
    assert_eq!(m2.len(), 2000);
    assert_eq!(m2[0].ts, "t00005");
    assert!(m2.iter().all(|l| l.target == "Beta"));
}
