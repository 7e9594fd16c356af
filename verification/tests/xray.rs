use xray_core::json::error_reply;
use xray_core::panels::footprint::group_by_bin;
use xray_core::xray::{reply_json, spec_text, Envelope, Reply};
use xray_core::{
    build_frame, BookEvent, BookKind, Config, Dataset, Error, FundingEvent, Level, LiqSide, LiquidationEvent, OiEvent, Side,
    Trade, Xray, XrayFrame, XrayPanel, XraySpec,
};

fn round8(x: f64) -> f64 {
    (x * 1e8).round() / 1e8
}

fn bin_of(price: f64, bin: f64) -> f64 {
    round8((price / bin).floor() * bin)
}

fn spec() -> XraySpec {
    XraySpec {
        dataset_ref: "mini".to_string(),
        symbol: "AAA".to_string(),
        from_ts: None,
        to_ts: None,
        panels: vec![XrayPanel::Footprint { price_bin: 1.0f64.to_bits(), bucket_ms: 60_000 }],
    }
}

fn dataset() -> Dataset {
    let mut d = Dataset::empty();
    d.trades = vec![
        Trade { ts: 1000, price: 100.4f64.to_bits(), qty: 2.0f64.to_bits(), side: Side::Buy },
        Trade { ts: 1400, price: 101.8f64.to_bits(), qty: 0.5f64.to_bits(), side: Side::Buy },
    ];
    d
}

/// A textual summary of a panel, standing in for its render data-model.
fn summary(panel: &XrayPanel, win: &Dataset, _cursor: i64) -> String {
    match *panel {
        XrayPanel::Footprint { price_bin, .. } => {
            let bins: Vec<u64> = win
                .trades
                .iter()
                .map(|t| bin_of(f64::from_bits(t.price), f64::from_bits(price_bin)).to_bits())
                .collect();
            let groups = group_by_bin(&win.trades, &bins);
            let price_bins: Vec<f64> = groups.iter().map(|g| f64::from_bits(g.bin)).collect();
            format!("footprint {:?}", price_bins)
        }
        XrayPanel::BookHeatmap { .. } => "book_heatmap".to_string(),
        XrayPanel::LiquidationMap { .. } => format!("liquidation_map {}", win.liquidations.len()),
        XrayPanel::FundingOiDivergence { .. } => "funding_oi_divergence".to_string(),
    }
}

fn loaded() -> Xray {
    let mut xray = Xray::new(Some(spec())).unwrap();
    xray.load(dataset()).unwrap();
    xray
}

fn cmd(name: &str) -> Envelope {
    Envelope { cmd: Some(name.to_string()), spec: None, dataset: None, ts: None }
}

fn run(xray: &mut Xray, env: Envelope) -> String {
    match xray.dispatch(env, summary) {
        Ok(Reply::Frame(f)) => format!("frame {} {} {:?}", f.symbol, f.cursor_ts, f.panels),
        Ok(reply) => reply_json(&reply).unwrap(),
        Err(e) => error_reply(&e),
    }
}

fn same_frame(a: &XrayFrame<String>, b: &XrayFrame<String>) -> bool {
    a.symbol == b.symbol && a.cursor_ts == b.cursor_ts && a.panels == b.panels
}

#[test]
fn version_is_the_crate_version() {
    assert_eq!(Xray::version(), "0.1.1");
    assert_eq!(xray_core::version(), "0.1.1");
}

#[test]
fn frame_equals_frame_at_to_ts_byte_for_byte() {
    let xray = loaded();
    let full = xray.frame(summary).unwrap();
    let at = xray.frame_at(1400, summary).unwrap();
    assert!(same_frame(&full, &at));
    assert_eq!(full.cursor_ts, 1400);
}

#[test]
fn frame_at_clips_the_window() {
    let xray = loaded();
    let early = xray.frame_at(1000, summary).unwrap();
    assert_eq!(early.cursor_ts, 1000);
    assert_eq!(early.panels, vec!["footprint [100.0]".to_string()]);
}

#[test]
fn command_json_runs_the_full_sequence() {
    let mut xray = Xray::new(None).unwrap();
    let set = Envelope { cmd: Some("set_spec".to_string()), spec: Some(Ok(spec())), dataset: None, ts: None };
    assert_eq!(run(&mut xray, set), r#"{"ok":true}"#);
    let load = Envelope { cmd: Some("load".to_string()), spec: None, dataset: Some(Ok(dataset())), ts: None };
    assert_eq!(run(&mut xray, load), r#"{"ok":true,"loaded":2}"#);
    assert_eq!(run(&mut xray, cmd("bounds")), r#"{"from_ts":1000,"to_ts":1400,"count":2}"#);
    let frame = run(&mut xray, cmd("frame"));
    assert!(frame.contains("footprint"));
    assert_eq!(run(&mut xray, cmd("version")), format!(r#"{{"version":"{}"}}"#, Xray::version()));
}

#[test]
fn reset_clears_the_dataset_but_keeps_the_spec() {
    let mut xray = loaded();
    assert_eq!(run(&mut xray, cmd("reset")), r#"{"ok":true}"#);
    let frame = run(&mut xray, cmd("frame"));
    assert!(frame.contains(r#""ok":false"#));
    assert!(frame.contains("no dataset"));
    assert!(xray.spec().is_some());
}

#[test]
fn unknown_command_is_an_error_json_not_a_panic() {
    let mut xray = Xray::new(None).unwrap();
    let reply = run(&mut xray, cmd("explode"));
    assert!(reply.contains(r#""ok":false"#));
    assert!(reply.contains("unknown cmd: explode"));
}

#[test]
fn frame_without_dataset_is_an_error_json() {
    let mut xray = Xray::new(Some(spec())).unwrap();
    let reply = run(&mut xray, cmd("frame"));
    assert!(reply.contains(r#""ok":false"#));
    assert!(reply.contains("no dataset"));
}

#[test]
fn build_frame_rejects_an_invalid_spec() {
    let mut bad = spec();
    bad.panels = vec![XrayPanel::Footprint { price_bin: 0.0f64.to_bits(), bucket_ms: 60_000 }];
    let err = build_frame(&Dataset::empty(), &bad, 0, summary);
    assert!(err.is_err());
}

#[test]
fn invalid_spec_on_construction_errors() {
    let mut no_symbol = spec();
    no_symbol.symbol = String::new();
    no_symbol.panels = vec![];
    assert!(Xray::new(Some(no_symbol)).is_err());
    let mut no_panels = spec();
    no_panels.panels = vec![];
    assert!(Xray::new(Some(no_panels)).is_err());
}

#[test]
fn bad_spec_command_yields_error_json() {
    let mut xray = Xray::new(None).unwrap();
    let mut no_panels = spec();
    no_panels.panels = vec![];
    let env = Envelope { cmd: Some("set_spec".to_string()), spec: Some(Ok(no_panels)), dataset: None, ts: None };
    let reply = run(&mut xray, env);
    assert!(reply.contains(r#""ok":false"#), "{reply}");
}

#[test]
fn frame_without_dataset_yields_error_json() {
    let mut xray = Xray::new(Some(spec())).unwrap();
    let reply = run(&mut xray, cmd("frame"));
    assert!(reply.contains(r#""ok":false"#), "{reply}");
    assert!(reply.contains("no dataset"), "{reply}");
}

#[test]
fn frame_panels_align_with_spec_panels() {
    let mut s = spec();
    s.panels = vec![
        XrayPanel::LiquidationMap { price_bin: 1.0f64.to_bits() },
        XrayPanel::Footprint { price_bin: 1.0f64.to_bits(), bucket_ms: 60_000 },
    ];
    let mut xray = Xray::new(Some(s)).unwrap();
    let mut d = Dataset::empty();
    d.trades = vec![Trade { ts: 1, price: 100.0f64.to_bits(), qty: 1.0f64.to_bits(), side: Side::Buy }];
    xray.load(d).unwrap();
    let frame = xray.frame(summary).unwrap();
    assert_eq!(frame.panels.len(), 2);
    assert!(frame.panels[0].starts_with("liquidation_map"));
    assert!(frame.panels[1].starts_with("footprint"));
}

#[test]
fn command_errors_name_the_missing_piece() {
    let mut xray = Xray::new(None).unwrap();
    let missing = Envelope { cmd: None, spec: None, dataset: None, ts: None };
    assert_eq!(run(&mut xray, missing), r#"{"ok":false,"error":"bad spec: missing 'cmd'"}"#);
    assert_eq!(run(&mut xray, cmd("set_spec")), r#"{"ok":false,"error":"bad spec: set_spec requires 'spec'"}"#);
    assert_eq!(run(&mut xray, cmd("load")), r#"{"ok":false,"error":"bad spec: load requires 'dataset'"}"#);
    assert_eq!(run(&mut xray, cmd("frame_at")), r#"{"ok":false,"error":"bad spec: frame_at requires integer 'ts'"}"#);
    assert_eq!(run(&mut xray, cmd("frame")), r#"{"ok":false,"error":"bad spec: no spec set"}"#);
    let unparsable = Envelope { cmd: Some("load".to_string()), spec: None, dataset: Some(Err("eof".to_string())), ts: None };
    assert_eq!(run(&mut xray, unparsable), r#"{"ok":false,"error":"parse: eof"}"#);
    assert_eq!(run(&mut xray, cmd("bounds")), r#"{"ok":false,"error":"data: no dataset"}"#);
}

#[test]
fn error_messages_are_quoted_json() {
    let e = Error::BadSpec("a \"quoted\" word".to_string());
    assert_eq!(e.message(), "bad spec: a \"quoted\" word");
    assert_eq!(error_reply(&e), r#"{"ok":false,"error":"bad spec: a \"quoted\" word"}"#);
}

#[test]
fn error_text_escapes_control_characters() {
    let e = Error::Data("tab\there\nand \u{1} and \\".to_string());
    assert_eq!(error_reply(&e), r#"{"ok":false,"error":"data: tab\there\nand \u0001 and \\"}"#);
}

#[test]
fn frame_at_caps_the_cursor_at_the_spec_end() {
    let mut s = spec();
    s.to_ts = Some(1200);
    s.from_ts = Some(1000);
    let mut xray = Xray::new(Some(s)).unwrap();
    xray.load(dataset()).unwrap();
    let f = xray.frame_at(5000, summary).unwrap();
    assert_eq!(f.cursor_ts, 1200);
    assert_eq!(f.panels, vec!["footprint [100.0]".to_string()]);
    let full = xray.frame(summary).unwrap();
    assert!(same_frame(&f, &full));
    assert_eq!(xray.bounds().unwrap().count, 2);
}

/// A spec with one panel of each kind and an open `to_ts`.
fn multi_panel_spec() -> XraySpec {
    XraySpec {
        dataset_ref: "multi".to_string(),
        symbol: "AAA".to_string(),
        from_ts: None,
        to_ts: None,
        panels: vec![
            XrayPanel::Footprint { price_bin: 1.0f64.to_bits(), bucket_ms: 60_000 },
            XrayPanel::BookHeatmap { price_bin: 1.0f64.to_bits(), bucket_ms: 60_000, depth_levels: 10 },
            XrayPanel::LiquidationMap { price_bin: 1.0f64.to_bits() },
            XrayPanel::FundingOiDivergence { bucket_ms: 60_000 },
        ],
    }
}

fn multi_panel_dataset() -> Dataset {
    let mut d = Dataset::empty();
    d.trades = (0..8)
        .map(|i| Trade {
            ts: 1_000 + 1_000 * i,
            price: (100.0 + i as f64).to_bits(),
            qty: (1.0 + i as f64).to_bits(),
            side: if i % 2 == 0 { Side::Buy } else { Side::Sell },
        })
        .collect();
    let lv = |p: f64, q: f64| Level { price: p.to_bits(), qty: q.to_bits() };
    d.book = vec![BookEvent { ts: 500, kind: BookKind::Snapshot, bids: vec![lv(99.0, 1.0)], asks: vec![lv(101.0, 2.0)] }];
    d.funding = vec![FundingEvent { ts: 2_000, rate: 0.0001f64.to_bits() }];
    d.oi = vec![OiEvent { ts: 3_000, oi: 10.0f64.to_bits() }];
    d.liquidations = vec![LiquidationEvent { ts: 4_000, price: 102.0f64.to_bits(), qty: 1.0f64.to_bits(), side: LiqSide::Long }];
    d
}

/// Footprint volume of a panel's window; zero for the other kinds.
fn footprint_volume(panel: &XrayPanel, win: &Dataset, _cursor: i64) -> f64 {
    match panel {
        XrayPanel::Footprint { .. } => win.trades.iter().map(|t| f64::from_bits(t.qty)).sum(),
        _ => 0.0,
    }
}

fn loaded_multi_panel() -> Xray {
    let mut xray = Xray::new(Some(multi_panel_spec())).unwrap();
    xray.load(multi_panel_dataset()).unwrap();
    xray
}

#[test]
fn frame_at_end_equals_full_frame() {
    let xray = loaded_multi_panel();
    let to_ts = xray.bounds().unwrap().to_ts;
    let full = xray.frame(footprint_volume).unwrap();
    let at_end = xray.frame_at(to_ts, footprint_volume).unwrap();
    assert_eq!(full.symbol, at_end.symbol);
    assert_eq!(full.cursor_ts, at_end.cursor_ts);
    assert_eq!(full.panels, at_end.panels);
}

#[test]
fn frame_at_midpoint_clips_the_window() {
    let xray = loaded_multi_panel();
    let bounds = xray.bounds().unwrap();
    let mid = (bounds.from_ts + bounds.to_ts) / 2;
    let full = xray.frame(footprint_volume).unwrap();
    let clipped = xray.frame_at(mid, footprint_volume).unwrap();
    assert_eq!(clipped.cursor_ts, mid);
    assert_eq!(clipped.panels.len(), full.panels.len());
    let clipped_total: f64 = clipped.panels.iter().sum();
    let full_total: f64 = full.panels.iter().sum();
    assert!(clipped_total > 0.0, "midpoint window should hold some trades");
    assert!(clipped_total < full_total, "clipped {clipped_total} should be less than full {full_total}");
}

#[test]
fn rejects_an_invalid_spec() {
    let config = Config {
        spec: XraySpec {
            dataset_ref: "m".to_string(),
            symbol: "AAA".to_string(),
            from_ts: None,
            to_ts: None,
            panels: vec![],
        },
    };
    assert!(Config::validated(config).is_err());
}

#[test]
fn a_valid_config_is_kept_as_it_is() {
    let config = Config { spec: spec() };
    let kept = Config::validated(config.clone()).unwrap();
    assert_eq!(kept, config);
}

#[test]
fn blank_or_empty_object_creation_text_means_no_spec() {
    assert_eq!(spec_text(""), None);
    assert_eq!(spec_text("  \n\t "), None);
    assert_eq!(spec_text(" {} "), None);
    assert_eq!(spec_text("\u{a0}{}\u{3000}"), None);
    assert_eq!(spec_text("{ }"), Some("{ }"));
    assert_eq!(spec_text("  {\"symbol\":\"AAA\"}\n"), Some("{\"symbol\":\"AAA\"}"));
}

#[test]
fn cutting_the_dataset_at_the_cursor_gives_the_same_frame() {
    let d = multi_panel_dataset();
    let s = multi_panel_spec();
    for t in [500, 3_500, 8_000, 20_000] {
        let cut = d.window(s.from_ts, Some(t));
        let a = build_frame(&cut, &s, t, footprint_volume).unwrap();
        let b = build_frame(&d, &s, t, footprint_volume).unwrap();
        assert_eq!(a.cursor_ts, b.cursor_ts);
        assert_eq!(a.panels, b.panels);
    }
}

fn parse_spec_text(text: &String) -> Result<XraySpec, String> {
    if text.contains("\"AAA\"") {
        Ok(spec())
    } else {
        Err(format!("cannot read {text}"))
    }
}

fn parse_dataset_text(text: &String) -> Result<Dataset, String> {
    if text == "{}" {
        Ok(dataset())
    } else {
        Err("bad dataset".to_string())
    }
}

fn render(frame: &XrayFrame<String>) -> String {
    format!("frame {} {} {:?}", frame.symbol, frame.cursor_ts, frame.panels)
}

fn command(xray: &mut Xray, text: &str) -> String {
    xray.command_json(text, parse_spec_text, parse_dataset_text, summary, render)
}

#[test]
fn command_json_decodes_the_envelope() {
    let mut xray = Xray::new(None).unwrap();
    assert!(command(&mut xray, "not json").starts_with(r#"{"ok":false,"error":"parse: "#));
    assert_eq!(command(&mut xray, r#"{"ts":5}"#), r#"{"ok":false,"error":"bad spec: missing 'cmd'"}"#);
    assert_eq!(command(&mut xray, r#"{"cmd":5}"#), r#"{"ok":false,"error":"bad spec: missing 'cmd'"}"#);
    assert_eq!(command(&mut xray, r#"{"cmd":"explode"}"#), r#"{"ok":false,"error":"bad spec: unknown cmd: explode"}"#);
    assert_eq!(
        command(&mut xray, r#"{"cmd":"set_spec","spec":{"symbol":"BBB"}}"#),
        r#"{"ok":false,"error":"parse: cannot read {\"symbol\":\"BBB\"}"}"#
    );
    assert_eq!(command(&mut xray, r#"{"cmd":"set_spec","spec":{"symbol":"AAA"}}"#), r#"{"ok":true}"#);
    assert_eq!(command(&mut xray, r#"{"cmd":"load","dataset":[]}"#), r#"{"ok":false,"error":"parse: bad dataset"}"#);
    assert_eq!(command(&mut xray, r#"{"cmd":"load","dataset":{}}"#), r#"{"ok":true,"loaded":2}"#);
    assert_eq!(
        command(&mut xray, r#"{"cmd":"frame_at","ts":1000.0}"#),
        r#"{"ok":false,"error":"bad spec: frame_at requires integer 'ts'"}"#
    );
    assert_eq!(command(&mut xray, r#"{"cmd":"frame_at","ts":1000}"#), r#"frame AAA 1000 ["footprint [100.0]"]"#);
    assert_eq!(command(&mut xray, r#"{"cmd":"bounds"}"#), r#"{"from_ts":1000,"to_ts":1400,"count":2}"#);
    assert_eq!(command(&mut xray, r#"{"cmd":"frame"}"#), command(&mut xray, r#"{"cmd":"frame_at","ts":1400}"#));
    assert_eq!(command(&mut xray, r#"{"cmd":"reset"}"#), r#"{"ok":true}"#);
    assert_eq!(command(&mut xray, r#"{"cmd":"frame"}"#), r#"{"ok":false,"error":"data: no dataset"}"#);
}
