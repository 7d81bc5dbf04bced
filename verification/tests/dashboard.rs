use astral_watch::alert::Thresholds;
use astral_watch::clock::{Duration, Instant};
use astral_watch::config::AlertPolicy;
use astral_watch::dashboard::{
    discover_cards, App, BusAnswer, CardTab, Hue, Key, Reply, MAX_INTERVAL_NANOS,
    MIN_INTERVAL_NANOS,
};
use astral_watch::decode::{Pin, Reading};
use astral_watch::double::Number;
use astral_watch::lifecycle::{Condition, Lifecycle};
use astral_watch::panels::{
    alarm_text, balance_gauge, body, connector_line, gpu_line, help_lines, help_size,
    identity_line, keybar, line_color, log_lines, pin_color, screen, stats_lines, tabs,
    title_compact, trend_label, trend_top, Bars, Body, Look, Panel, Span, Style, Theme,
    BARS_TITLE, DEVICE_TITLE, HELP_TITLE, LOG_TITLE, TOTALS_TITLE, TREND_TITLE, WATTS_TITLE,
};
use astral_watch::smi::{gen_from_speed, gpu_stats, parse_gpu_csv, pcie_link, GpuStat, LinkFiles};

fn num(x: f64) -> Number {
    Number::from_bits(x.to_bits())
}

fn val(n: Number) -> f64 {
    f64::from_bits(n.to_bits())
}

fn card() -> CardTab {
    CardTab {
        bus: 7,
        pci: "0000:0b:00.0".into(),
        model: "ROG Astral RTX 5090".into(),
    }
}

fn app(amps: [f64; 6]) -> App {
    let mut a = App::new(
        0x2b,
        vec![card()],
        true,
        Duration::from_secs(1),
        Some(("Gen4×16".into(), false)),
        "12:00:00",
    );
    a.logbook.lines.clear();
    let r = Reading {
        pins: amps.map(|x| Pin {
            millivolts: 11_970,
            milliamps: (x * 1000.0).round() as u16,
        }),
    };
    a.readout.reading = Some(r);
    a.readout.live = true;
    a.readout.status = "ok".into();
    a.readout.samples = 3;
    a.history.push_hist(&r);
    a
}

const COLOR: Theme = Theme { color: true };

fn line(v: &[Span]) -> String {
    v.iter().map(|s| s.text.as_str()).collect::<String>() + "\n"
}

fn lines(v: &[Vec<Span>]) -> String {
    v.iter().map(|l| line(l)).collect()
}

fn panel(a: &App, t: &Theme, p: Panel, w: u16, h: u16) -> String {
    match p {
        Panel::Bars => {
            let b = Bars::new(w, h, &a.readout, &a.history.peaks);
            let mut s = BARS_TITLE.to_string() + "\n";
            for y in 0..h {
                for x in 0..w {
                    s.push(b.cell(t, x, y).map(|g| g.ch).unwrap_or(' '));
                }
                s.push('\n');
            }
            s
        }
        Panel::Trend => TREND_TITLE.to_string() + &trend_label(trend_top(&a.history)) + "\n",
        Panel::Balance => {
            let g = balance_gauge(&a.readout, a.history.peak_balance, t);
            format!("{}\n{}\n", g.title, g.label)
        }
        Panel::Watts => WATTS_TITLE.to_string() + "\n",
        Panel::Log => {
            LOG_TITLE.to_string() + "\n" + &lines(&log_lines(&a.logbook, h as usize, t))
        }
    }
}

/// Everything a screen of this size says, panel by panel.
fn show(a: &App, t: &Theme, stats: &Vec<GpuStat>, w: u16, h: u16) -> String {
    let s = screen(h, a);
    let mut out = String::new();
    if s.tabs {
        out += &line(&tabs(&a.deck, t));
    }
    if s.compact {
        out += &line(&title_compact(a, t));
    } else {
        out += DEVICE_TITLE;
        out += &line(&identity_line(a, t));
        out += &line(&gpu_line(&a.deck.gpu_stat(stats), t));
        out += &line(&connector_line(&a.readout, t));
    }
    if s.alarm {
        out += &alarm_text(&a.readout.active);
    }
    let rows = h.saturating_sub(8);
    match body(w, rows, &a.outlook) {
        Body::Only(p) => out += &panel(a, t, p, w, rows),
        Body::Wide => {
            for p in [
                Panel::Bars,
                Panel::Trend,
                Panel::Balance,
                Panel::Watts,
                Panel::Log,
            ] {
                out += &panel(a, t, p, w / 2, rows / 2);
            }
            out += TOTALS_TITLE;
            out += &lines(&stats_lines(&a.readout, a.history.peak_watts, t));
        }
        Body::Narrow => {
            for p in [Panel::Bars, Panel::Balance, Panel::Log] {
                out += &panel(a, t, p, w, rows / 3);
            }
            out += TOTALS_TITLE;
            out += &lines(&stats_lines(&a.readout, a.history.peak_watts, t));
        }
    }
    out += &line(&keybar(a.outlook.paused, a.deck.cards.len(), t));
    if a.outlook.show_help {
        out += HELP_TITLE;
        out += &lines(&help_lines(t));
    }
    out
}

fn at_size(a: &App, w: u16, h: u16) -> String {
    show(a, &COLOR, &vec![], w, h)
}

#[test]
fn renders_core_panels_wide() {
    let s = at_size(&app([8.2, 8.6, 8.3, 8.4, 8.5, 8.8]), 130, 40);
    assert!(s.contains("astral-watch"));
    assert!(s.contains("per-pin") && s.contains("trend"));
    assert!(s.contains("balance") && s.contains("watts") && s.contains("totals"));
    assert!(s.contains("alert log"));
    assert!(s.contains("quit") && s.contains("zoom"));
}

#[test]
fn bars_show_limit_line_and_values() {
    let s = at_size(&app([8.2, 8.6, 8.3, 8.4, 8.5, 8.8]), 130, 40);
    assert!(s.contains('┄'), "9.2A limit line drawn");
    assert!(s.contains('█'), "bar fill drawn");
    assert!(s.contains("p1") && s.contains("p6"), "pin labels");
}

#[test]
fn device_header_shows_link_and_connector() {
    let s = at_size(&app([8.2, 8.6, 8.3, 8.4, 8.5, 8.8]), 130, 40);
    assert!(s.contains("device"), "device panel");
    assert!(s.contains("ROG Astral RTX 5090"), "model");
    assert!(s.contains("PCIe Gen4×16"), "pcie link from sysfs");
    assert!(
        s.contains("connector") && s.contains("balance"),
        "telemetry summary"
    );
    assert!(
        s.contains("nvidia-smi not available"),
        "gpu line degrades when no stats"
    );
}

#[test]
fn device_header_shows_gpu_stats_when_present() {
    let a = app([8.0; 6]);
    let stats = vec![GpuStat {
        pci: "00000000:0b:00.0".into(), // normalized to match card 0000:0b:00.0
        util: Some(100),
        draw_w: Some(num(320.0)),
        limit_w: Some(num(600.0)),
        temp_c: Some(69),
        fan: Some(62),
    }];
    let s = show(&a, &COLOR, &stats, 130, 40);
    assert!(s.contains("GPU") && s.contains("100%"), "util");
    assert!(
        s.contains("PWR") && s.contains("320/600W"),
        "power draw/limit"
    );
    assert!(s.contains("69°C") && s.contains("fan 62%"), "temp + fan");
    assert_eq!(
        line(&gpu_line(&Some(stats[0].clone()), &COLOR)),
        "GPU ██████████ 100%   PWR █████░░░░░ 320/600W   69°C  fan 62%\n"
    );
}

#[test]
fn balance_gauge_status_words() {
    // normal
    assert!(at_size(&app([8.0; 6]), 130, 40).contains("NORMAL"));
    // alarm (one pin way high -> ratio > 1.5)
    let s = at_size(&app([12.0, 6.0, 8.0, 8.0, 8.0, 8.0]), 130, 40);
    assert!(s.contains("ALARM"), "imbalanced -> ALARM: {s}");
}

#[test]
fn parse_gpu_csv_handles_na() {
    let v = parse_gpu_csv("00000000:0B:00.0, 100, 320.36, 600.00, 69, [N/A]\n");
    assert_eq!(v.len(), 1);
    assert_eq!(v[0].pci, "00000000:0b:00.0");
    assert_eq!(v[0].util, Some(100));
    assert_eq!(v[0].limit_w, Some(num(600.0)));
    assert_eq!(v[0].fan, None); // [N/A] -> None, not a parse panic
}

#[test]
fn gpu_rows_are_read_line_by_line() {
    let v = parse_gpu_csv("a:1, 5, x, 1, -3, 7\r\nshort, row\n\nb:2,,,,,");
    assert_eq!(v.len(), 2);
    assert_eq!(v[0].util, Some(5));
    assert_eq!(v[0].draw_w, None);
    assert_eq!(v[0].temp_c, Some(-3));
    assert_eq!(v[0].fan, Some(7));
    assert_eq!(v[1].pci, "0000000b:2");
    assert_eq!(v[1].util, None);
    assert!(parse_gpu_csv("").is_empty());
}

#[test]
fn gpu_stats_come_from_raw_output() {
    let v = gpu_stats(true, &b"0000:0b:00.0, 7, 1, 2, \xff, 30\n".to_vec()).unwrap();
    assert_eq!(v.len(), 1);
    assert_eq!(v[0].util, Some(7));
    assert_eq!(v[0].temp_c, None); // not UTF-8, so not a number
    assert_eq!(v[0].fan, Some(30));
    assert!(gpu_stats(false, &b"0000:0b:00.0, 7, 1, 2, 3, 4\n".to_vec()).is_none());
}

#[test]
fn gen_from_speed_maps() {
    assert_eq!(gen_from_speed("16.0 GT/s PCIe"), Some(4));
    assert_eq!(gen_from_speed("32.0 GT/s PCIe"), Some(5));
    assert_eq!(gen_from_speed("2.5 GT/s PCIe"), Some(1));
}

#[test]
fn links_know_when_they_are_down_trained() {
    let f = |cs: &str, cw: &str, ms: Option<&str>, mw: Option<&str>| LinkFiles {
        current_speed: Some(cs.to_string()),
        current_width: Some(cw.to_string()),
        max_speed: ms.map(|s| s.to_string()),
        max_width: mw.map(|s| s.to_string()),
    };
    assert_eq!(
        pcie_link(&f("16.0 GT/s PCIe\n", "16\n", Some("32.0 GT/s PCIe"), Some("16"))),
        Some(("Gen4×16".to_string(), false))
    );
    assert_eq!(
        pcie_link(&f("64.0 GT/s", "16", Some("64.0 GT/s"), Some("16"))),
        Some(("Gen6×16".to_string(), true))
    );
    assert_eq!(
        pcie_link(&f("5.0 GT/s", "8", None, None)),
        Some(("Gen2×8".to_string(), true))
    );
    assert_eq!(pcie_link(&f("Unknown", "16", None, None)), None);
    assert_eq!(gen_from_speed("8.0"), Some(3));
    assert_eq!(gen_from_speed(""), None);
}

#[test]
fn alarm_banner_shows_active_condition() {
    let mut a = app([9.5, 8.0, 8.0, 8.0, 8.0, 8.0]);
    a.readout.active = vec![Condition::Overload];
    let s = at_size(&a, 130, 40);
    assert!(s.contains("ALERT") && s.contains("OVERLOAD"));
    assert_eq!(
        alarm_text(&vec![Condition::Overload, Condition::TelemetryLost]),
        "  ⚠  ALERT: OVERLOAD  +  TELEMETRY LOST  ⚠"
    );
}

#[test]
fn focus_zooms_a_single_panel() {
    let mut a = app([8.0; 6]);
    a.outlook.focus = Some(1); // trend
    let s = at_size(&a, 130, 40);
    assert!(s.contains("trend") && s.contains("[trend]"));
    assert!(!s.contains("alert log"), "other panels hidden when zoomed");
}

#[test]
fn paused_and_help_render() {
    let mut a = app([8.0; 6]);
    a.outlook.paused = true;
    assert!(at_size(&a, 130, 40).contains("PAUSED"));
    a.outlook.show_help = true;
    let s = at_size(&a, 130, 40);
    assert!(s.contains("help") && s.contains("switch GPU") && s.contains("zoom a panel"));
}

#[test]
fn multi_card_tabs_render() {
    let mut a = app([8.0; 6]);
    a.deck.cards.push(CardTab {
        bus: 12,
        pci: "0000:17:00.0".into(),
        model: "ROG Astral RTX 5080".into(),
    });
    let s = at_size(&a, 130, 40);
    assert!(s.contains("5090") && s.contains("5080"));
    assert!(s.contains("card"));
}

#[test]
fn no_color_theme_renders() {
    let a = app([8.0; 6]);
    let t = Theme { color: false };
    let s = show(&a, &t, &vec![], 130, 40);
    assert!(s.contains("astral-watch") && s.contains('█'));
    assert_eq!(t.c(Hue::Red), Hue::Reset);
    assert_eq!(
        t.badge(Hue::Red),
        Style {
            fg: None,
            look: Look::Badge
        }
    );
}

#[test]
fn keys_drive_state() {
    let mut a = app([8.0; 6]);
    a.on_key(Key::Char(' '), false, "t");
    assert!(a.outlook.paused);
    a.on_key(Key::Char('2'), false, "t");
    assert_eq!(a.outlook.focus, Some(1));
    a.on_key(Key::Esc, false, "t"); // Esc leaves zoom first (doesn't quit)
    assert_eq!(a.outlook.focus, None);
    a.on_key(Key::Char('?'), false, "t");
    assert!(a.outlook.show_help);
    a.on_key(Key::Char('x'), false, "t");
    assert!(!a.outlook.show_help);
    assert_eq!(a.on_key(Key::Char('q'), false, "t"), Reply::Quit);
    assert_eq!(a.on_key(Key::Char('c'), true, "t"), Reply::Quit);
}

#[test]
fn quit_works_even_with_help_open() {
    let mut a = app([8.0; 6]);
    a.outlook.show_help = true;
    assert_eq!(a.on_key(Key::Char('q'), false, "t"), Reply::Quit);
}

#[test]
fn log_scroll_clamps() {
    let mut a = app([8.0; 6]);
    for i in 0..50 {
        a.logbook.push_log("t", format!("line {i}"), Hue::Gray);
    }
    a.logbook.scroll_log(-5); // can't scroll below 0
    assert_eq!(a.logbook.scroll, 0);
    a.logbook.scroll_log(1000); // clamps to len-1
    assert_eq!(a.logbook.scroll, a.logbook.lines.len() - 1);
}

#[test]
fn scrolled_log_keeps_a_full_window() {
    let mut a = app([8.0; 6]);
    for i in 0..60 {
        a.logbook.push_log("t", format!("evt{i}"), Hue::Gray);
    }
    a.logbook.scroll = 10_000; // mash scroll-up far past the top
    let s = at_size(&a, 130, 40);
    // must not shrink to one line, and must reach the oldest entries
    assert!(
        s.matches("evt").count() >= 5,
        "scrolled log should still fill the pane"
    );
    assert!(s.contains("evt0"), "oldest line visible at the top");
}

#[test]
fn streaming_past_cap_while_scrolled_does_not_blank() {
    let mut a = app([8.0; 6]);
    for i in 0..20 {
        a.logbook.push_log("t", format!("evt{i}"), Hue::Gray);
    }
    a.logbook.scroll_log(6);
    for i in 20..300 {
        a.logbook.push_log("t", format!("evt{i}"), Hue::Gray); // exceeds LOG_CAP
    }
    let s = at_size(&a, 130, 40);
    assert!(
        s.matches("evt").count() >= 5,
        "log must not blank when streaming past cap"
    );
    assert_eq!(a.logbook.lines.len(), 200);
}

#[test]
fn rate_keys_clamp() {
    let mut a = app([8.0; 6]);
    for _ in 0..12 {
        a.on_key(Key::Char('+'), false, "t");
    }
    assert!(a.outlook.interval.nanos >= MIN_INTERVAL_NANOS);
    for _ in 0..12 {
        a.on_key(Key::Char('-'), false, "t");
    }
    assert!(a.outlook.interval.nanos <= MAX_INTERVAL_NANOS);
}

#[test]
fn extreme_sizes_do_not_panic() {
    let mut a = app([9.9, 0.0, 8.0, 8.0, 8.0, 8.0]);
    a.readout.active = vec![Condition::Overload];
    for f in [None, Some(0), Some(1), Some(4)] {
        a.outlook.focus = f;
        for (w, h) in [
            (130, 40),
            (80, 24),
            (40, 10),
            (12, 5),
            (6, 4),
            (3, 3),
            (1, 1),
            (200, 80),
        ] {
            let _ = at_size(&a, w, h);
            let _ = help_size(w, h);
        }
    }
    assert_eq!(help_size(1, 1), (0, 0));
    assert_eq!(help_size(130, 40), (58, 18));
}

#[test]
fn empty_history_does_not_panic() {
    let mut a = app([8.0; 6]);
    a.history.clear_history();
    a.readout.reading = None;
    a.readout.live = false;
    for (w, h) in [(130, 40), (80, 24), (1, 1)] {
        let _ = at_size(&a, w, h);
    }
    assert_eq!(trend_top(&a.history), 9_200);
}

#[test]
fn bars_are_drawn_to_scale() {
    let a = app([10.0, 5.0, 0.0, 8.0, 8.0, 8.0]);
    // ten rows of bar, a value row, a label row; slots of four columns
    let b = Bars::new(24, 12, &a.readout, &[0; 6]);
    let column = |x: u16| {
        (0..12)
            .map(|y| b.cell(&COLOR, x, y).map(|g| g.ch).unwrap_or(' '))
            .collect::<String>()
    };
    assert_eq!(column(1), "██████████0p");
    assert_eq!(column(5), " ┄   █████.p");
    assert_eq!(column(9), " ┄        .p");
    // the gap between two bars shows only the limit
    assert_eq!(column(7), " ┄          ");
    let capped = Bars::new(24, 12, &a.readout, &[0, 7_000, 0, 0, 0, 0]);
    assert_eq!(capped.cell(&COLOR, 5, 3).unwrap().ch, '▔');
    assert_eq!(b.cell(&COLOR, 24, 0), None);
    assert_eq!(Bars::new(5, 12, &a.readout, &[0; 6]).cell(&COLOR, 0, 0), None);
    assert_eq!(pin_color(9_201, true), Hue::Red);
    assert_eq!(pin_color(9_200, true), Hue::Yellow);
    // as doubles, 9.2 * 0.85 lies just below 7.82
    assert_eq!(pin_color(7_820, true), Hue::Yellow);
    assert_eq!(pin_color(7_819, true), Hue::Green);
    assert_eq!(pin_color(0, true), Hue::DarkGray);
    assert_eq!(pin_color(9_900, false), Hue::DarkGray);
    assert_eq!(line_color(5, &COLOR), Hue::LightRed);
}

#[test]
fn header_lines_are_exact() {
    let a = app([8.2, 8.6, 8.3, 8.4, 8.5, 8.8]);
    assert_eq!(
        line(&identity_line(&a, &COLOR)),
        " astral-watch   ROG Astral RTX 5090  0000:0b:00.0  PCIe Gen4×16 ↓  i2c-7 @ 0x2b\n"
    );
    assert_eq!(
        line(&connector_line(&a.readout, &COLOR)),
        "connector  50.8 A · 608 W · balance 1.07× · pins 11.97–11.97 V\n"
    );
    assert_eq!(
        lines(&stats_lines(&a.readout, a.history.peak_watts, &COLOR)),
        "50.8 A   ~608 W   peak 608 W\npins 11.97–11.97 V   ·   samples 3\n"
    );
    let g = balance_gauge(&a.readout, a.history.peak_balance, &COLOR);
    assert_eq!(g.label, "1.07×  NORMAL");
    assert_eq!(g.title, " balance hi/lo · alarm >1.5× · peak 1.07× ");
    let ratio: f64 = 8.8 / 8.2;
    assert_eq!(val(g.share), (ratio - 1.0) / 0.5);
    let mut stale = app([8.0; 6]);
    stale.readout.live = false;
    assert!(line(&connector_line(&stale.readout, &COLOR)).starts_with("STALE · connector"));
    assert_eq!(
        balance_gauge(&stale.readout, Number::zero(), &COLOR).share,
        Number::zero()
    );
    stale.readout.reading = None;
    assert_eq!(line(&connector_line(&stale.readout, &COLOR)), "ok\n");
    assert_eq!(
        balance_gauge(&stale.readout, Number::zero(), &COLOR).label,
        "—  idle"
    );
}

#[test]
fn cards_are_discovered_once_each() {
    let b = |bus: u32, plausible: bool, pci: Option<&str>| BusAnswer {
        bus,
        plausible,
        pci: pci.map(|s| s.to_string()),
        model: None,
    };
    let answers = vec![
        b(1, false, Some("a")),
        b(2, true, Some("a")),
        b(3, true, Some("a")),
        b(4, true, None),
    ];
    let own = b(9, false, Some("z"));
    let found = discover_cards(&answers, true, &own);
    assert_eq!(found.iter().map(|c| c.bus).collect::<Vec<_>>(), vec![2, 4]);
    assert_eq!(found[1].pci, "i2c-4");
    assert_eq!(found[0].title(), "unknown SKU (a)");
    assert_eq!(discover_cards(&answers, false, &own)[0].bus, 9);
    assert_eq!(discover_cards(&vec![], true, &own)[0].bus, 9);
}

#[test]
fn switching_cards_starts_afresh() {
    let mut a = app([8.0; 6]);
    assert_eq!(a.on_key(Key::Tab, false, "t"), Reply::Stay);
    a.deck.cards.push(CardTab {
        bus: 12,
        pci: "0000:17:00.0".into(),
        model: "ROG Astral RTX 5080".into(),
    });
    a.readout.misses = 4;
    assert_eq!(a.on_key(Key::Left, false, "t"), Reply::Switched);
    assert_eq!(a.deck.selected, 1);
    assert_eq!(a.deck.current_bus(), 12);
    assert!(a.readout.reading.is_none() && !a.readout.live);
    assert_eq!(a.readout.misses, 0);
    assert_eq!(a.history.peaks, [0; 6]);
    assert_eq!(
        a.logbook.lines.back().unwrap().text,
        "viewing ROG Astral RTX 5080 (0000:17:00.0)"
    );
    assert_eq!(a.on_key(Key::Right, false, "t"), Reply::Switched);
    assert_eq!(a.deck.selected, 0);
}

#[test]
fn samples_reach_the_dashboard() {
    let mut a = app([8.0; 6]);
    let mut lc = Lifecycle::new(AlertPolicy {
        confirm_samples: 1,
        resolve_samples: 1,
        repeat_minutes: 0,
    });
    let at = |s: u64| Instant::at(Duration::from_secs(s));
    let t = Thresholds::default();
    let mut hot = [Pin {
        millivolts: 12_000,
        milliamps: 8_000,
    }; 6];
    hot[0].milliamps = 9_500;
    a.sample(&Ok(Reading { pins: hot }), None, &mut lc, &t, "t", at(1));
    assert_eq!(a.readout.active, vec![Condition::Overload]);
    assert_eq!(a.readout.link, None);
    assert_eq!(a.history.peaks[0], 9_500);
    let last = a.logbook.lines.back().unwrap();
    assert_eq!(last.text, "ALERT RAISED: OVERLOAD pins 1 >9.2A");
    assert_eq!(last.hue, Hue::Red);
    for s in 2..12 {
        a.sample(&Err("gone".to_string()), None, &mut lc, &t, "t", at(s));
    }
    assert_eq!(a.readout.status, "read failed: gone");
    assert!(!a.readout.live && a.readout.reading.is_some());
    assert!(a.redetect_due() && !a.redetect_due());
    // a loss of telemetry never clears the overload
    assert_eq!(
        a.readout.active,
        vec![Condition::Overload, Condition::TelemetryLost]
    );
    let fine = Reading {
        pins: [Pin {
            millivolts: 12_000,
            milliamps: 8_000,
        }; 6],
    };
    a.sample(&Ok(fine), None, &mut lc, &t, "t", at(20));
    assert!(a.readout.active.is_empty());
    assert_eq!(a.logbook.lines.back().unwrap().hue, Hue::Green);
    assert_eq!(a.readout.samples, 15);
}

#[test]
fn peaks_rise_and_reset() {
    let mut a = app([9.0, 5.0, 5.0, 5.0, 5.0, 5.0]);
    let low = Reading {
        pins: [Pin {
            millivolts: 12_000,
            milliamps: 1_000,
        }; 6],
    };
    a.history.push_hist(&low);
    assert_eq!(a.history.peaks[0], 9_000);
    assert_eq!(val(a.history.peak_balance), 9.0 / 5.0);
    for _ in 0..400 {
        a.history.push_hist(&low);
    }
    assert_eq!(a.history.watts.len(), 300);
    assert_eq!(a.history.watts[0], 72);
    a.on_key(Key::Char('r'), false, "t");
    assert_eq!(a.history.peaks, [0; 6]);
    assert_eq!(a.history.peak_watts, Number::zero());
    assert_eq!(a.history.peak_balance, Number::zero());
    assert_eq!(a.history.pins[0].len(), 300);
}

#[test]
fn sampling_waits_while_paused() {
    let mut a = app([8.0; 6]);
    let at = |s: u64| Instant::at(Duration::from_secs(s));
    assert!(a.outlook.sample_due(at(5), at(5)));
    assert!(!a.outlook.sample_due(at(4), at(5)));
    a.outlook.paused = true;
    assert!(!a.outlook.sample_due(at(9), at(5)));
    assert_eq!(a.outlook.poll_time(), Duration::from_millis(150));
    a.outlook.interval = Duration::from_millis(100);
    assert_eq!(a.outlook.poll_time(), Duration::from_millis(100));
}

#[test]
fn shown_decimals_are_those_of_doubles() {
    // 8.35 lies just below the half as a double
    let a = app([8.35, 0.0, 0.0, 0.0, 0.0, 0.0]);
    assert!(line(&connector_line(&a.readout, &COLOR)).contains("8.3 A"));
    // 1.33 is the warning ratio, and not above it
    let g = |hi: f64, lo: f64| {
        let a = app([hi, lo, lo, lo, lo, lo]);
        balance_gauge(&a.readout, a.history.peak_balance, &COLOR).label
    };
    assert_eq!(g(1.33, 1.0), "1.33×  NORMAL");
    assert_eq!(g(1.331, 1.0), "1.33×  WARN");
    assert_eq!(g(1.5, 1.0), "1.50×  WARN");
    assert_eq!(g(1.501, 1.0), "1.50×  ALARM");
}

#[test]
fn peaks_are_shown_from_zero() {
    let mut a = app([8.0; 6]);
    a.on_key(Key::Char('r'), false, "t");
    let g = balance_gauge(&a.readout, a.history.peak_balance, &COLOR);
    assert!(g.title.contains("peak 0.00×"));
}

#[test]
fn power_close_to_the_limit_is_colored() {
    let hue = |draw: f64, limit: f64| {
        let stat = GpuStat {
            pci: "a".into(),
            util: None,
            draw_w: Some(num(draw)),
            limit_w: Some(num(limit)),
            temp_c: None,
            fan: None,
        };
        gpu_line(&Some(stat), &COLOR)
            .iter()
            .map(|s| s.style.fg)
            .collect::<Vec<Option<Hue>>>()
    };
    assert!(hue(583.0, 600.0).contains(&Some(Hue::Red)));
    assert!(!hue(582.0, 600.0).contains(&Some(Hue::Red)));
    assert!(hue(511.0, 600.0).contains(&Some(Hue::Yellow)));
    assert!(!hue(510.0, 600.0).contains(&Some(Hue::Yellow)));
}
