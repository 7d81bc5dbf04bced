use astral_watch::clock::{Duration, Instant};
use astral_watch::decode::{Pin, Reading};
use astral_watch::lifecycle::{Condition, Event};
use astral_watch::metrics::Metrics;

fn reading(amps: f64) -> Reading {
    Reading {
        pins: [Pin {
            millivolts: 12_000,
            milliamps: (amps * 1000.0).round() as u16,
        }; 6],
    }
}

fn now() -> Instant {
    Instant::at(Duration::from_secs(100))
}

#[test]
fn renders_reading_gauges() {
    let mut m = Metrics::new();
    m.on_good_sample(&reading(8.0), now());
    let text = m.render(now());
    assert!(
        text.contains("astral_watch_pin_amps{pin=\"1\"} 8"),
        "{text}"
    );
    assert!(
        text.contains("astral_watch_pin_amps{pin=\"6\"} 8"),
        "{text}"
    );
    assert!(text.contains("astral_watch_total_amps 48"), "{text}");
    assert!(text.contains("astral_watch_total_watts 576"), "{text}");
    assert!(text.contains("astral_watch_balance_ratio 1"), "{text}");
    assert!(text.contains("astral_watch_up 1"), "{text}");
    assert!(
        text.contains("astral_watch_last_reading_age_seconds"),
        "{text}"
    );
    assert!(text.contains("astral_watch_samples_total 1"), "{text}");
}

#[test]
fn no_reading_yet_still_renders_up_and_counters() {
    let m = Metrics::new();
    let text = m.render(now());
    assert!(!text.contains("astral_watch_pin_volts"), "{text}");
    assert!(!text.contains("astral_watch_balance_ratio"), "{text}");
    assert!(text.contains("astral_watch_up 0"), "{text}");
    assert!(text.contains("astral_watch_samples_total 0"), "{text}");
    assert!(text.contains("astral_watch_build_info"), "{text}");
}

#[test]
fn failures_flip_up_but_keep_last_reading() {
    let mut m = Metrics::new();
    m.on_good_sample(&reading(8.0), now());
    m.on_read_error();
    m.on_implausible_sample();
    let text = m.render(now());
    assert!(text.contains("astral_watch_up 0"), "{text}");
    // the last good reading stays visible; staleness says how old it is
    assert!(
        text.contains("astral_watch_pin_amps{pin=\"1\"} 8"),
        "{text}"
    );
    assert!(text.contains("astral_watch_samples_total 3"), "{text}");
    assert!(
        text.contains("astral_watch_read_failures_total 1"),
        "{text}"
    );
    assert!(
        text.contains("astral_watch_implausible_readings_total 1"),
        "{text}"
    );
}

#[test]
fn dead_pin_under_load_renders_infinite_balance_not_absence() {
    let mut m = Metrics::new();
    let mut r = reading(9.0);
    r.pins[0].milliamps = 0; // dead pin, 45 A total — the pre-melt scenario
    m.on_good_sample(&r, now());
    let text = m.render(now());
    assert!(
        text.contains("astral_watch_balance_ratio +Inf"),
        "balance must not vanish at maximal imbalance: {text}"
    );

    // genuinely idle: absence is correct
    let mut m = Metrics::new();
    m.on_good_sample(&reading(0.02), now());
    assert!(!m.render(now()).contains("astral_watch_balance_ratio"));
}

#[test]
fn lifecycle_events_drive_alert_gauges_and_counters() {
    let mut m = Metrics::new();
    m.on_event(&Event::Raised {
        condition: Condition::Overload,
        detail: "x".into(),
    });
    let text = m.render(now());
    assert!(
        text.contains("astral_watch_alert_active{condition=\"overload\"} 1"),
        "{text}"
    );
    assert!(
        text.contains("astral_watch_alert_active{condition=\"imbalance\"} 0"),
        "{text}"
    );
    assert!(
        text.contains("astral_watch_alerts_raised_total{condition=\"overload\"} 1"),
        "{text}"
    );

    // repeats don't re-count; resolve clears the gauge but not the counter
    m.on_event(&Event::Repeated {
        condition: Condition::Overload,
        detail: "x".into(),
        active_for: Duration::from_secs(600),
    });
    m.on_event(&Event::Resolved {
        condition: Condition::Overload,
        active_for: Duration::from_secs(900),
    });
    let text = m.render(now());
    assert!(
        text.contains("astral_watch_alert_active{condition=\"overload\"} 0"),
        "{text}"
    );
    assert!(
        text.contains("astral_watch_alerts_raised_total{condition=\"overload\"} 1"),
        "{text}"
    );
}

#[test]
fn the_exposition_is_exact() {
    let mut m = Metrics::new();
    let mut r = reading(8.0);
    r.pins[5] = Pin {
        millivolts: 11_950,
        milliamps: 8_125,
    };
    m.on_good_sample(&r, now());
    let text = m.render(Instant::at(Duration::from_millis(101_234)));
    let want = "# HELP astral_watch_pin_volts Per-pin voltage of the 12V-2x6 connector (last reading).
# TYPE astral_watch_pin_volts gauge
astral_watch_pin_volts{pin=\"1\"} 12
astral_watch_pin_volts{pin=\"2\"} 12
astral_watch_pin_volts{pin=\"3\"} 12
astral_watch_pin_volts{pin=\"4\"} 12
astral_watch_pin_volts{pin=\"5\"} 12
astral_watch_pin_volts{pin=\"6\"} 11.95
# HELP astral_watch_pin_amps Per-pin current of the 12V-2x6 connector (last reading).
# TYPE astral_watch_pin_amps gauge
astral_watch_pin_amps{pin=\"1\"} 8
astral_watch_pin_amps{pin=\"2\"} 8
astral_watch_pin_amps{pin=\"3\"} 8
astral_watch_pin_amps{pin=\"4\"} 8
astral_watch_pin_amps{pin=\"5\"} 8
astral_watch_pin_amps{pin=\"6\"} 8.125
# HELP astral_watch_total_amps Sum of per-pin current.
# TYPE astral_watch_total_amps gauge
astral_watch_total_amps 48.125
# HELP astral_watch_total_watts Sum of per-pin power.
# TYPE astral_watch_total_watts gauge
astral_watch_total_watts 577.09375
# HELP astral_watch_balance_ratio Highest/lowest per-pin current ratio (+Inf when a pin reads ~0 A under load; absent when idle).
# TYPE astral_watch_balance_ratio gauge
astral_watch_balance_ratio 1.015625
# HELP astral_watch_last_reading_age_seconds Seconds since the last plausible reading.
# TYPE astral_watch_last_reading_age_seconds gauge
astral_watch_last_reading_age_seconds 1.234
# HELP astral_watch_up 1 when the most recent sample produced a plausible reading.
# TYPE astral_watch_up gauge
astral_watch_up 1
# HELP astral_watch_alert_active 1 while the debounced alert lifecycle holds this condition raised.
# TYPE astral_watch_alert_active gauge
astral_watch_alert_active{condition=\"overload\"} 0
astral_watch_alert_active{condition=\"disconnected\"} 0
astral_watch_alert_active{condition=\"imbalance\"} 0
astral_watch_alert_active{condition=\"telemetry_lost\"} 0
# HELP astral_watch_alerts_raised_total Debounced alerts raised since start, by condition.
# TYPE astral_watch_alerts_raised_total counter
astral_watch_alerts_raised_total{condition=\"overload\"} 0
astral_watch_alerts_raised_total{condition=\"disconnected\"} 0
astral_watch_alerts_raised_total{condition=\"imbalance\"} 0
astral_watch_alerts_raised_total{condition=\"telemetry_lost\"} 0
# HELP astral_watch_samples_total Samples attempted since start.
# TYPE astral_watch_samples_total counter
astral_watch_samples_total 1
# HELP astral_watch_read_failures_total Samples whose i2c read failed.
# TYPE astral_watch_read_failures_total counter
astral_watch_read_failures_total 0
# HELP astral_watch_implausible_readings_total Samples that decoded to implausible data.
# TYPE astral_watch_implausible_readings_total counter
astral_watch_implausible_readings_total 0
# HELP astral_watch_build_info Build metadata.
# TYPE astral_watch_build_info gauge
astral_watch_build_info{version=\"0.5.0\"} 1
";
    assert_eq!(text, want);
}

fn series(text: &str) -> Vec<&str> {
    let mut names: Vec<&str> = text
        .lines()
        .filter(|l| !l.starts_with('#'))
        .map(|l| l.split([' ', '{']).next().unwrap())
        .collect();
    names.dedup();
    names
}

#[test]
fn each_series_is_there_exactly_when_it_should_be() {
    let standing = [
        "astral_watch_up",
        "astral_watch_alert_active",
        "astral_watch_alerts_raised_total",
        "astral_watch_samples_total",
        "astral_watch_read_failures_total",
        "astral_watch_implausible_readings_total",
        "astral_watch_build_info",
    ];
    let pins = [
        "astral_watch_pin_volts",
        "astral_watch_pin_amps",
        "astral_watch_total_amps",
        "astral_watch_total_watts",
    ];
    let age = ["astral_watch_last_reading_age_seconds"];
    let mut m = Metrics::new();
    m.on_read_error();
    assert_eq!(series(&m.render(now())), standing);

    // idle: the pins are shown, the balance is not
    m.on_good_sample(&reading(0.0), now());
    m.on_implausible_sample();
    assert_eq!(
        series(&m.render(now())),
        [&pins[..], &age[..], &standing[..]].concat()
    );

    m.on_good_sample(&reading(8.0), now());
    m.on_read_error();
    assert_eq!(
        series(&m.render(now())),
        [
            &pins[..],
            &["astral_watch_balance_ratio"],
            &age[..],
            &standing[..]
        ]
        .concat()
    );
}
