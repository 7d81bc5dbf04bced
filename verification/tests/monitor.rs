use astral_watch::alert::Thresholds;
use astral_watch::cards::GpuInfo;
use astral_watch::clock::{Duration, Instant};
use astral_watch::config::AlertPolicy;
use astral_watch::decode::{Pin, Reading};
use astral_watch::double::Number;
use astral_watch::i2c::Detect;
use astral_watch::lifecycle::{Event, Lifecycle};
use astral_watch::metrics::Metrics;
use astral_watch::monitor::{
    card_lines, gpu_line, interval_warning, listen_address, logging_line, next_nap, no_asus,
    parse_interval, parse_max_mb, parse_u16, reattach, record_events, record_sample, Monitor,
    Waiting,
};

fn secs(x: f64) -> Number {
    Number::from_bits(x.to_bits())
}

#[test]
fn parse_u16_accepts_hex_and_decimal() {
    assert_eq!(parse_u16("0x2b").unwrap(), 0x2b);
    assert_eq!(parse_u16("0X2B").unwrap(), 0x2b);
    assert_eq!(parse_u16(" 43 ").unwrap(), 43);
    assert!(parse_u16("zz").is_err());
    assert!(parse_u16("0x10000").is_err());
}

#[test]
fn parse_u16_says_what_is_wrong() {
    assert_eq!(
        parse_u16("").unwrap_err(),
        "cannot parse integer from empty string"
    );
    assert_eq!(parse_u16("zz").unwrap_err(), "invalid digit found in string");
    assert_eq!(
        parse_u16("65536").unwrap_err(),
        "number too large to fit in target type"
    );
}

#[test]
fn interval_rejects_nonpositive_and_nan() {
    assert!(parse_interval(secs(-1.0)).is_err());
    assert!(parse_interval(secs(0.0)).is_err());
    assert!(parse_interval(secs(f64::NAN)).is_err());
    assert!(parse_interval(secs(f64::INFINITY)).is_err());
    assert_eq!(
        parse_interval(secs(0.5)).unwrap(),
        Duration::from_millis(500)
    );
    assert_eq!(
        parse_interval(secs(-1.0)).unwrap_err(),
        "--interval must be a positive number of seconds (got -1)"
    );
}

#[test]
fn pauses_are_rounded_to_a_nanosecond() {
    for x in [0.1, 0.3, 1.0 / 3.0, 2.5e-9, 3.5e-9, 1e-10, 0.05, 123.456, 1e12] {
        let d = std::time::Duration::from_secs_f64(x);
        assert_eq!(parse_interval(secs(x)).unwrap().nanos, d.as_nanos(), "{x}");
    }
    assert_eq!(
        parse_interval(secs(-1e-300)).unwrap_err(),
        format!("--interval must be a positive number of seconds (got {})", -1e-300)
    );
}

#[test]
fn fast_sampling_is_warned_about() {
    assert_eq!(
        interval_warning(secs(0.01)).unwrap(),
        "# warning: --interval 0.01 hammers the GPU i2c bus (shared with display traffic)"
    );
    assert_eq!(interval_warning(secs(0.05)), None);
    assert!(interval_warning(secs(0.04999999999999999)).is_some());
}

#[test]
fn rotation_size_is_checked() {
    assert_eq!(parse_max_mb(secs(50.0)), Ok(52_428_800));
    assert_eq!(parse_max_mb(secs(0.0)), Ok(0));
    assert_eq!(parse_max_mb(secs(0.3)), Ok((0.3 * 1024.0 * 1024.0) as u64));
    assert_eq!(parse_max_mb(secs(1e300)), Ok(u64::MAX));
    assert_eq!(
        parse_max_mb(secs(-0.5)).unwrap_err(),
        "--max-mb must be >= 0 (got -0.5); 0 disables rotation"
    );
    assert!(parse_max_mb(Number::NotANumber).is_err());
    assert_eq!(
        logging_line("f.csv", secs(50.0), 52_428_800, 5),
        "# logging -> f.csv  (Ctrl-C to stop)  rotate>50MB keep=5"
    );
    assert_eq!(
        logging_line("f.csv", secs(0.0), 0, 5),
        "# logging -> f.csv  (Ctrl-C to stop)"
    );
}

#[test]
fn listen_address_by_mode() {
    let s = |x: &str| Some(x.to_string());
    assert_eq!(listen_address(true, s("a:1"), s("b:2")), s("a:1"));
    assert_eq!(listen_address(true, None, s("b:2")), s("b:2"));
    assert_eq!(listen_address(true, None, None), s("127.0.0.1:9942"));
    assert_eq!(listen_address(false, None, s("b:2")), s("b:2"));
    assert_eq!(listen_address(false, None, None), None);
}

#[test]
fn gpus_are_listed() {
    let g = |vendor: u16, device: u16| GpuInfo {
        pci: "0000:0b:00.0".to_string(),
        subsystem_vendor: vendor,
        subsystem_device: device,
    };
    assert_eq!(
        gpu_line(&g(0x1043, 0x89ec)),
        "# GPU 0000:0b:00.0  subsystem 1043:89ec  -> ROG Astral RTX 5080"
    );
    assert_eq!(
        gpu_line(&g(0x19, 0x1)),
        "# GPU 0000:0b:00.0  subsystem 0019:0001  -> unknown — not in card DB (still works if the chip answers)"
    );
    assert!(no_asus(&vec![g(0x10de, 1)]));
    assert!(!no_asus(&vec![g(0x10de, 1), g(0x1043, 1)]));
    assert!(!no_asus(&vec![]));
    assert_eq!(
        card_lines("0000:0b:00.0", None, 2),
        vec![
            "# monitoring 0000:0b:00.0 (unknown SKU)",
            "# note: 2 NVIDIA GPUs present — only 0000:0b:00.0 is monitored; pass --bus N to pick another",
        ]
    );
    assert_eq!(card_lines("p", Some("M"), 1), vec!["# monitoring p (M)"]);
}

#[test]
fn long_sleeps_are_cut_into_naps() {
    let (nap, left) = next_nap(Duration::from_millis(450));
    assert_eq!(
        (nap, left),
        (Duration::from_millis(200), Duration::from_millis(250))
    );
    assert_eq!(
        next_nap(Duration::from_millis(50)),
        (Duration::from_millis(50), Duration::from_millis(0))
    );
}

fn policy() -> AlertPolicy {
    AlertPolicy {
        confirm_samples: 2,
        resolve_samples: 1,
        repeat_minutes: 0,
    }
}

fn at(s: u64) -> Instant {
    Instant::at(Duration::from_secs(s))
}

#[test]
fn waiting_announces_each_cause_once_and_alerts() {
    let mut w = Waiting::new();
    let mut lc = Lifecycle::new(policy());
    let (line, a) = w.scanned(Detect::NoBuses, &mut lc, "T", at(0));
    assert_eq!(
        line.unwrap(),
        "# no NVIDIA i2c buses found — is i2c-dev loaded?  try `sudo modprobe i2c-dev`  (will keep checking)"
    );
    assert!(a.events.is_empty());
    let (line, a) = w.scanned(Detect::NoBuses, &mut lc, "T", at(5));
    assert_eq!(line, None);
    assert_eq!(a.lines.len(), 1);
    assert!(a.lines[0].starts_with("T  ALERT RAISED: waiting for GPU telemetry: no NVIDIA"));
    assert_eq!(a.messages[0].kind, "raised");
    assert_eq!(a.messages[0].condition, "telemetry_lost");
    let (line, _) = w.scanned(Detect::PermissionDenied, &mut lc, "T", at(10));
    assert!(line.unwrap().contains("permission denied"));
    let (line, _) = w.scanned(Detect::NoTelemetry, &mut lc, "T", at(15));
    assert!(line.unwrap().contains("deeply idle"));
}

fn reading(amps: [u16; 6]) -> Reading {
    Reading {
        pins: amps.map(|a| Pin {
            millivolts: 12_000,
            milliamps: a,
        }),
    }
}

fn monitor(display: bool, csv: bool) -> Monitor {
    Monitor::new(
        Lifecycle::new(policy()),
        Thresholds::default(),
        true,
        display,
        csv,
    )
}

#[test]
fn a_good_sample_reaches_every_sink() {
    let mut m = monitor(true, true);
    let hot = Ok(reading([9_500, 8_000, 8_000, 8_000, 8_000, 8_000]));
    let o = m.sample(&hot, "T", "t", at(0));
    assert_eq!(
        o.shown.unwrap(),
        "\rt  p1 12.00V  9.50A  p2 12.00V  8.00A  p3 12.00V  8.00A  p4 12.00V  8.00A  p5 12.00V  8.00A  p6 12.00V  8.00A  |  49.5A ~ 594W bal 1.19  !! OVERLOAD pins 1 >9.2A"
    );
    assert_eq!(
        o.row.unwrap(),
        "T,12.000,9.500,12.000,8.000,12.000,8.000,12.000,8.000,12.000,8.000,12.000,8.000,49.500,594,1.188,OVERLOAD pins 1 >9.2A\n"
    );
    assert_eq!(o.note.unwrap(), "ALERT: OVERLOAD pins 1 >9.2A");
    assert!(o.announcements.events.is_empty());
    let o = m.sample(&hot, "T", "t", at(1));
    assert!(matches!(
        &o.announcements.events[..],
        [Event::Raised { .. }]
    ));
    assert_eq!(
        o.announcements.lines,
        vec!["\nt  ALERT RAISED: OVERLOAD pins 1 >9.2A"]
    );
    let mut quiet = monitor(false, false);
    let o = quiet.sample(&hot, "T", "t", at(0));
    assert!(o.shown.is_none() && o.row.is_none() && o.note.is_none());
    let o = quiet.sample(&hot, "T", "t", at(0));
    assert_eq!(
        o.announcements.lines,
        vec!["T  ALERT RAISED: OVERLOAD pins 1 >9.2A"]
    );
}

#[test]
fn unusable_samples_are_recorded_as_what_they_are() {
    let mut m = monitor(true, true);
    let o = m.sample(&Ok(Reading {
        pins: [Pin { millivolts: 0, milliamps: 0 }; 6],
    }), "T", "t", at(0));
    assert_eq!(
        o.shown.unwrap(),
        "\nt  *** implausible reading (chip answered; wrong device or GPU resetting?) ***"
    );
    assert_eq!(
        o.row.unwrap(),
        "T,,,,,,,,,,,,,,,,IMPLAUSIBLE_READING (chip answered but data failed sanity checks)\n"
    );
    assert_eq!(o.note.unwrap(), "IMPLAUSIBLE_READING");
    let o = m.sample(&Err("bus, gone".to_string()), "T", "t", at(0));
    assert_eq!(o.shown.unwrap(), "\nt  *** read failed: bus, gone ***");
    assert_eq!(
        o.row.unwrap(),
        "T,,,,,,,,,,,,,,,,\"GPU_UNREACHABLE (read failed: bus, gone - GPU may have fallen off the bus)\"\n"
    );
    assert_eq!(
        o.note.unwrap(),
        "GPU_UNREACHABLE (read failed: bus, gone)"
    );
    // and both are telemetry lost to the lifecycle
    assert_eq!(o.announcements.messages[0].condition, "telemetry_lost");
}

#[test]
fn a_failing_csv_is_mirrored_until_it_recovers() {
    let mut m = monitor(false, true);
    let note = Some("ALERT: x".to_string());
    assert!(m.wrote_row(None, &note, "T").is_empty());
    assert_eq!(
        m.wrote_row(Some("disk full"), &note, "T"),
        vec![
            "T  csv write failed: disk full (mirroring per-sample alerts to stderr until logging recovers)",
            "T  ALERT: x",
        ]
    );
    assert_eq!(m.wrote_row(Some("disk full"), &note, "T"), vec!["T  ALERT: x"]);
    assert!(m.wrote_row(Some("disk full"), &None, "T").is_empty());
    assert_eq!(m.wrote_row(None, &None, "T"), vec!["T  csv logging recovered"]);
    assert!(!m.log_failing);
}

#[test]
fn sustained_failure_asks_for_detection() {
    let mut m = monitor(false, false);
    for _ in 0..9 {
        m.sample(&Err("x".to_string()), "T", "t", at(0));
        assert!(!m.redetect_due());
    }
    m.sample(&Err("x".to_string()), "T", "t", at(0));
    assert!(m.redetect_due());
    assert!(!m.redetect_due());
    let mut pinned = monitor(false, false);
    pinned.auto = false;
    for _ in 0..30 {
        pinned.sample(&Err("x".to_string()), "T", "t", at(0));
        assert!(!pinned.redetect_due());
    }
    assert_eq!(
        reattach(3, Detect::Found(9), "T"),
        (9, Some("T  i2c bus changed 3 -> 9, reattached".to_string()))
    );
    assert_eq!(reattach(3, Detect::Found(3), "T"), (3, None));
    assert_eq!(reattach(3, Detect::NoTelemetry, "T"), (3, None));
}

#[test]
fn metrics_follow_the_samples() {
    let mut m = monitor(false, false);
    let mut metrics = Metrics::new();
    let hot = Ok(reading([9_500, 8_000, 8_000, 8_000, 8_000, 8_000]));
    for s in 0..2 {
        record_sample(&mut metrics, &hot, at(s));
        let o = m.sample(&hot, "T", "t", at(s));
        record_events(&mut metrics, &o.announcements.events);
    }
    record_sample(&mut metrics, &Err("x".to_string()), at(2));
    let text = metrics.render(at(2));
    assert!(text.contains("astral_watch_samples_total 3"));
    assert!(text.contains("astral_watch_read_failures_total 1"));
    assert!(text.contains("astral_watch_alert_active{condition=\"overload\"} 1"));
    assert!(text.contains("astral_watch_last_reading_age_seconds 1.000"));
}
