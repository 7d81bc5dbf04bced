use astral_watch::alert::Thresholds;
use astral_watch::clock::{Duration, Instant};
use astral_watch::config::{AlertPolicy, SafetyConfig};
use astral_watch::decode::{Pin, Reading, PIN_COUNT};
use astral_watch::double::Number;
use astral_watch::lifecycle::Condition;
use astral_watch::safety::{
    adopt, banner, check_limits, compute_cap_mw, current_plausible, find_device, identify,
    is_trigger, no_match_text, persist_warning, restore_step, restore_text, startup_line,
    state_dir, within, Adoption, Attempt, CapDecision, CapGuard, CapParams, CapState, Daemon,
    Engage, Restore, Search, StartRefusal, LIMIT_TOL_MW,
};

fn fraction(x: f64) -> Number {
    Number::from_bits(x.to_bits())
}

fn reading(amps: [f64; 6]) -> Reading {
    Reading {
        pins: amps.map(|a| Pin {
            millivolts: 11_970,
            milliamps: (a * 1000.0).round() as u16,
        }),
    }
}

#[test]
fn cap_lowers_to_fraction_of_default() {
    // 575W stock, 600W max, 100W min, currently at stock; 50% -> 287.5W (rounds to 287500mW)
    let d = compute_cap_mw(575_000, 575_000, 100_000, 600_000, fraction(0.5));
    assert_eq!(d, CapDecision::Apply(287_500));
}

#[test]
fn cap_never_raises_on_an_undervolted_card() {
    // user already runs a 250W undervolt; 50% of 575W = 287W is HIGHER -> must not raise
    assert_eq!(
        compute_cap_mw(575_000, 250_000, 100_000, 600_000, fraction(0.5)),
        CapDecision::Exhausted
    );
}

#[test]
fn cap_clamps_to_min_constraint() {
    // 10% of 575W = 57.5W is below the 100W floor -> clamp to 100W (still below current)
    assert_eq!(
        compute_cap_mw(575_000, 575_000, 100_000, 600_000, fraction(0.1)),
        CapDecision::Apply(100_000)
    );
}

#[test]
fn cap_exhausted_when_floor_at_or_above_current() {
    // already at the NVML floor: nothing lower to set
    assert_eq!(
        compute_cap_mw(575_000, 100_000, 100_000, 600_000, fraction(0.1)),
        CapDecision::Exhausted
    );
}

#[test]
fn cap_of_odd_fractions() {
    assert_eq!(
        compute_cap_mw(333_333, 400_000, 1, 400_000, fraction(0.5)),
        CapDecision::Apply(166_667)
    );
    assert_eq!(
        compute_cap_mw(575_000, 575_000, 100_000, 600_000, Number::NotANumber),
        CapDecision::Apply(100_000)
    );
    assert_eq!(
        compute_cap_mw(575_000, 575_000, 100_000, 600_000, Number::PosInf),
        CapDecision::Exhausted
    );
    assert_eq!(
        compute_cap_mw(575_000, 575_000, 100_000, 600_000, fraction(-1.0)),
        CapDecision::Apply(100_000)
    );
}

#[test]
fn current_plausibility_rejects_torn_reads() {
    assert!(current_plausible(&reading([8.2, 8.6, 8.3, 8.4, 8.5, 8.8])));
    // a single pin pinned at the 16-bit max (65.535A) is a torn read, not an overload
    let mut torn = [8.0; 6];
    torn[2] = 65.535;
    assert!(!current_plausible(&reading(torn)));
    // total over the connector's physical ceiling
    assert!(!current_plausible(&reading([19.0; 6])));
}

#[test]
fn triggers_respect_config() {
    let mut c = SafetyConfig::default();
    assert!(is_trigger(Condition::Overload, &c));
    assert!(is_trigger(Condition::Disconnected, &c)); // default on
    assert!(!is_trigger(Condition::Imbalance, &c)); // default off
    assert!(!is_trigger(Condition::TelemetryLost, &c)); // never
    c.trigger_disconnect = false;
    c.trigger_imbalance = true;
    assert!(!is_trigger(Condition::Disconnected, &c));
    assert!(is_trigger(Condition::Imbalance, &c));
}

#[test]
fn within_tolerance() {
    assert!(within(287_500, 287_000, LIMIT_TOL_MW));
    assert!(!within(287_500, 250_000, LIMIT_TOL_MW));
}

#[test]
fn pin_count_is_six() {
    assert_eq!(PIN_COUNT, 6);
}

#[test]
fn the_card_is_found_by_its_address_only() {
    let ids = vec![
        Some("00000000:17:00.0".to_string()),
        None,
        Some("00000000:0B:00.0".to_string()),
    ];
    assert_eq!(find_device(&vec![], 3, "0000:0b:00.0"), Search::Ask(0));
    assert_eq!(
        find_device(&ids[..2].to_vec(), 3, "0000:0b:00.0"),
        Search::Ask(2)
    );
    assert_eq!(find_device(&ids, 3, "0000:0b:00.0"), Search::Found(2));
    assert_eq!(find_device(&ids, 3, "0001:0b:00.0"), Search::NoMatch);
    assert_eq!(
        no_match_text("x"),
        "no NVML device matches the monitored card x; refusing to act (never caps device 0)"
    );
}

fn guard() -> CapGuard {
    CapGuard {
        pci: "0000:0b:00.0".to_string(),
        original_mw: 575_000,
        capped_mw: 0,
        engaged: false,
    }
}

fn params() -> CapParams {
    CapParams {
        default_mw: 575_000,
        min_mw: 100_000,
        max_mw: 600_000,
        fraction: fraction(0.5),
    }
}

fn daemon() -> Daemon {
    Daemon::new(
        guard(),
        params(),
        SafetyConfig {
            enabled: true,
            ..SafetyConfig::default()
        },
        Thresholds::default(),
        AlertPolicy {
            confirm_samples: 3,
            resolve_samples: 20,
            repeat_minutes: 0,
        },
        true,
    )
}

fn at(s: u64) -> Instant {
    Instant::at(Duration::from_secs(s))
}

fn attempt(d: &Daemon, cond: Condition, limit: u32) -> Attempt {
    match d.try_engage(cond, "T", Ok(limit)) {
        Engage::Write(a) => a,
        other => panic!("expected a write, got {other:?}"),
    }
}

#[test]
fn an_engaged_cap_is_left_alone() {
    let mut d = daemon();
    // one sample confirms two conditions, and both are tried
    let first = attempt(&d, Condition::Overload, 575_000);
    let second = attempt(&d, Condition::Disconnected, 575_000);
    assert!(d.confirm(first, "T", Ok(287_500)).1.is_some());
    let held = (d.guard.original_mw, d.guard.capped_mw);
    assert_eq!(held, (575_000, 287_500));

    let (report, state) = d.confirm(second, "U", Ok(287_500));
    assert!(report.is_none() && state.is_none());
    assert!(matches!(
        d.try_engage(Condition::Disconnected, "U", Ok(575_000)),
        Engage::Nothing
    ));
    assert!(matches!(
        d.try_engage(Condition::Disconnected, "U", Err("no driver".to_string())),
        Engage::Nothing
    ));
    assert!(d.guard.engaged);
    assert_eq!((d.guard.original_mw, d.guard.capped_mw), held);
}

#[test]
fn an_adopted_cap_is_never_written_over() {
    let (guard, _) = adopt(
        "0000:0b:00.0".to_string(),
        287_500,
        &Some(CapState {
            pci: "00000000:0B:00.0".to_string(),
            original_mw: 575_000,
            capped_mw: 287_500,
            ts: "T".to_string(),
        }),
    );
    let mut d = daemon();
    d.guard = guard;
    let hot = Ok(reading([9.5, 8.0, 8.0, 8.0, 8.0, 8.0]));
    for s in 0..30 {
        assert!(d.sample(&hot, at(s)).is_empty());
    }
    assert!(matches!(
        d.try_engage(Condition::Overload, "T", Ok(600_000)),
        Engage::Nothing
    ));
    assert_eq!((d.guard.original_mw, d.guard.capped_mw), (575_000, 287_500));
}

#[test]
fn a_confirmed_overload_engages_once() {
    let mut d = daemon();
    let hot = Ok(reading([9.5, 8.0, 8.0, 8.0, 8.0, 8.0]));
    assert!(d.sample(&hot, at(1)).is_empty());
    assert!(d.sample(&hot, at(2)).is_empty());
    assert_eq!(d.sample(&hot, at(3)), vec![Condition::Overload]);

    let attempt = attempt(&d, Condition::Overload, 575_000);
    assert_eq!(attempt.target(), 287_500);
    let (report, state) = d.confirm(attempt, "T", Ok(287_000));
    let report = report.unwrap();
    assert_eq!(
        report.line,
        "# safety: CAPPED 0000:0b:00.0 575W -> 287W (OVERLOAD)"
    );
    assert_eq!(report.message.title, "astral-watch SAFETY: power capped");
    assert_eq!(report.message.condition, "power_safety");
    assert_eq!(
        report.message.body,
        "OVERLOAD on 0000:0b:00.0 — capped 575W -> 287W to cut connector current. The fault is NOT cleared; inspect the connector. Restore: `astral-watch restore-power-limit`"
    );
    assert_eq!(
        state,
        Some(CapState {
            pci: "0000:0b:00.0".to_string(),
            original_mw: 575_000,
            capped_mw: 287_000,
            ts: "T".to_string(),
        })
    );
    assert!(d.guard.engaged);
    // latched: whatever is read from now on, nothing is tried again
    for s in 4..60 {
        assert!(d.sample(&hot, at(s)).is_empty());
    }
    let cool = Ok(reading([4.0; 6]));
    for s in 60..120 {
        assert!(d.sample(&cool, at(s)).is_empty());
    }
    for s in 120..130 {
        assert!(d.sample(&hot, at(s)).is_empty());
    }
    assert!(d.guard.engaged);
    assert_eq!(
        d.guard.farewell().unwrap(),
        "# safety: EXITING WITH POWER CAP STILL ENGAGED on 0000:0b:00.0 (now 287W). A sustained overload was detected and the cap is LATCHED — inspect the connector, then run `astral-watch restore-power-limit` or reboot to restore 575W."
    );
}

#[test]
fn failed_attempts_leave_the_card_unprotected_and_say_so() {
    let mut d = daemon();
    match d.try_engage(Condition::Overload, "T", Err("no driver".to_string())) {
        Engage::Report(r) => {
            assert_eq!(
                r.line,
                "# safety: cannot read the current power limit to cap: no driver"
            );
            assert_eq!(
                r.message.body,
                "OVERLOAD on 0000:0b:00.0 but reading the power limit failed: no driver"
            );
        }
        other => panic!("{other:?}"),
    }
    match d.try_engage(Condition::Overload, "T", Ok(250_000)) {
        Engage::Report(r) => assert_eq!(
            r.line,
            "# safety: cannot reduce power further on 0000:0b:00.0 (limit 250W already at/below the safe target) — likely a hardware fault; inspect the connector"
        ),
        other => panic!("{other:?}"),
    }
    let a = attempt(&d, Condition::Overload, 575_000);
    let (r, st) = d.confirm(a, "T", Ok(575_000));
    assert_eq!(
        r.unwrap().line,
        "# safety: cap DID NOT STICK on 0000:0b:00.0 (asked 287W, limit now 575W) — NOT protected"
    );
    assert!(st.is_none() && !d.guard.engaged);
    let a = attempt(&d, Condition::Overload, 575_000);
    let (r, st) = d.confirm(a, "T", Err("EPERM".to_string()));
    assert_eq!(
        r.unwrap().line,
        "# safety: set_power_management_limit failed: EPERM"
    );
    assert!(st.is_none() && !d.guard.engaged);
    assert_eq!(d.guard.farewell(), None);
    assert_eq!(
        persist_warning("full"),
        "# safety: warning: could not persist cap state: full (crash recovery degraded)"
    );
}

#[test]
fn torn_and_failed_reads_never_cap() {
    let mut d = daemon();
    let mut torn = [8.0; 6];
    torn[2] = 65.535;
    for s in 0..9 {
        assert!(d.sample(&Ok(reading(torn)), at(s)).is_empty());
    }
    assert!(!d.redetect_due());
    assert!(d.sample(&Err("gone".to_string()), at(9)).is_empty());
    assert!(d.redetect_due());
    assert!(!d.redetect_due());
}

#[test]
fn a_restart_adopts_its_own_cap() {
    let st = |pci: &str| {
        Some(CapState {
            pci: pci.to_string(),
            original_mw: 575_000,
            capped_mw: 287_500,
            ts: "T".to_string(),
        })
    };
    let (g, a) = adopt(
        "0000:0b:00.0".to_string(),
        287_500,
        &st("00000000:0B:00.0"),
    );
    assert!(g.engaged);
    assert_eq!((g.original_mw, g.capped_mw), (575_000, 287_500));
    assert_eq!(
        a,
        Adoption::Adopted("# safety: adopted an existing cap from /run/astral-watch-safety/cap-state.json (orig 575W, cap 287W) — latched; restore with `astral-watch restore-power-limit`".to_string())
    );
    let (g, a) = adopt("0000:0b:00.0".to_string(), 575_000, &st("0000:17:00.0"));
    assert!(!g.engaged && a == Adoption::Stale);
    let (g, a) = adopt("0000:0b:00.0".to_string(), 575_000, &None);
    assert!(!g.engaged && a == Adoption::Nothing);
    assert_eq!(g.original_mw, 575_000);
}

#[test]
fn the_daemon_refuses_to_start_blind() {
    let armed = SafetyConfig {
        enabled: true,
        ..SafetyConfig::default()
    };
    assert_eq!(
        identify(&SafetyConfig::default(), Some("x".to_string())),
        Err(StartRefusal::Disarmed)
    );
    assert_eq!(identify(&armed, None), Err(StartRefusal::UnknownCard));
    assert_eq!(identify(&armed, Some("x".to_string())), Ok("x".to_string()));
    assert!(StartRefusal::Disarmed.to_string().contains("enabled = true"));
    assert!(StartRefusal::UnknownCard.to_string().contains("PCI id"));
    assert!(check_limits("x", 575_000, 100_000, 600_000).is_ok());
    assert_eq!(
        check_limits("x", 575_000, 600_000, 600_000)
            .unwrap_err()
            .to_string(),
        "NVML power-limit constraints look implausible for x (default 575W, range 600-600W) — refusing to act"
    );
    assert!(check_limits("x", 700_000, 100_000, 600_000).is_err());
    assert!(check_limits("x", 40_000, 10_000, 600_000).is_err());
}

#[test]
fn startup_is_announced() {
    assert_eq!(
        startup_line("x", &params(), 575_000, &SafetyConfig::default()),
        "# safety: x  limit 575W  default 575W  range 100-600W  -> on overload cap to 287W  (latched; trigger disconnect=true imbalance=false)"
    );
    assert!(startup_line("x", &params(), 200_000, &SafetyConfig::default())
        .contains("no headroom (already at/below target)"));
    assert_eq!(banner()[1], "# astral-watch SAFETY DAEMON");
    assert_eq!(state_dir(), "/run/astral-watch-safety");
}

#[test]
fn restoring_undoes_only_its_own_cap() {
    let st = CapState {
        pci: "x".to_string(),
        original_mw: 575_000,
        capped_mw: 287_500,
        ts: "T".to_string(),
    };
    assert_eq!(restore_step(&st, 287_000), Restore::Write(575_000));
    assert_eq!(restore_step(&st, 300_000), Restore::LeaveAlone);
    assert_eq!(
        restore_text(&None, Restore::LeaveAlone),
        "no astral-watch power cap is recorded (/run/astral-watch-safety/cap-state.json absent) — nothing to restore. A reboot clears any volatile cap."
    );
    let some = Some(st);
    assert_eq!(
        restore_text(&some, Restore::Write(575_000)),
        "restored x power limit to 575W"
    );
    assert_eq!(
        restore_text(&some, Restore::LeaveAlone),
        "the power limit on x is no longer the value astral-watch set (287W) — another tool changed it; leaving it as-is"
    );
}
