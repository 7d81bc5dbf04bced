use astral_watch::clock::{Duration, Instant};
use astral_watch::config::AlertPolicy;
use astral_watch::lifecycle::{fmt_duration, Condition, Event, Lifecycle};

fn policy(confirm: u32, resolve: u32, repeat_min: u64) -> AlertPolicy {
    AlertPolicy {
        confirm_samples: confirm,
        resolve_samples: resolve,
        repeat_minutes: repeat_min,
    }
}

fn start() -> Instant {
    Instant::at(Duration::from_secs(1_000))
}

fn overload() -> (Condition, String) {
    (Condition::Overload, "OVERLOAD pins 1+2 >9.2A".into())
}

fn lost() -> (Condition, String) {
    (Condition::TelemetryLost, "read failed".into())
}

#[test]
fn raises_after_confirm_consecutive_samples() {
    let mut lc = Lifecycle::new(policy(3, 5, 0));
    let t = start();
    assert!(lc.observe(t, &[overload()]).is_empty());
    assert!(lc.observe(t, &[overload()]).is_empty());
    let ev = lc.observe(t, &[overload()]);
    assert!(
        matches!(
            &ev[..],
            [Event::Raised {
                condition: Condition::Overload,
                ..
            }]
        ),
        "{ev:?}"
    );
    // already active: no further raise
    assert!(lc.observe(t, &[overload()]).is_empty());
}

#[test]
fn duty_cycled_fault_still_confirms() {
    // overload present 2 of every 3 samples: a real sustained hazard (the connector
    // heats on average current) that strict consecutive-counting would never confirm
    let mut lc = Lifecycle::new(policy(3, 5, 0));
    let t = start();
    let mut raised = false;
    for i in 0..9 {
        let sample = if i % 3 == 2 { vec![] } else { vec![overload()] };
        if lc
            .observe(t, &sample)
            .iter()
            .any(|e| matches!(e, Event::Raised { .. }))
        {
            raised = true;
            break;
        }
    }
    assert!(raised, "majority window must confirm a 2/3-duty fault");
}

#[test]
fn isolated_glitches_do_not_raise() {
    let mut lc = Lifecycle::new(policy(3, 5, 0));
    let t = start();
    // single-sample glitches separated by clean stretches: 1 of 5 in the window
    for _ in 0..10 {
        assert!(
            lc.observe(t, &[overload()]).is_empty(),
            "isolated glitch raised"
        );
        for _ in 0..6 {
            assert!(lc.observe(t, &[]).is_empty());
        }
    }
}

#[test]
fn confirm_one_raises_immediately() {
    let mut lc = Lifecycle::new(policy(1, 1, 0));
    let ev = lc.observe(start(), &[overload()]);
    assert!(matches!(&ev[..], [Event::Raised { .. }]));
}

#[test]
fn resolves_after_clean_samples_with_duration() {
    let mut lc = Lifecycle::new(policy(1, 2, 0));
    let t0 = start();
    lc.observe(t0, &[overload()]);
    let t1 = t0.after(Duration::from_secs(90));
    assert!(
        lc.observe(t1, &[]).is_empty(),
        "one clean sample is not resolution"
    );
    let ev = lc.observe(t1, &[]);
    match &ev[..] {
        [Event::Resolved {
            condition: Condition::Overload,
            active_for,
        }] => assert_eq!(*active_for, Duration::from_secs(90)),
        other => panic!("expected resolve, got {other:?}"),
    }
    // and it can raise again afterwards
    assert!(!lc.observe(t1, &[overload()]).is_empty());
}

#[test]
fn telemetry_loss_does_not_resolve_an_active_alert() {
    // the GPU falling off the bus is a plausible *consequence* of connector damage —
    // an unreachable stretch must never produce "OVERLOAD resolved"
    let mut lc = Lifecycle::new(policy(1, 3, 0));
    let t = start();
    lc.observe(t, &[overload()]);
    for _ in 0..50 {
        let ev = lc.observe(t, &[lost()]);
        assert!(
            !ev.iter().any(|e| matches!(
                e,
                Event::Resolved {
                    condition: Condition::Overload,
                    ..
                }
            )),
            "no-data samples resolved an overload: {ev:?}"
        );
    }
    // telemetry returns, genuinely clean: now it may resolve
    lc.observe(t, &[]);
    lc.observe(t, &[]);
    let ev = lc.observe(t, &[]);
    assert!(
        ev.iter().any(|e| matches!(
            e,
            Event::Resolved {
                condition: Condition::Overload,
                ..
            }
        )),
        "{ev:?}"
    );
}

#[test]
fn flaky_bus_starves_neither_overload_nor_telemetry_alerts() {
    // alternate reads fail while a genuine overload persists: both the overload and
    // the telemetry trouble must confirm — this exact pattern produced zero events
    // under strict consecutive-counting with clean-on-unknown semantics
    let mut lc = Lifecycle::new(policy(3, 20, 0));
    let t = start();
    let mut raised = Vec::new();
    for i in 0..20 {
        let sample = if i % 2 == 0 {
            vec![overload()]
        } else {
            vec![lost()]
        };
        for ev in lc.observe(t, &sample) {
            if let Event::Raised { condition, .. } = ev {
                raised.push(condition);
            }
        }
    }
    assert!(
        raised.contains(&Condition::Overload),
        "overload starved: {raised:?}"
    );
    assert!(
        raised.contains(&Condition::TelemetryLost),
        "telemetry-lost starved: {raised:?}"
    );
}

#[test]
fn active_alert_repeats_on_interval_with_latest_detail() {
    let mut lc = Lifecycle::new(policy(1, 1, 10));
    let t0 = start();
    lc.observe(t0, &[overload()]);
    // 9 minutes in: too early
    assert!(lc
        .observe(t0.after(Duration::from_secs(9 * 60)), &[overload()])
        .is_empty());
    let worse = (Condition::Overload, "OVERLOAD pins 1+2+3 >9.2A".to_string());
    let ev = lc.observe(t0.after(Duration::from_secs(10 * 60)), &[worse]);
    match &ev[..] {
        [Event::Repeated {
            detail, active_for, ..
        }] => {
            assert!(detail.contains("1+2+3"), "repeat carries latest detail");
            assert_eq!(*active_for, Duration::from_secs(600));
        }
        other => panic!("expected repeat, got {other:?}"),
    }
    // interval restarts after each repeat
    assert!(lc
        .observe(t0.after(Duration::from_secs(19 * 60)), &[overload()])
        .is_empty());
}

#[test]
fn repeat_zero_means_notify_once() {
    let mut lc = Lifecycle::new(policy(1, 1, 0));
    let t0 = start();
    lc.observe(t0, &[overload()]);
    assert!(lc
        .observe(t0.after(Duration::from_secs(86_400)), &[overload()])
        .is_empty());
}

#[test]
fn huge_repeat_minutes_does_not_overflow() {
    let mut lc = Lifecycle::new(policy(1, 1, u64::MAX));
    let t0 = start();
    lc.observe(t0, &[overload()]);
    assert!(lc
        .observe(t0.after(Duration::from_secs(86_400)), &[overload()])
        .is_empty());
}

#[test]
fn conditions_are_independent() {
    let mut lc = Lifecycle::new(policy(2, 1, 0));
    let t = start();
    lc.observe(t, &[overload(), lost()]);
    let ev = lc.observe(t, &[overload(), lost()]);
    assert_eq!(ev.len(), 2, "{ev:?}");
    // telemetry recovers and stays clean while the overload persists
    let ev = lc.observe(t, &[overload()]);
    assert!(
        matches!(
            &ev[..],
            [Event::Resolved {
                condition: Condition::TelemetryLost,
                ..
            }]
        ),
        "{ev:?}"
    );
}

#[test]
fn event_display_is_readable() {
    let raised = Event::Raised {
        condition: Condition::Overload,
        detail: "OVERLOAD pins 1+2 >9.2A".into(),
    };
    assert_eq!(raised.to_string(), "ALERT RAISED: OVERLOAD pins 1+2 >9.2A");
    let resolved = Event::Resolved {
        condition: Condition::Imbalance,
        active_for: Duration::from_secs(3722),
    };
    assert_eq!(
        resolved.to_string(),
        "ALERT RESOLVED: IMBALANCE clear after 1h02m"
    );
}

#[test]
fn duration_formats() {
    assert_eq!(fmt_duration(Duration::from_secs(42)), "42s");
    assert_eq!(fmt_duration(Duration::from_secs(302)), "5m02s");
    assert_eq!(fmt_duration(Duration::from_secs(4020)), "1h07m");
}

#[test]
fn a_repeat_is_readable() {
    let repeated = Event::Repeated {
        condition: Condition::Disconnected,
        detail: "DISCONNECTED? pins 3 ~0A under load".into(),
        active_for: Duration::from_secs(605),
    };
    assert_eq!(
        repeated.to_string(),
        "ALERT ACTIVE 10m05s: DISCONNECTED? pins 3 ~0A under load"
    );
}

#[test]
fn a_majority_of_the_window_raises_and_less_does_not() {
    // three of the last five raise; two of five never do
    let seen = |pattern: &[bool]| {
        let mut lc = Lifecycle::new(policy(3, 5, 0));
        let mut raised = false;
        for &p in pattern {
            let sample = if p { vec![overload()] } else { vec![] };
            raised |= !lc.observe(start(), &sample).is_empty();
        }
        raised
    };
    assert!(seen(&[true, false, true, false, true]));
    assert!(!seen(&[true, false, false, true, false, false, true]));
}

#[test]
fn lost_samples_neither_count_nor_reset_the_window() {
    let mut lc = Lifecycle::new(policy(3, 5, 0));
    let t = start();
    let raised = |ev: Vec<Event>| {
        ev.iter().any(|e| {
            matches!(
                e,
                Event::Raised {
                    condition: Condition::Overload,
                    ..
                }
            )
        })
    };
    for sample in [
        vec![overload()],
        vec![lost()],
        vec![],
        vec![lost()],
        vec![lost()],
        vec![overload()],
        vec![],
        vec![lost()],
    ] {
        assert!(!raised(lc.observe(t, &sample)));
    }
    // the last five known samples are now seen, clean, seen, clean, seen
    assert!(raised(lc.observe(t, &[overload()])));
}

#[test]
fn repeats_count_from_the_last_announcement() {
    let mut lc = Lifecycle::new(policy(1, 50, 10));
    let at = |s: u64| Instant::at(Duration::from_secs(1_000 + s));
    let repeat = |ev: Vec<Event>| match &ev[..] {
        [Event::Repeated { active_for, .. }] => Some(*active_for),
        [] => None,
        other => panic!("{other:?}"),
    };
    assert_eq!(lc.observe(at(0), &[overload()]).len(), 1);
    assert_eq!(repeat(lc.observe(at(599), &[overload()])), None);
    assert_eq!(repeat(lc.observe(at(700), &[])), None);
    assert_eq!(
        repeat(lc.observe(at(800), &[overload()])),
        Some(Duration::from_secs(800))
    );
    assert_eq!(repeat(lc.observe(at(1_399), &[overload()])), None);
    assert_eq!(
        repeat(lc.observe(at(1_400), &[overload()])),
        Some(Duration::from_secs(1_400))
    );
}
