use astral_watch::alert::{evaluate, evaluate_with, Alert, Thresholds};
use astral_watch::decode::{decode, Pin, Reading, RAW_LEN};
use astral_watch::double::Number;

fn num(x: f64) -> Number {
    Number::from_bits(x.to_bits())
}

fn val(n: Number) -> f64 {
    f64::from_bits(n.to_bits())
}

fn milli(x: f64) -> u16 {
    (x * 1000.0).round() as u16
}

fn reading(amps: [f64; 6]) -> Reading {
    Reading {
        pins: amps.map(|a| Pin {
            millivolts: 12_000,
            milliamps: milli(a),
        }),
    }
}

#[test]
fn healthy_balanced_has_no_alerts() {
    assert!(evaluate(&reading([8.1, 8.3, 8.2, 8.4, 8.5, 8.6])).is_empty());
}

#[test]
fn overload_flagged() {
    assert!(evaluate(&reading([9.5, 8.0, 8.0, 8.0, 8.0, 8.0]))
        .iter()
        .any(|a| matches!(a, Alert::Overload(_))));
}

#[test]
fn disconnect_flagged_under_load() {
    assert!(evaluate(&reading([0.0, 9.0, 9.0, 9.0, 9.0, 9.0]))
        .iter()
        .any(|a| matches!(a, Alert::Disconnected(_))));
}

#[test]
fn imbalance_flagged() {
    assert!(evaluate(&reading([12.0, 5.0, 8.0, 8.0, 8.0, 8.0]))
        .iter()
        .any(|a| matches!(a, Alert::Imbalance(_))));
}

#[test]
fn idle_noise_not_flagged() {
    // big ratio but tiny absolute load -> ignored
    assert!(evaluate(&reading([0.4, 0.6, 0.5, 0.5, 0.6, 0.7])).is_empty());
}

#[test]
fn multi_pin_alert_text_has_no_commas() {
    // alert text lands in a CSV field; commas would break column alignment
    let alerts = evaluate(&reading([9.5, 9.6, 0.0, 8.0, 8.0, 8.0]));
    assert!(alerts.len() >= 2, "expected overload + disconnect");
    for a in &alerts {
        let s = a.to_string();
        assert!(!s.contains(','), "comma in alert text: {s}");
    }
    assert!(alerts.iter().any(|a| a.to_string().contains("pins 1+2")));
}

#[test]
fn alert_texts_are_exact() {
    assert_eq!(
        Alert::Overload(vec![1, 2]).to_string(),
        "OVERLOAD pins 1+2 >9.2A"
    );
    assert_eq!(
        Alert::Disconnected(vec![3]).to_string(),
        "DISCONNECTED? pins 3 ~0A under load"
    );
    assert_eq!(
        Alert::Imbalance(num(2.4)).to_string(),
        "IMBALANCE hi/lo=2.40"
    );
}

#[test]
fn thresholds_move_the_limits() {
    let r = reading([8.5, 8.0, 8.0, 8.0, 8.0, 8.0]);
    assert!(evaluate_with(&r, &Thresholds::default()).is_empty());
    let tight = Thresholds {
        overload_amps: num(8.4),
        ..Thresholds::default()
    };
    assert!(matches!(&evaluate_with(&r, &tight)[..], [Alert::Overload(p)] if p == &vec![1]));
    // the limit itself is not above the limit
    let exact = Thresholds {
        overload_amps: num(8.5),
        ..Thresholds::default()
    };
    assert!(evaluate_with(&r, &exact).is_empty());
    // a higher load gate mutes imbalance and disconnect
    let muted = Thresholds {
        min_load_amps: num(60.0),
        ..Thresholds::default()
    };
    assert!(evaluate_with(&reading([0.0, 9.0, 9.0, 9.0, 9.0, 9.0]), &muted).is_empty());
}

/// Real capture from an ASUS ROG Astral RTX 5090 (subsystem 1043:8a2e) at ~607 W.
const SAMPLE: [u8; RAW_LEN] = [
    0x2e, 0x98, 0x21, 0xd4, 0x2e, 0x90, 0x21, 0xd4, 0x2e, 0x90, 0x20, 0x80, 0x2e, 0xa0, 0x20, 0x58,
    0x2e, 0xa0, 0x21, 0x5c, 0x2e, 0xa0, 0x1f, 0xe0,
];

#[test]
fn decodes_known_sample() {
    let r = decode(&SAMPLE);
    // pin 1 = reversed-last group (0x2ea0 mV, 0x1fe0 mA)
    let volts = |i: usize| f64::from(r.pins[i].millivolts) / 1000.0;
    let amps = |i: usize| f64::from(r.pins[i].milliamps) / 1000.0;
    assert!((volts(0) - 11.936).abs() < 1e-6, "{:?}", r.pins[0]);
    assert!((amps(0) - 8.160).abs() < 1e-6, "{:?}", r.pins[0]);
    assert!((amps(5) - 8.660).abs() < 1e-6, "{:?}", r.pins[5]);
    assert!((val(r.total_amps()) - 50.62).abs() < 0.01);
    assert!((val(r.total_watts()) - 604.0).abs() < 2.0);
    assert!(r.plausible());
    let bal = val(r.balance().expect("balanced sample has a ratio"));
    assert!((1.0..1.1).contains(&bal), "balance {bal}");
}

#[test]
fn all_zero_is_implausible() {
    assert!(!decode(&[0u8; RAW_LEN]).plausible());
}

#[test]
fn totals_are_exact() {
    let r = reading([8.0, 8.0, 8.0, 8.0, 8.0, 8.5]);
    assert_eq!(val(r.total_amps()), 48.5);
    assert_eq!(val(r.total_watts()), 582.0);
    assert_eq!(r.max_amps(), 8_500);
    assert_eq!(r.min_amps(), 8_000);
    assert_eq!(r.max_volts(), 12_000);
    assert_eq!(r.min_volts(), 12_000);
    assert_eq!(r.balance(), Some(num(8.5 / 8.0)));
    assert_eq!(reading([0.0; 6]).balance(), None);
    assert_eq!(reading([0.05; 6]).balance(), None);
    assert!(reading([0.051; 6]).balance().is_some());
}

/// Totals and ratios are those of doubles, last digit included.
#[test]
fn totals_add_up_as_doubles() {
    let mut seed: u32 = 1;
    for _ in 0..100 {
        let r = Reading {
            pins: [(); 6].map(|()| {
                seed = seed.wrapping_mul(1_664_525).wrapping_add(1_013_904_223);
                Pin {
                    millivolts: 11_500 + (seed >> 8) as u16 % 1_000,
                    milliamps: 3_000 + (seed >> 16) as u16 % 9_000,
                }
            }),
        };
        let amps = r.pins.map(|p| f64::from(p.milliamps) / 1000.0);
        let watts: f64 = r
            .pins
            .iter()
            .map(|p| f64::from(p.millivolts) / 1000.0 * (f64::from(p.milliamps) / 1000.0))
            .sum();
        assert_eq!(val(r.total_amps()), amps.iter().sum::<f64>());
        assert_eq!(val(r.total_watts()), watts);
        let hi = amps.iter().fold(f64::MIN, |a, &b| a.max(b));
        let lo = amps.iter().fold(f64::MAX, |a, &b| a.min(b));
        assert_eq!(val(r.balance().unwrap()), hi / lo);
    }
}

#[test]
fn ratios_print_as_doubles() {
    let r = reading([10.0, 3.0, 5.0, 5.0, 5.0, 5.0]).balance().unwrap();
    assert_eq!(r.fixed(2), "3.33");
    assert_eq!(r.fixed(3), "3.333");
    assert_eq!(r.to_string(), "3.3333333333333335");
    assert_eq!(reading([8.0; 6]).balance().unwrap().to_string(), "1");
}

#[test]
fn limits_are_compared_as_doubles() {
    // 12.6 / 8.4 is exactly the alarm ratio; one milliamp more is above it
    assert!(evaluate(&reading([12.6, 8.4, 9.0, 9.0, 9.0, 9.0]))
        .iter()
        .all(|a| !matches!(a, Alert::Imbalance(_))));
    assert!(evaluate(&reading([12.601, 8.4, 9.0, 9.0, 9.0, 9.0]))
        .iter()
        .any(|a| matches!(a, Alert::Imbalance(_))));
    // a limit a hair below the current is passed
    let tight = Thresholds {
        overload_amps: num(8.5 - 1e-12),
        ..Thresholds::default()
    };
    assert_eq!(
        evaluate_with(&reading([8.5, 8.0, 8.0, 8.0, 8.0, 8.0]), &tight).len(),
        1
    );
}

#[test]
fn rail_band_is_inclusive() {
    let rail = |mv: u16| Reading {
        pins: [Pin {
            millivolts: mv,
            milliamps: 0,
        }; 6],
    };
    assert!(rail(5_000).plausible());
    assert!(rail(20_000).plausible());
    assert!(!rail(4_999).plausible());
    assert!(!rail(20_001).plausible());
}
