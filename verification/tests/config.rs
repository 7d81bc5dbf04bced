use astral_watch::config::{
    candidate_paths, default_ntfy_url, load, AlertPolicy, Base, Config, ConfigError, ExportConfig,
    NotifyConfig, NtfyConfig, SafetyConfig, Source, WebhookConfig, SYSTEM_PATH,
};
use astral_watch::double::Number;

fn amps(x: f64) -> Number {
    Number::from_bits(x.to_bits())
}

fn ntfy(url: &str, topic: &str) -> NtfyConfig {
    NtfyConfig {
        url: url.to_string(),
        topic: topic.to_string(),
        token: None,
    }
}

fn webhook(url: &str) -> WebhookConfig {
    WebhookConfig {
        url: url.to_string(),
        token: None,
    }
}

#[test]
fn unusable_values_rejected() {
    let mut c = Config::default();
    c.thresholds.overload_amps = amps(0.0);
    assert!(c.validate().is_err());
    let mut c = Config::default();
    c.thresholds.overload_amps = amps(-1.0);
    assert!(c.validate().is_err());
    let mut c = Config::default();
    c.alerts.confirm_samples = 0;
    assert!(c.validate().is_err());
    let mut c = Config::default();
    c.notify.ntfy = Some(ntfy("https://ntfy.sh", ""));
    assert!(c.validate().is_err());
    let mut c = Config::default();
    c.notify.webhook = Some(webhook("example.com"));
    assert!(c.validate().is_err());
}

#[test]
fn loosened_thresholds_warn() {
    let mut c = Config::default();
    c.thresholds.overload_amps = amps(11.0);
    c.thresholds.imbalance_ratio = amps(2.0);
    assert!(c.validate().is_ok());
    let w = c.warnings();
    assert_eq!(w.len(), 2, "{w:?}");
    assert!(w[0].contains("looser"));
    // tighter-than-default is fine
    let mut c = Config::default();
    c.thresholds.overload_amps = amps(8.0);
    assert!(c.validate().is_ok());
    assert!(c.warnings().is_empty());
}

#[test]
fn defaults_are_usable_and_quiet() {
    let c = Config::default();
    assert!(c.validate().is_ok());
    assert!(c.warnings().is_empty());
    assert_eq!(c.alerts, AlertPolicy::default());
    assert_eq!(
        (
            c.alerts.confirm_samples,
            c.alerts.resolve_samples,
            c.alerts.repeat_minutes
        ),
        (3, 20, 10)
    );
    assert_eq!(c.safety, SafetyConfig::default());
    assert_eq!(c.safety.target_fraction, amps(0.5));
    assert!(!c.safety.enabled && c.safety.trigger_disconnect && !c.safety.trigger_imbalance);
    assert_eq!(c.notify, NotifyConfig::default());
    assert!(c.export.is_none());
    assert_eq!(default_ntfy_url(), "https://ntfy.sh");
}

#[test]
fn enabled_transports_are_named() {
    let n = NotifyConfig {
        desktop: true,
        ntfy: Some(ntfy("https://ntfy.sh", "secret-topic")),
        webhook: Some(webhook("https://example.com/hook")),
    };
    assert_eq!(n.enabled(), vec!["ntfy", "webhook", "desktop"]);
    assert!(NotifyConfig::default().enabled().is_empty());
}

#[test]
fn safety_fraction_must_be_sane() {
    let with = |n: Number| {
        let mut c = Config::default();
        c.safety.enabled = true;
        c.safety.target_fraction = n;
        c.validate()
    };
    assert!(with(amps(0.6)).is_ok());
    assert!(with(amps(0.1)).is_ok());
    assert!(with(amps(1.0)).is_ok());
    assert_eq!(
        with(amps(1.5)).unwrap_err().to_string(),
        "safety.target_fraction must be between 0.1 and 1.0 (got 1.5)"
    );
    assert!(with(amps(0.0)).is_err());
    assert_eq!(
        with(amps(0.09999999999999999)).unwrap_err().to_string(),
        "safety.target_fraction must be between 0.1 and 1.0 (got 0.09999999999999999)"
    );
    assert!(with(amps(1.0000000000000002)).is_err());
    assert_eq!(
        with(Number::NotANumber).unwrap_err(),
        ConfigError::BadFraction(Number::NotANumber)
    );
}

#[test]
fn every_refusal_says_what_is_wrong() {
    let said = |f: &dyn Fn(&mut Config)| {
        let mut c = Config::default();
        f(&mut c);
        c.validate().unwrap_err().to_string()
    };
    assert_eq!(
        said(&|c| c.thresholds.imbalance_ratio = amps(-1.0)),
        "thresholds.imbalance_ratio must be a positive number (got -1)"
    );
    assert_eq!(
        said(&|c| c.thresholds.min_load_amps = Number::PosInf),
        "thresholds.min_load_amps must be a positive number (got inf)"
    );
    assert_eq!(
        said(&|c| c.alerts.confirm_samples = 0),
        "alerts.confirm_samples must be >= 1"
    );
    assert_eq!(
        said(&|c| c.alerts.resolve_samples = 0),
        "alerts.resolve_samples must be >= 1"
    );
    assert_eq!(
        said(&|c| c.notify.ntfy = Some(ntfy("https://ntfy.sh", " \t"))),
        "notify.ntfy.topic must not be empty"
    );
    // the offending text is quoted and escaped
    assert_eq!(
        said(&|c| c.notify.ntfy = Some(ntfy("ftp://x\"y", "t"))),
        "notify.ntfy.url must start with http:// or https:// (got \"ftp://x\\\"y\")"
    );
    assert_eq!(
        said(&|c| c.notify.webhook = Some(webhook("example.com"))),
        "notify.webhook.url must start with http:// or https:// (got \"example.com\")"
    );
    assert_eq!(
        said(&|c| c.export = Some(ExportConfig {
            listen: "9942".to_string()
        })),
        "export.listen must be an address:port like 127.0.0.1:9942 (got \"9942\")"
    );
}

#[test]
fn warnings_are_exact() {
    let mut c = Config::default();
    c.thresholds.overload_amps = amps(11.0);
    c.thresholds.imbalance_ratio = amps(2.25);
    c.thresholds.min_load_amps = amps(7.5);
    assert_eq!(
        c.warnings(),
        vec![
            "thresholds.overload_amps 11 is looser than the ASUS default 9.2",
            "thresholds.imbalance_ratio 2.25 is looser than the default 1.5",
            "thresholds.min_load_amps 7.5 mutes imbalance/disconnect below a higher load than the default 5",
        ]
    );
}

#[test]
fn files_are_tried_in_order() {
    let v = candidate_paths(true, true);
    assert_eq!(v.len(), 2);
    assert_eq!(v[0].base, Base::ConfigHome);
    assert_eq!(v[0].parts, vec!["astral-watch", "config.toml"]);
    assert_eq!((v[1].base, v[1].parts.clone()), (Base::Root, vec![SYSTEM_PATH]));
    let v = candidate_paths(false, true);
    assert_eq!(v[0].base, Base::Home);
    assert_eq!(v[0].parts, vec![".config", "astral-watch", "config.toml"]);
    assert_eq!(candidate_paths(false, false).len(), 1);

    assert_eq!(load(true, &vec![true, true]), Source::Explicit);
    assert_eq!(load(false, &vec![false, true]), Source::Candidate(1));
    assert_eq!(load(false, &vec![true, true]), Source::Candidate(0));
    assert_eq!(load(false, &vec![false, false]), Source::Defaults);
}
