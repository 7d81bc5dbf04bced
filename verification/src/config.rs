//! The configuration: its sections and defaults, which values are refused, which are worth a
//! warning, and which file it is read from.

use crate::alert;
use crate::alert::{Thresholds, IMBALANCE_RATIO, MIN_LOAD_A, OVERLOAD_A};
use crate::double;
use crate::double::Number;
use crate::text;
use crate::text::{begins_with, chars_of, has_char, trim};
use vstd::prelude::*;

verus! {

/// System-wide config path (what the shipped service reads).
pub const SYSTEM_PATH: &'static str = "/etc/astral-watch.toml";

/// The whole configuration.
#[derive(Debug, PartialEq)]
pub struct Config {
    pub thresholds: Thresholds,
    pub alerts: AlertPolicy,
    pub notify: NotifyConfig,
    pub export: Option<ExportConfig>,
    pub safety: SafetyConfig,
}

/// Opt-in automatic power cap (the `safety` subcommand).
#[derive(Debug, Clone, Copy, PartialEq, Eq, Structural)]
pub struct SafetyConfig {
    /// Arm the daemon. OFF by default — this is the only mode that mutates GPU state.
    pub enabled: bool,
    /// Cap target as a fraction of the GPU's stock (default) power limit. The daemon never
    /// *raises* the limit, so the effective cap is `min(this, the limit already in effect)`.
    pub target_fraction: Number,
    /// Also cap on a disconnected pin under load (the surviving pins carry its share).
    pub trigger_disconnect: bool,
    /// Also cap on imbalance alone (off by default — capping can't change the hi/lo ratio).
    pub trigger_imbalance: bool,
}

/// Prometheus exporter — presence of the section enables the listener in every mode.
#[derive(Debug, PartialEq)]
pub struct ExportConfig {
    /// Listen address, e.g. `127.0.0.1:9942` (bind non-loopback deliberately).
    pub listen: String,
}

/// When alerts raise, resolve, and re-notify. Sample-count based: a steady fault confirms
/// in `confirm_samples` times the sampling interval.
#[derive(Debug, Clone, Copy, PartialEq, Eq, Structural)]
pub struct AlertPolicy {
    /// Raise once the condition is seen in this many of the last `2 * confirm_samples - 1`
    /// samples (majority window; see [`crate::lifecycle`]).
    pub confirm_samples: u32,
    /// Consecutive clean samples before an active alert resolves.
    pub resolve_samples: u32,
    /// Re-notify while an alert stays active, in minutes (0 = notify once).
    pub repeat_minutes: u64,
}

/// Where notifications go.
#[derive(Debug, PartialEq)]
pub struct NotifyConfig {
    /// Desktop notifications via `notify-send` — only works in a desktop session,
    /// not from the system service (no session bus there).
    pub desktop: bool,
    pub ntfy: Option<NtfyConfig>,
    pub webhook: Option<WebhookConfig>,
}

/// Phone/browser push via [ntfy](https://ntfy.sh) (or self-hosted).
#[derive(Debug, PartialEq)]
pub struct NtfyConfig {
    /// Server base URL.
    pub url: String,
    /// Topic name — acts as a secret on public servers, pick something unguessable.
    pub topic: String,
    /// Access token for protected topics (sent as `Authorization: Bearer`).
    pub token: Option<String>,
}

/// Generic JSON webhook (POST).
#[derive(Debug, PartialEq)]
pub struct WebhookConfig {
    pub url: String,
    /// Sent as `Authorization: Bearer`.
    pub token: Option<String>,
}

/// The server used when the ntfy section names none.
pub fn default_ntfy_url() -> (s: String)
    ensures
        s@ == "https://ntfy.sh"@,
{
    "https://ntfy.sh".to_owned()
}

/// The daemon's settings when the section is absent: off, half the stock limit, capping on a
/// disconnected pin but not on imbalance alone.
pub open spec fn default_safety() -> SafetyConfig {
    SafetyConfig {
        enabled: false,
        target_fraction: double::thousandths(500),
        trigger_disconnect: true,
        trigger_imbalance: false,
    }
}

/// The alert windows when the section is absent.
pub open spec fn default_policy() -> AlertPolicy {
    AlertPolicy { confirm_samples: 3, resolve_samples: 20, repeat_minutes: 10 }
}

/// Nothing is notified.
pub open spec fn is_silent(n: NotifyConfig) -> bool {
    !n.desktop && n.ntfy is None && n.webhook is None
}

/// Everything is at its default.
pub open spec fn is_default(c: Config) -> bool {
    &&& c.thresholds == alert::default_thresholds()
    &&& c.alerts == default_policy()
    &&& is_silent(c.notify)
    &&& c.export is None
    &&& c.safety == default_safety()
}

impl Default for SafetyConfig {
    fn default() -> (c: SafetyConfig)
        ensures
            c == default_safety(),
    {
        SafetyConfig {
            enabled: false,
            target_fraction: Number::thousandths(500),
            trigger_disconnect: true,
            trigger_imbalance: false,
        }
    }
}

impl Default for AlertPolicy {
    fn default() -> (p: AlertPolicy)
        ensures
            p == default_policy(),
    {
        AlertPolicy { confirm_samples: 3, resolve_samples: 20, repeat_minutes: 10 }
    }
}

impl Default for NotifyConfig {
    fn default() -> (n: NotifyConfig)
        ensures
            is_silent(n),
    {
        NotifyConfig { desktop: false, ntfy: None, webhook: None }
    }
}

impl Default for Config {
    fn default() -> (c: Config)
        ensures
            is_default(c),
    {
        Config {
            thresholds: Thresholds::default(),
            alerts: AlertPolicy::default(),
            notify: NotifyConfig::default(),
            export: None,
            safety: SafetyConfig::default(),
        }
    }
}

/// One name when the transport is on, none when it is off.
pub open spec fn named_if(on: bool, name: Seq<char>) -> Seq<Seq<char>> {
    if on {
        seq![name]
    } else {
        seq![]
    }
}

/// What a list of literals reads.
pub open spec fn str_views(v: Seq<&'static str>) -> Seq<Seq<char>> {
    v.map_values(|s: &'static str| s@)
}

/// The names of the transports that are on, in the order they are told.
pub open spec fn transports(ntfy: bool, webhook: bool, desktop: bool) -> Seq<Seq<char>> {
    named_if(ntfy, "ntfy"@) + named_if(webhook, "webhook"@) + named_if(desktop, "desktop"@)
}

impl NotifyConfig {
    /// Names of the enabled transports, for the startup banner (never secrets).
    pub fn enabled(&self) -> (v: Vec<&'static str>)
        ensures
            str_views(v@) == named_if(self.ntfy is Some, "ntfy"@) + named_if(
                self.webhook is Some,
                "webhook"@,
            ) + named_if(self.desktop, "desktop"@),
            str_views(v@) == transports(self.ntfy is Some, self.webhook is Some, self.desktop),
    {
        let mut v: Vec<&'static str> = Vec::new();
        if self.ntfy.is_some() {
            v.push("ntfy");
        }
        assert(str_views(v@) =~= named_if(self.ntfy is Some, "ntfy"@));
        let ghost before = str_views(v@);
        if self.webhook.is_some() {
            v.push("webhook");
        }
        assert(str_views(v@) =~= before + named_if(self.webhook is Some, "webhook"@));
        let ghost before = str_views(v@);
        if self.desktop {
            v.push("desktop");
        }
        assert(str_views(v@) =~= before + named_if(self.desktop, "desktop"@));
        v
    }
}

// ---------------------------------------------------------------- what is refused

/// Why a configuration cannot be run with.
#[derive(Debug, PartialEq)]
pub enum ConfigError {
    /// The setting of this name is not a positive number.
    NotPositive(&'static str, Number),
    /// The setting of this name must be at least one.
    Zero(&'static str),
    /// The ntfy topic is blank.
    EmptyTopic,
    /// The setting of this name is not a web address.
    BadUrl(&'static str, String),
    /// The listen address names no port.
    BadListen(String),
    /// The cap target is out of range.
    BadFraction(Number),
}

/// What a [`ConfigError`] says.
#[verifier::ext_equal]
pub enum Refusal {
    NotPositive(Seq<char>, Number),
    Zero(Seq<char>),
    EmptyTopic,
    BadUrl(Seq<char>, Seq<char>),
    BadListen(Seq<char>),
    BadFraction(Number),
}

impl View for ConfigError {
    type V = Refusal;

    open spec fn view(&self) -> Refusal {
        match self {
            ConfigError::NotPositive(name, v) => Refusal::NotPositive(name@, *v),
            ConfigError::Zero(name) => Refusal::Zero(name@),
            ConfigError::EmptyTopic => Refusal::EmptyTopic,
            ConfigError::BadUrl(name, url) => Refusal::BadUrl(name@, url@),
            ConfigError::BadListen(listen) => Refusal::BadListen(listen@),
            ConfigError::BadFraction(f) => Refusal::BadFraction(*f),
        }
    }
}

/// `s` between quotation marks with its special characters escaped, as `{:?}` prints it.
pub uninterp spec fn quoted(s: Seq<char>) -> Seq<char>;

/// Calls the formatting of std's `Debug` for `str` (`{:?}`): what it prints is a function of the
/// text alone. How each character is escaped is not stated.
#[verifier::external_body]
fn quote(s: &str) -> (out: String)
    ensures
        out@ == quoted(s@),
{
    format!("{:?}", s)
}

/// The message of a refusal.
pub open spec fn refusal_text(r: Refusal) -> Seq<char> {
    match r {
        Refusal::NotPositive(name, v) => name + " must be a positive number (got "@
            + double::shortest(v) + ")"@,
        Refusal::Zero(name) => name + " must be >= 1"@,
        Refusal::EmptyTopic => "notify.ntfy.topic must not be empty"@,
        Refusal::BadUrl(name, url) => name + " must start with http:// or https:// (got "@
            + quoted(url) + ")"@,
        Refusal::BadListen(listen) =>
            "export.listen must be an address:port like 127.0.0.1:9942 (got "@ + quoted(listen)
            + ")"@,
        Refusal::BadFraction(f) => "safety.target_fraction must be between 0.1 and 1.0 (got "@
            + double::shortest(f) + ")"@,
    }
}

impl ConfigError {
    /// The message.
    pub fn to_string(&self) -> (s: String)
        ensures
            s@ == refusal_text(self@),
    {
        match self {
            ConfigError::NotPositive(name, v) => {
                let mut s = (*name).to_owned();
                s.append(" must be a positive number (got ");
                s.append(v.to_string().as_str());
                s.append(")");
                s
            },
            ConfigError::Zero(name) => {
                let mut s = (*name).to_owned();
                s.append(" must be >= 1");
                s
            },
            ConfigError::EmptyTopic => "notify.ntfy.topic must not be empty".to_owned(),
            ConfigError::BadUrl(name, url) => {
                let mut s = (*name).to_owned();
                s.append(" must start with http:// or https:// (got ");
                s.append(quote(url.as_str()).as_str());
                s.append(")");
                s
            },
            ConfigError::BadListen(listen) => {
                let mut s =
                    "export.listen must be an address:port like 127.0.0.1:9942 (got ".to_owned();
                s.append(quote(listen.as_str()).as_str());
                s.append(")");
                s
            },
            ConfigError::BadFraction(f) => {
                let mut s = "safety.target_fraction must be between 0.1 and 1.0 (got ".to_owned();
                s.append(f.to_string().as_str());
                s.append(")");
                s
            },
        }
    }
}

/// Whether a text begins like a web address.
pub open spec fn is_url(url: Seq<char>) -> bool {
    "https://"@.is_prefix_of(url) || "http://"@.is_prefix_of(url)
}

/// Whether a cap target is in range.
pub open spec fn fraction_fits(f: Number) -> bool {
    double::at_most(double::thousandths(100), f) && double::at_most(f, double::thousandths(1000))
}

/// The first value the program cannot run with.
pub open spec fn refusal(c: Config) -> Option<Refusal> {
    let t = c.thresholds;
    if !double::is_positive(t.overload_amps) {
        Some(Refusal::NotPositive("thresholds.overload_amps"@, t.overload_amps))
    } else if !double::is_positive(t.imbalance_ratio) {
        Some(Refusal::NotPositive("thresholds.imbalance_ratio"@, t.imbalance_ratio))
    } else if !double::is_positive(t.min_load_amps) {
        Some(Refusal::NotPositive("thresholds.min_load_amps"@, t.min_load_amps))
    } else if c.alerts.confirm_samples == 0 {
        Some(Refusal::Zero("alerts.confirm_samples"@))
    } else if c.alerts.resolve_samples == 0 {
        Some(Refusal::Zero("alerts.resolve_samples"@))
    } else if c.notify.ntfy is Some && text::trimmed(c.notify.ntfy->0.topic@).len() == 0 {
        Some(Refusal::EmptyTopic)
    } else if c.notify.ntfy is Some && !is_url(c.notify.ntfy->0.url@) {
        Some(Refusal::BadUrl("notify.ntfy.url"@, c.notify.ntfy->0.url@))
    } else if c.notify.webhook is Some && !is_url(c.notify.webhook->0.url@) {
        Some(Refusal::BadUrl("notify.webhook.url"@, c.notify.webhook->0.url@))
    } else if c.export is Some && !c.export->0.listen@.contains(':') {
        Some(Refusal::BadListen(c.export->0.listen@))
    } else if !fraction_fits(c.safety.target_fraction) {
        Some(Refusal::BadFraction(c.safety.target_fraction))
    } else {
        None
    }
}

fn check_url(url: &str) -> (r: bool)
    ensures
        r == is_url(url@),
{
    let v = chars_of(url);
    begins_with(&v, "https://") || begins_with(&v, "http://")
}

fn check_notify(n: &NotifyConfig) -> (r: Result<(), ConfigError>)
    ensures
        match r {
            Ok(_) => {
                &&& n.ntfy is Some ==> text::trimmed(n.ntfy->0.topic@).len() > 0 && is_url(
                    n.ntfy->0.url@,
                )
                &&& n.webhook is Some ==> is_url(n.webhook->0.url@)
            },
            Err(e) => if n.ntfy is Some && text::trimmed(n.ntfy->0.topic@).len() == 0 {
                e@ == Refusal::EmptyTopic
            } else if n.ntfy is Some && !is_url(n.ntfy->0.url@) {
                e@ == Refusal::BadUrl("notify.ntfy.url"@, n.ntfy->0.url@)
            } else {
                n.webhook is Some && !is_url(n.webhook->0.url@) && e@ == Refusal::BadUrl(
                    "notify.webhook.url"@,
                    n.webhook->0.url@,
                )
            },
        },
{
    if let Some(n) = &n.ntfy {
        if trim(&chars_of(n.topic.as_str())).len() == 0 {
            return Err(ConfigError::EmptyTopic);
        }
        if !check_url(n.url.as_str()) {
            return Err(ConfigError::BadUrl("notify.ntfy.url", n.url.clone()));
        }
    }
    if let Some(w) = &n.webhook {
        if !check_url(w.url.as_str()) {
            return Err(ConfigError::BadUrl("notify.webhook.url", w.url.clone()));
        }
    }
    Ok(())
}

/// The warnings about thresholds looser than the built-in ones.
pub open spec fn warning_texts(t: Thresholds) -> Seq<Seq<char>> {
    named_if(
        double::less(double::thousandths(OVERLOAD_A as nat), t.overload_amps),
        "thresholds.overload_amps "@ + double::shortest(t.overload_amps)
            + " is looser than the ASUS default "@ + double::shortest(
            double::thousandths(OVERLOAD_A as nat),
        ),
    ) + named_if(
        double::less(double::thousandths(IMBALANCE_RATIO as nat), t.imbalance_ratio),
        "thresholds.imbalance_ratio "@ + double::shortest(t.imbalance_ratio)
            + " is looser than the default "@ + double::shortest(
            double::thousandths(IMBALANCE_RATIO as nat),
        ),
    ) + named_if(
        double::less(double::thousandths(MIN_LOAD_A as nat), t.min_load_amps),
        "thresholds.min_load_amps "@ + double::shortest(t.min_load_amps)
            + " mutes imbalance/disconnect below a higher load than the default "@
            + double::shortest(double::thousandths(MIN_LOAD_A as nat)),
    )
}

fn warn_if_above(
    w: &mut Vec<String>,
    name: &str,
    value: Number,
    says: &str,
    limit: u64,
)
    ensures
        text::views(final(w)@) == text::views(old(w)@) + named_if(
            double::less(double::thousandths(limit as nat), value),
            name@ + double::shortest(value) + says@ + double::shortest(
                double::thousandths(limit as nat),
            ),
        ),
{
    let ghost had = w@;
    let limit = Number::thousandths(limit);
    if limit.less(value) {
        let mut s = name.to_owned();
        s.append(value.to_string().as_str());
        s.append(says);
        s.append(limit.to_string().as_str());
        let ghost said = s@;
        w.push(s);
        assert(text::views(w@) =~= text::views(had) + seq![said]);
    } else {
        assert(text::views(w@) =~= text::views(had) + seq![]);
    }
}

impl Config {
    /// Hard errors: values the program cannot run with.
    pub fn validate(&self) -> (r: Result<(), ConfigError>)
        ensures
            match r {
                Ok(_) => refusal(*self) is None,
                Err(e) => refusal(*self) == Some(e@),
            },
    {
        let t = &self.thresholds;
        if !t.overload_amps.positive() {
            return Err(ConfigError::NotPositive("thresholds.overload_amps", t.overload_amps));
        }
        if !t.imbalance_ratio.positive() {
            return Err(ConfigError::NotPositive("thresholds.imbalance_ratio", t.imbalance_ratio));
        }
        if !t.min_load_amps.positive() {
            return Err(ConfigError::NotPositive("thresholds.min_load_amps", t.min_load_amps));
        }
        if self.alerts.confirm_samples == 0 {
            return Err(ConfigError::Zero("alerts.confirm_samples"));
        }
        if self.alerts.resolve_samples == 0 {
            return Err(ConfigError::Zero("alerts.resolve_samples"));
        }
        match check_notify(&self.notify) {
            Ok(_) => {},
            Err(e) => {
                return Err(e);
            },
        }
        if let Some(e) = &self.export {
            if !has_char(&chars_of(e.listen.as_str()), ':') {
                return Err(ConfigError::BadListen(e.listen.clone()));
            }
        }
        let f = self.safety.target_fraction;
        if Number::thousandths(100).at_most(f) && f.at_most(Number::thousandths(1000)) {
            return Ok(());
        }
        Err(ConfigError::BadFraction(f))
    }

    /// Soft warnings worth printing at startup (loosened safety margins).
    pub fn warnings(&self) -> (w: Vec<String>)
        ensures
            text::views(w@) == warning_texts(self.thresholds),
    {
        let t = &self.thresholds;
        let mut w: Vec<String> = Vec::new();
        assert(text::views(w@) =~= seq![]);
        warn_if_above(
            &mut w,
            "thresholds.overload_amps ",
            t.overload_amps,
            " is looser than the ASUS default ",
            OVERLOAD_A,
        );
        warn_if_above(
            &mut w,
            "thresholds.imbalance_ratio ",
            t.imbalance_ratio,
            " is looser than the default ",
            IMBALANCE_RATIO,
        );
        warn_if_above(
            &mut w,
            "thresholds.min_load_amps ",
            t.min_load_amps,
            " mutes imbalance/disconnect below a higher load than the default ",
            MIN_LOAD_A,
        );
        assert(text::views(w@) =~= warning_texts(self.thresholds));
        w
    }
}

/// The defaults can be run with and give no warning.
pub proof fn law_defaults_are_safe(c: Config)
    requires
        is_default(c),
    ensures
        refusal(c) is None,
        warning_texts(c.thresholds) == Seq::<Seq<char>>::empty(),
{
    double::lemma_thousandths(OVERLOAD_A as nat, OVERLOAD_A as nat);
    double::lemma_thousandths(IMBALANCE_RATIO as nat, IMBALANCE_RATIO as nat);
    double::lemma_thousandths(MIN_LOAD_A as nat, MIN_LOAD_A as nat);
    double::lemma_thousandths(100, 500);
    double::lemma_thousandths(500, 1000);
    assert(warning_texts(c.thresholds) =~= Seq::<Seq<char>>::empty());
}

/// What is accepted can be run with: every threshold is a positive number, both windows hold a
/// sample, every address can be posted to, and the cap is between a tenth and the whole of the
/// stock limit.
pub proof fn law_accepted_values_are_usable(c: Config)
    requires
        refusal(c) is None,
    ensures
        double::is_positive(c.thresholds.overload_amps),
        double::is_positive(c.thresholds.imbalance_ratio),
        double::is_positive(c.thresholds.min_load_amps),
        c.alerts.confirm_samples >= 1,
        c.alerts.resolve_samples >= 1,
        c.notify.ntfy is Some ==> is_url(c.notify.ntfy->0.url@),
        c.notify.webhook is Some ==> is_url(c.notify.webhook->0.url@),
        fraction_fits(c.safety.target_fraction),
{
}

/// Thresholds at or under the built-in ones never warn.
pub proof fn law_tighter_thresholds_do_not_warn(t: Thresholds)
    requires
        !double::less(double::thousandths(OVERLOAD_A as nat), t.overload_amps),
        !double::less(double::thousandths(IMBALANCE_RATIO as nat), t.imbalance_ratio),
        !double::less(double::thousandths(MIN_LOAD_A as nat), t.min_load_amps),
    ensures
        warning_texts(t) == Seq::<Seq<char>>::empty(),
{
    assert(warning_texts(t) =~= Seq::<Seq<char>>::empty());
}

// ---------------------------------------------------------------- which file is read

/// Where a candidate path starts.
#[derive(Debug, Clone, Copy, PartialEq, Eq, Structural)]
pub enum Base {
    /// The directory that `XDG_CONFIG_HOME` names.
    ConfigHome,
    /// The directory that `HOME` names.
    Home,
    /// The root of the file system.
    Root,
}

/// A path to try: where it starts and the components below it.
#[derive(Debug, PartialEq)]
pub struct Candidate {
    pub base: Base,
    pub parts: Vec<&'static str>,
}

/// The user's file, when the user has a directory for one.
pub open spec fn user_candidate(config_home: bool, home: bool) -> Seq<(Base, Seq<Seq<char>>)> {
    if config_home {
        seq![(Base::ConfigHome, seq!["astral-watch"@, "config.toml"@])]
    } else if home {
        seq![(Base::Home, seq![".config"@, "astral-watch"@, "config.toml"@])]
    } else {
        seq![]
    }
}

/// What a list of candidates reads.
pub open spec fn candidate_views(v: Seq<Candidate>) -> Seq<(Base, Seq<Seq<char>>)> {
    v.map_values(|c: Candidate| (c.base, str_views(c.parts@)))
}

/// The files to try, in order.
pub open spec fn candidates(config_home: bool, home: bool) -> Seq<(Base, Seq<Seq<char>>)> {
    user_candidate(config_home, home).push((Base::Root, seq![SYSTEM_PATH@]))
}

/// The files to try, in order: the user's, then the system's. The arguments say whether
/// `XDG_CONFIG_HOME` and `HOME` are set.
pub fn candidate_paths(config_home: bool, home: bool) -> (v: Vec<Candidate>)
    ensures
        candidate_views(v@) == user_candidate(config_home, home).push(
            (Base::Root, seq![SYSTEM_PATH@]),
        ),
        candidate_views(v@) == candidates(config_home, home),
{
    let mut v: Vec<Candidate> = Vec::new();
    if config_home {
        let parts: Vec<&'static str> = vec!["astral-watch", "config.toml"];
        assert(str_views(parts@) =~= seq!["astral-watch"@, "config.toml"@]);
        v.push(Candidate { base: Base::ConfigHome, parts });
    } else if home {
        let parts: Vec<&'static str> = vec![".config", "astral-watch", "config.toml"];
        assert(str_views(parts@) =~= seq![".config"@, "astral-watch"@, "config.toml"@]);
        v.push(Candidate { base: Base::Home, parts });
    }
    assert(candidate_views(v@) =~= user_candidate(config_home, home));
    let ghost before = candidate_views(v@);
    let parts: Vec<&'static str> = vec![SYSTEM_PATH];
    assert(str_views(parts@) =~= seq![SYSTEM_PATH@]);
    v.push(Candidate { base: Base::Root, parts });
    assert(candidate_views(v@) =~= before.push((Base::Root, seq![SYSTEM_PATH@])));
    v
}

/// Where the configuration comes from.
#[derive(Debug, Clone, Copy, PartialEq, Eq, Structural)]
pub enum Source {
    /// The file the caller named, which must exist.
    Explicit,
    /// The candidate with this index.
    Candidate(usize),
    /// No file: the built-in defaults.
    Defaults,
}

/// Which of the sources is read: a named file, else the first candidate that exists, else none.
pub open spec fn source_of(explicit: bool, present: Seq<bool>) -> Source {
    if explicit {
        Source::Explicit
    } else {
        match present.index_of_first(true) {
            Some(i) => Source::Candidate(i as usize),
            None => Source::Defaults,
        }
    }
}

/// Resolve: explicit path (must exist) > user config > `/etc` > built-in defaults. `explicit`
/// says whether the caller named a file, `present` which of the candidates exist.
pub fn load(explicit: bool, present: &Vec<bool>) -> (s: Source)
    ensures
        match s {
            Source::Explicit => explicit,
            Source::Candidate(i) => !explicit && present@.index_of_first(true) == Some(i as int),
            Source::Defaults => !explicit && present@.index_of_first(true) is None,
        },
        s == source_of(explicit, present@),
{
    if explicit {
        return Source::Explicit;
    }
    proof {
        present@.index_of_first_ensures(true);
    }
    let mut i: usize = 0;
    while i < present.len()
        invariant
            i <= present.len(),
            !explicit,
            forall|j: int| 0 <= j < i ==> !present@[j],
            match present@.index_of_first(true) {
                Some(index) => {
                    &&& 0 <= index < present@.len()
                    &&& present@[index]
                    &&& forall|j: int| 0 <= j < index < present@.len() ==> !present@[j]
                },
                None => !present@.contains(true),
            },
        decreases present.len() - i,
    {
        if present[i] {
            assert(present@[i as int] == true);
            assert(present@.contains(true));
            return Source::Candidate(i);
        }
        i = i + 1;
    }
    Source::Defaults
}

} // verus!
