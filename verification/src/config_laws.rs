//! Which configurations can be run with, value by value, and where they are read from.

use crate::alert::Thresholds;
use crate::config;
use crate::config::{Base, Config, Refusal, Source};
use crate::double;
use crate::double::Number;
use crate::double_laws;
use crate::text;
use vstd::prelude::*;

verus! {

/// Whether a text is an address that can be posted to: a scheme of the web, then anything.
pub open spec fn can_be_posted_to(url: Seq<char>) -> bool {
    ||| exists|rest: Seq<char>| url == #[trigger] ("http://"@ + rest)
    ||| exists|rest: Seq<char>| url == #[trigger] ("https://"@ + rest)
}

/// An address is accepted exactly when it is one.
pub proof fn law_what_counts_as_an_address(url: Seq<char>)
    ensures
        config::is_url(url) <==> can_be_posted_to(url),
{
    if "https://"@.is_prefix_of(url) {
        let rest = url.skip("https://"@.len() as int);
        assert(url =~= "https://"@ + rest);
    }
    if "http://"@.is_prefix_of(url) {
        let rest = url.skip("http://"@.len() as int);
        assert(url =~= "http://"@ + rest);
    }
    if exists|rest: Seq<char>| url == #[trigger] ("http://"@ + rest) {
        assert(url.subrange(0, "http://"@.len() as int) =~= "http://"@);
    }
    if exists|rest: Seq<char>| url == #[trigger] ("https://"@ + rest) {
        assert(url.subrange(0, "https://"@.len() as int) =~= "https://"@);
    }
}

/// Whether a number can be a threshold: finite and above zero.
pub open spec fn can_be_a_threshold(n: Number) -> bool {
    n is Finite && double_laws::value(n) > 0
}

/// A configuration is accepted exactly when each of its values can be used, whatever the others
/// are.
pub proof fn law_what_can_be_run_with(c: Config)
    requires
        c.thresholds.overload_amps.wf(),
        c.thresholds.imbalance_ratio.wf(),
        c.thresholds.min_load_amps.wf(),
    ensures
        config::refusal(c) is None <==> {
            &&& can_be_a_threshold(c.thresholds.overload_amps)
            &&& can_be_a_threshold(c.thresholds.imbalance_ratio)
            &&& can_be_a_threshold(c.thresholds.min_load_amps)
            &&& c.alerts.confirm_samples > 0
            &&& c.alerts.resolve_samples > 0
            &&& c.notify.ntfy matches Some(ntfy) ==> can_be_posted_to(ntfy.url@) && exists|i: int|
                0 <= i < ntfy.topic@.len() && !text::is_space(#[trigger] ntfy.topic@[i])
            &&& c.notify.webhook matches Some(hook) ==> can_be_posted_to(hook.url@)
            &&& c.export matches Some(export) ==> exists|i: int|
                0 <= i < export.listen@.len() && #[trigger] export.listen@[i] == ':'
            &&& double::at_most(double::thousandths(100), c.safety.target_fraction)
            &&& double::at_most(c.safety.target_fraction, double::thousandths(1000))
        },
{
    let t = c.thresholds;
    lemma_threshold(t.overload_amps);
    lemma_threshold(t.imbalance_ratio);
    lemma_threshold(t.min_load_amps);
    if c.notify.ntfy is Some {
        law_what_counts_as_an_address(c.notify.ntfy->0.url@);
        lemma_blank(c.notify.ntfy->0.topic@);
    }
    if c.notify.webhook is Some {
        law_what_counts_as_an_address(c.notify.webhook->0.url@);
    }
}

proof fn lemma_threshold(n: Number)
    requires
        n.wf(),
    ensures
        double::is_positive(n) <==> can_be_a_threshold(n),
{
    if n is Finite {
        double_laws::law_numbers_compare_by_value(n, n);
    }
}

proof fn lemma_blank(s: Seq<char>)
    ensures
        text::trimmed(s).len() > 0 <==> exists|i: int|
            0 <= i < s.len() && !text::is_space(#[trigger] s[i]),
{
    let ends = crate::text_laws::law_trimming_takes_white_space(s);
    let t = text::trimmed(s);
    if t.len() > 0 {
        assert(s[ends.0.len() as int] == t[0]);
    } else {
        assert forall|i: int| 0 <= i < s.len() implies text::is_space(#[trigger] s[i]) by {
            if i < ends.0.len() {
                assert(s[i] == ends.0[i]);
            } else {
                assert(s[i] == ends.1[i - ends.0.len()]);
            }
        }
    }
}

/// A refusal names a value that cannot be used, and gives that value: whoever changes it as told
/// removes the reason.
pub proof fn law_refusals_name_the_value(c: Config)
    ensures
        match config::refusal(c) {
            Some(Refusal::NotPositive(name, v)) => {
                &&& !double::is_positive(v)
                &&& {
                    ||| name == "thresholds.overload_amps"@ && v == c.thresholds.overload_amps
                    ||| name == "thresholds.imbalance_ratio"@ && v == c.thresholds.imbalance_ratio
                    ||| name == "thresholds.min_load_amps"@ && v == c.thresholds.min_load_amps
                }
            },
            Some(Refusal::Zero(name)) => {
                ||| name == "alerts.confirm_samples"@ && c.alerts.confirm_samples == 0
                ||| name == "alerts.resolve_samples"@ && c.alerts.resolve_samples == 0
            },
            Some(Refusal::EmptyTopic) => c.notify.ntfy matches Some(ntfy) && forall|i: int|
                0 <= i < ntfy.topic@.len() ==> text::is_space(#[trigger] ntfy.topic@[i]),
            Some(Refusal::BadUrl(name, url)) => {
                &&& !can_be_posted_to(url)
                &&& {
                    ||| name == "notify.ntfy.url"@ && c.notify.ntfy is Some && url
                        == c.notify.ntfy->0.url@
                    ||| name == "notify.webhook.url"@ && c.notify.webhook is Some && url
                        == c.notify.webhook->0.url@
                }
            },
            Some(Refusal::BadListen(listen)) => c.export matches Some(export) && listen
                == export.listen@ && !listen.contains(':'),
            Some(Refusal::BadFraction(f)) => f == c.safety.target_fraction && (!double::at_most(
                double::thousandths(100),
                f,
            ) || !double::at_most(f, double::thousandths(1000))),
            None => true,
        },
{
    if c.notify.ntfy is Some {
        law_what_counts_as_an_address(c.notify.ntfy->0.url@);
        lemma_blank(c.notify.ntfy->0.topic@);
    }
    if c.notify.webhook is Some {
        law_what_counts_as_an_address(c.notify.webhook->0.url@);
    }
}

/// Of several values that cannot be used the one that stands first in the file's order is named:
/// the thresholds, the windows, the transports, the exporter, the cap.
pub proof fn law_the_first_bad_value_is_named(c: Config)
    requires
        config::refusal(c) is Some,
    ensures
        ({
            let r = config::refusal(c)->0;
            let t = c.thresholds;
            let positive = double::is_positive(t.overload_amps) && double::is_positive(
                t.imbalance_ratio,
            ) && double::is_positive(t.min_load_amps);
            &&& r is NotPositive <==> !positive
            &&& r is Zero <==> positive && (c.alerts.confirm_samples == 0
                || c.alerts.resolve_samples == 0)
            &&& r is EmptyTopic || r is BadUrl ==> positive && c.alerts.confirm_samples > 0
                && c.alerts.resolve_samples > 0
            &&& r is BadListen ==> (c.notify.webhook is Some ==> config::is_url(
                c.notify.webhook->0.url@,
            )) && (c.notify.ntfy is Some ==> config::is_url(c.notify.ntfy->0.url@))
            &&& r is BadFraction ==> (c.export is Some ==> c.export->0.listen@.contains(':'))
            &&& !double::is_positive(t.overload_amps) ==> r == Refusal::NotPositive(
                "thresholds.overload_amps"@,
                t.overload_amps,
            )
            &&& positive && c.alerts.confirm_samples == 0 ==> r == Refusal::Zero(
                "alerts.confirm_samples"@,
            )
        }),
{
}

/// A cap of so many thousandths is accepted from a tenth to the whole of the stock limit.
pub proof fn law_which_caps_are_accepted(n: nat)
    requires
        n <= 0x1_0000_0000,
    ensures
        config::fraction_fits(double::thousandths(n)) <==> 100 <= n <= 1000,
        !config::fraction_fits(Number::NotANumber),
        !config::fraction_fits(Number::PosInf),
        !config::fraction_fits(Number::NegInf),
{
    double_laws::law_thousandths_are_ordered(100, n);
    double_laws::law_thousandths_are_ordered(n, 1000);
    assert(double::thousandths(1000) is Finite) by {
        double_laws::law_thousandths_are_close(1000);
    }
    assert(double::thousandths(100) is Finite) by {
        double_laws::law_thousandths_are_close(100);
    }
}

/// Each threshold looser than 9.2 A, a ratio of 1.5 or 5 A of load is warned of, each on its own,
/// and nothing else is.
pub proof fn law_looser_thresholds_are_warned_of(t: Thresholds)
    ensures
        ({
            let w = config::warning_texts(t);
            let loose = |limit: nat, v: Number| double::less(double::thousandths(limit), v);
            let n = |b: bool| if b { 1int } else { 0int };
            &&& w.len() == n(loose(9200, t.overload_amps)) + n(loose(1500, t.imbalance_ratio)) + n(
                loose(5000, t.min_load_amps),
            )
            &&& loose(9200, t.overload_amps) ==> "thresholds.overload_amps "@.is_prefix_of(w[0])
            &&& loose(1500, t.imbalance_ratio) ==> "thresholds.imbalance_ratio "@.is_prefix_of(
                w[n(loose(9200, t.overload_amps))],
            )
            &&& loose(5000, t.min_load_amps) ==> "thresholds.min_load_amps "@.is_prefix_of(
                w.last(),
            )
        }),
{
    let w = config::warning_texts(t);
    let a = "thresholds.overload_amps "@;
    let b = "thresholds.imbalance_ratio "@;
    let c = "thresholds.min_load_amps "@;
    assert forall|s: Seq<char>, u: Seq<char>, v: Seq<char>, x: Seq<char>|
        s.is_prefix_of(#[trigger] (s + u + v + x)) by {
        assert((s + u + v + x).subrange(0, s.len() as int) =~= s);
    }
}

/// The defaults in numbers: 9.2 A, a ratio of 1.5, 5 A; three samples, twenty, ten minutes; and a
/// daemon that is off, caps to a half, on lost pins and not on imbalance.
pub proof fn law_the_defaults_in_numbers(c: Config)
    requires
        config::is_default(c),
    ensures
        c.thresholds.overload_amps == double::thousandths(9200),
        c.thresholds.imbalance_ratio == double::thousandths(1500),
        c.thresholds.min_load_amps == double::thousandths(5000),
        c.alerts.confirm_samples == 3 && c.alerts.resolve_samples == 20 && c.alerts.repeat_minutes
            == 10,
        !c.safety.enabled && c.safety.target_fraction == double::thousandths(500),
        c.safety.trigger_disconnect && !c.safety.trigger_imbalance,
        !c.notify.desktop && c.notify.ntfy is None && c.notify.webhook is None && c.export is None,
{
}

/// The directory for configurations comes before the home directory, and there is no file of the
/// user's without one of the two; every path ends in the same file.
pub proof fn law_where_the_user_keeps_it(config_home: bool, home: bool)
    ensures
        ({
            let v = config::user_candidate(config_home, home);
            &&& v.len() == 1 <==> config_home || home
            &&& v.len() == 0 <==> !config_home && !home
            &&& config_home ==> v[0].0 == Base::ConfigHome && v[0].1 == seq![
                "astral-watch"@,
                "config.toml"@,
            ]
            &&& !config_home && home ==> v[0].0 == Base::Home && v[0].1 == seq![
                ".config"@,
                "astral-watch"@,
                "config.toml"@,
            ]
        }),
{
}

/// A named file is read whatever else exists; else the first candidate that exists; the defaults
/// only where none does.
pub proof fn law_which_file_is_read(explicit: bool, present: Seq<bool>)
    requires
        present.len() <= usize::MAX,
    ensures
        ({
            let s = config::source_of(explicit, present);
            &&& s == Source::Explicit <==> explicit
            &&& s == Source::Defaults <==> !explicit && forall|i: int|
                0 <= i < present.len() ==> !#[trigger] present[i]
            &&& s matches Source::Candidate(k) ==> k < present.len() && present[k as int]
                && forall|i: int| 0 <= i < k ==> !#[trigger] present[i]
        }),
{
    present.index_of_first_ensures(true);
}

/// The system's file is tried last, and before it the user's, where there is one.
pub proof fn law_where_files_are_looked_for(config_home: bool, home: bool)
    ensures
        ({
            let v = config::candidates(config_home, home);
            &&& v.last() == (Base::Root, seq!["/etc/astral-watch.toml"@])
            &&& v.len() == if config_home || home {
                2int
            } else {
                1
            }
            &&& v.len() == 2 ==> v[0] == config::user_candidate(config_home, home)[0]
        }),
{
}

/// Each transport is named exactly when it is on, and once: the phone first, the desktop last.
pub proof fn law_which_transports_are_on(ntfy: bool, webhook: bool, desktop: bool)
    ensures
        ({
            let v = config::transports(ntfy, webhook, desktop);
            let n = |b: bool| if b { 1int } else { 0int };
            &&& v.len() == n(ntfy) + n(webhook) + n(desktop)
            &&& ntfy ==> v[0] == "ntfy"@
            &&& webhook ==> v[n(ntfy)] == "webhook"@
            &&& desktop ==> v.last() == "desktop"@
        }),
{
}

/// What is said of a refused value begins with the name of the setting and gives the value.
pub proof fn law_refusals_name_the_setting(r: Refusal)
    ensures
        match r {
            Refusal::NotPositive(name, v) => config::refusal_text(r) == name
                + " must be a positive number (got "@ + double::shortest(v) + ")"@,
            Refusal::Zero(name) => config::refusal_text(r) == name + " must be >= 1"@,
            Refusal::EmptyTopic => "notify.ntfy.topic"@.is_prefix_of(config::refusal_text(r)),
            Refusal::BadUrl(name, url) => name.is_prefix_of(config::refusal_text(r))
                && text::holds(config::refusal_text(r), config::quoted(url)),
            Refusal::BadListen(listen) => "export.listen"@.is_prefix_of(config::refusal_text(r))
                && text::holds(config::refusal_text(r), config::quoted(listen)),
            Refusal::BadFraction(f) => "safety.target_fraction"@.is_prefix_of(
                config::refusal_text(r),
            ) && text::holds(config::refusal_text(r), double::shortest(f)),
        },
{
    let s = config::refusal_text(r);
    match r {
        Refusal::EmptyTopic => {
            reveal_strlit("notify.ntfy.topic");
            reveal_strlit("notify.ntfy.topic must not be empty");
            let p = "notify.ntfy.topic"@;
            assert(s.subrange(0, p.len() as int) =~= p);
        },
        Refusal::BadUrl(name, url) => {
            assert(s.subrange(0, name.len() as int) =~= name);
            let front = name + " must start with http:// or https:// (got "@;
            lemma_holds(front, config::quoted(url), ")"@);
        },
        Refusal::BadListen(listen) => {
            reveal_strlit("export.listen");
            reveal_strlit("export.listen must be an address:port like 127.0.0.1:9942 (got ");
            let p = "export.listen"@;
            assert(s.subrange(0, p.len() as int) =~= p);
            let front = "export.listen must be an address:port like 127.0.0.1:9942 (got "@;
            lemma_holds(front, config::quoted(listen), ")"@);
        },
        Refusal::BadFraction(f) => {
            reveal_strlit("safety.target_fraction");
            reveal_strlit("safety.target_fraction must be between 0.1 and 1.0 (got ");
            let p = "safety.target_fraction"@;
            assert(s.subrange(0, p.len() as int) =~= p);
            let front = "safety.target_fraction must be between 0.1 and 1.0 (got "@;
            lemma_holds(front, double::shortest(f), ")"@);
        },
        _ => {},
    }
}

proof fn lemma_holds(front: Seq<char>, needle: Seq<char>, back: Seq<char>)
    ensures
        text::holds(front + needle + back, needle),
{
    crate::text_laws::law_holding_means_standing_within(front + needle + back, needle);
}

} // verus!
