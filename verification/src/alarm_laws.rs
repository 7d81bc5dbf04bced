//! The windows, waits and words of the alert lifecycle, in samples, seconds and digits.

use crate::alert;
use crate::alert::AlertView;
use crate::clock;
use crate::clock::{Duration, Instant};
use crate::config::AlertPolicy;
use crate::double;
use crate::double::Number;
use crate::double_laws;
use crate::lifecycle;
use crate::lifecycle::{Condition, EventView, Phase};
use crate::lifecycle_laws;
use crate::lifecycle_laws::Look;
use crate::notify_laws;
use crate::text;
use vstd::prelude::*;

verus! {

// ---------------------------------------------------------------- time

/// A span has as many whole seconds as it has thousand million nanoseconds, and the time between
/// two points is their difference.
pub proof fn law_time_is_counted_in_nanoseconds(d: Duration, later: Instant, earlier: Instant)
    ensures
        clock::whole_secs(d) * 1_000_000_000 <= d.nanos < (clock::whole_secs(d) + 1)
            * 1_000_000_000,
        later.nanos >= earlier.nanos ==> earlier.nanos + clock::elapsed(later, earlier).nanos
            == later.nanos,
        later.nanos <= earlier.nanos ==> clock::elapsed(later, earlier).nanos == 0,
{
}

/// A span in seconds is its nanoseconds over a thousand million, to a millionth of a second.
pub proof fn law_seconds_are_nanoseconds(d: Duration)
    requires
        d.nanos < 0x1_0000_0000 * 1_000_000_000,
    ensures
        clock::seconds(d) matches Number::Finite { negative, size } && !negative && size.wf()
            && 0x10_0000 * double_laws::gap(
            (1_000_000_000 * double::weight(size)) as int,
            (d.nanos * double_laws::one()) as int,
        ) <= 1_000_000_000 * double_laws::one(),
{
    let t = double_laws::one() as int;
    let s = clock::whole_secs(d) as int;
    let n = (d.nanos as nat % 1_000_000_000) as int;
    double_laws::lemma_one();
    double::lemma_whole(s as nat);
    double::lemma_whole(n as nat);
    double::lemma_whole(1_000_000_000);
    let x = double::whole(s as nat)->size;
    let y = double::whole(n as nat)->size;
    let z = double::whole(1_000_000_000)->size;
    let (wx, wy, wz) = (
        double::weight(x) as int,
        double::weight(y) as int,
        double::weight(z) as int,
    );
    double::lemma_size_positive(z);
    assert(wz == 1_000_000_000 * t);
    assert(z.significand > 0) by {
        let b = double::below(z) as int;
        assert(double::above(z) == 1_000_000_000 * b);
    }
    assert(n * t <= 1_000_000_000 * t && s * t <= 0x1_0000_0000 * t) by (nonlinear_arith)
        requires
            0 <= n <= 1_000_000_000,
            0 <= s <= 0x1_0000_0000,
            t >= 0,
    ;
    double_laws::law_quotients_are_close(y, z, 1);
    let f = double::quotient(y, z)->0;
    let wf = double::weight(f) as int;
    let g = double_laws::gap(wy * t, wf * wz);
    // the common factor of the bound
    let near = 1_000_000_000 * wf;
    assert(wf * wz == near * t) by (nonlinear_arith)
        requires
            wz == 1_000_000_000 * t,
            near == 1_000_000_000 * wf,
    ;
    let h = double_laws::gap(wy, near);
    assert(g == h * t) by {
        assert(wy <= near ==> wy * t <= near * t && near * t - wy * t == (near - wy) * t)
            by (nonlinear_arith)
            requires
                t > 0,
        ;
        assert(wy > near ==> wy * t > near * t && wy * t - near * t == (wy - near) * t)
            by (nonlinear_arith)
            requires
                t > 0,
        ;
    }
    assert(0x20_0000_0000_0000 * h <= wy + 0x10_0000_0000_0000 * 1_000_000_000) by (nonlinear_arith)
        requires
            0x20_0000_0000_0000 * (h * t) <= wy * t + 0x10_0000_0000_0000 * (1_000_000_000 * t),
            t > 0,
    ;
    double_laws::law_sums_are_close(x, f, 0x1_0000_0002);
    assert(d.nanos * t == 1_000_000_000 * (s * t) + n * t) by (nonlinear_arith)
        requires
            d.nanos == 1_000_000_000 * s + n,
    ;
}

/// A number below a hundred in two digits.
pub open spec fn two_digits(n: nat) -> Seq<char> {
    seq![(48 + n / 10) as char, (48 + n % 10) as char]
}

/// A duration reads in seconds below a minute, in minutes and seconds below an hour, and in hours
/// and minutes from then on, the second part always with two digits.
pub proof fn law_durations_read_in_two_parts(d: Duration)
    ensures
        ({
            let s = d.nanos as nat / 1_000_000_000;
            &&& s < 60 ==> lifecycle::duration_text(d) == text::decimal(s) + "s"@
            &&& 60 <= s < 3600 ==> lifecycle::duration_text(d) == text::decimal(s / 60) + "m"@
                + two_digits(s % 60) + "s"@
            &&& s >= 3600 ==> lifecycle::duration_text(d) == text::decimal(s / 3600) + "h"@
                + two_digits(s / 60 % 60) + "m"@
        }),
{
    let s = clock::whole_secs(d);
    assert(s == d.nanos as nat / 1_000_000_000);
    if s >= 3600 {
        lemma_two_digits(s % 3600 / 60);
        lemma_minutes(s);
    } else if s >= 60 {
        lemma_two_digits(s % 60);
    }
}

proof fn lemma_minutes(s: nat)
    ensures
        s % 3600 / 60 == s / 60 % 60,
{
}

proof fn lemma_two_digits(n: nat)
    requires
        n < 60,
    ensures
        text::padded(text::decimal(n), 2, '0') == two_digits(n),
{
    reveal_with_fuel(text::decimal, 3);
    if n < 10 {
        assert(text::padded(text::decimal(n), 2, '0') =~= two_digits(n));
    } else {
        assert(text::decimal(n) =~= two_digits(n));
    }
}

// ---------------------------------------------------------------- windows and waits

/// The window spans twice the confirming samples, less one, and holds the latest of them.
pub proof fn law_the_window_is_twice_the_confirming_samples(
    p: AlertPolicy,
    seen: Seq<bool>,
    k: int,
)
    requires
        p.confirm_samples >= 1,
    ensures
        ({
            let size = p.confirm_samples + p.confirm_samples - 1;
            let window = lifecycle::latest(seen, lifecycle::window_size(p));
            &&& window.len() == if seen.len() > size {
                size
            } else {
                seen.len() as int
            }
            &&& 0 <= k < window.len() ==> window[k] == seen[seen.len() - window.len() + k]
        }),
{
}

/// What counts as a sighting: one more for each sample that saw the condition, none for another.
pub proof fn law_sightings_are_counted(window: Seq<bool>)
    ensures
        lifecycle::sightings(window) == window.filter(|b: bool| b).len(),
    decreases window.len(),
{
    reveal(Seq::filter);
    if window.len() > 0 {
        law_sightings_are_counted(window.drop_last());
    }
}

/// Only a sample without telemetry, and without the condition itself, tells nothing of a physical
/// condition; telemetry itself is told of by every sample.
pub proof fn law_which_samples_tell_nothing(c: Condition, l: Look)
    ensures
        lifecycle_laws::known(c, l) <==> c == Condition::TelemetryLost || l.detail is Some
            || !l.lost,
{
}

/// An alert is due again once so many minutes of sixty seconds have passed, and never when there
/// are to be none.
pub proof fn law_when_a_repeat_is_due(p: AlertPolicy, now: Instant, last: Instant)
    requires
        last.nanos <= now.nanos,
        p.repeat_minutes <= 0xffff_ffff_ffff,
    ensures
        lifecycle::repeat_due(p, now, last) <==> p.repeat_minutes > 0 && now.nanos - last.nanos
            >= p.repeat_minutes * 60_000_000_000,
{
    let x = (now.nanos - last.nanos) as int;
    let k = (p.repeat_minutes * 60) as int;
    assert(x / 1_000_000_000 >= k <==> x >= k * 1_000_000_000);
}

// ---------------------------------------------------------------- what a sample says

/// A condition is present in a sample exactly when the sample names it, and its text is the first
/// that the sample gives for it.
pub proof fn law_the_first_text_counts(present: Seq<(Condition, Seq<char>)>, c: Condition)
    ensures
        match lifecycle::detail_of(present, c) {
            Some(d) => exists|i: int|
                0 <= i < present.len() && (#[trigger] present[i]) == (c, d) && forall|j: int|
                    0 <= j < i ==> (#[trigger] present[j]).0 != c,
            None => forall|i: int| 0 <= i < present.len() ==> (#[trigger] present[i]).0 != c,
        },
    decreases present.len(),
{
    if present.len() > 0 {
        let front = present.drop_last();
        let n = present.len() - 1;
        law_the_first_text_counts(front, c);
        assert forall|j: int| 0 <= j < front.len() implies front[j] == present[j] by {}
        match lifecycle::detail_of(front, c) {
            Some(d) => {
                let i = choose|i: int|
                    0 <= i < front.len() && (#[trigger] front[i]) == (c, d) && forall|j: int|
                        0 <= j < i ==> (#[trigger] front[j]).0 != c;
                assert(present[i] == (c, d));
                assert forall|j: int| 0 <= j < i implies (#[trigger] present[j]).0 != c by {
                    assert(front[j].0 != c);
                }
            },
            None => {
                assert forall|j: int| 0 <= j < n implies (#[trigger] present[j]).0 != c by {
                    assert(front[j].0 != c);
                }
                assert(present[n] == present.last());
            },
        }
    }
}

/// Telemetry is lost in a sample exactly when the sample says so.
pub proof fn law_lost_means_said_so(present: Seq<(Condition, Seq<char>)>)
    ensures
        lifecycle::is_lost(present) <==> exists|i: int|
            0 <= i < present.len() && (#[trigger] present[i]).0 == Condition::TelemetryLost,
{
    law_the_first_text_counts(present, Condition::TelemetryLost);
}

/// The alerts of a sample are said one by one, each under its own condition and in its own words;
/// none of them says that telemetry is lost.
pub proof fn law_alerts_are_said_as_conditions(alerts: Seq<AlertView>, i: int)
    requires
        0 <= i < alerts.len(),
    ensures
        ({
            let said = lifecycle::conditions_in(alerts);
            &&& said.len() == alerts.len()
            &&& said[i].1 == alert::alert_text(alerts[i])
            &&& said[i].0 == Condition::Overload <==> alerts[i] is Overload
            &&& said[i].0 == Condition::Disconnected <==> alerts[i] is Disconnected
            &&& said[i].0 == Condition::Imbalance <==> alerts[i] is Imbalance
            &&& said[i].0 != Condition::TelemetryLost
        }),
{
}

// ---------------------------------------------------------------- what is announced

/// What a condition announces is about that condition.
pub proof fn law_events_are_about_their_condition(
    p: AlertPolicy,
    c: Condition,
    phase: Phase,
    now: Instant,
    detail: Option<Seq<char>>,
    lost: bool,
)
    ensures
        lifecycle::advance(p, c, phase, now, detail, lost).1 matches Some(e)
            ==> notify_laws::condition_of(e) == c,
{
}

/// A sample announces exactly what the conditions do, one event for each at most, the overload
/// first, then the lost pin, the imbalance and the loss of telemetry.
pub proof fn law_every_condition_is_heard(
    p: AlertPolicy,
    phases: Seq<Phase>,
    now: Instant,
    present: Seq<(Condition, Seq<char>)>,
)
    ensures
        ({
            let step = |c: Condition, i: int|
                lifecycle::advance(
                    p,
                    c,
                    phases[i],
                    now,
                    lifecycle::detail_of(present, c),
                    lifecycle::is_lost(present),
                ).1;
            let one = |e: Option<EventView>|
                match e {
                    Some(e) => seq![e],
                    None => seq![],
                };
            lifecycle::announced(p, phases, now, present, 4) == one(step(Condition::Overload, 0))
                + one(step(Condition::Disconnected, 1)) + one(step(Condition::Imbalance, 2)) + one(
                step(Condition::TelemetryLost, 3),
            )
        }),
{
    reveal_with_fuel(lifecycle::announced, 5);
    let step = |c: Condition, i: int|
        lifecycle::advance(
            p,
            c,
            phases[i],
            now,
            lifecycle::detail_of(present, c),
            lifecycle::is_lost(present),
        ).1;
    let one = |e: Option<EventView>|
        match e {
            Some(e) => seq![e],
            None => seq![],
        };
    assert(lifecycle::announced(p, phases, now, present, 4) =~= one(step(Condition::Overload, 0))
        + one(step(Condition::Disconnected, 1)) + one(step(Condition::Imbalance, 2)) + one(
        step(Condition::TelemetryLost, 3),
    ));
}

/// What one sample does to a raised alert: the condition present keeps it raised and starts the
/// clean samples anew, a known clean sample counts one, and the raise stays what it was since.
pub proof fn law_what_a_sample_does_to_a_raised_alert(
    p: AlertPolicy,
    c: Condition,
    since: Instant,
    last: Instant,
    clean: nat,
    text: Seq<char>,
    now: Instant,
    detail: Option<Seq<char>>,
    lost: bool,
)
    ensures
        ({
            let phase = Phase::Active { since, last_notified: last, clean, detail: text };
            let next = lifecycle::advance(p, c, phase, now, detail, lost).0;
            &&& detail is Some ==> next is Active && next->clean == 0 && next->since == since
                && next->Active_detail == detail->0
            &&& detail is None && (!lost || c == Condition::TelemetryLost) && clean + 1
                < p.resolve_samples ==> next is Active && next->clean == clean + 1 && next->since
                == since && next->last_notified == last
            &&& detail is None && (!lost || c == Condition::TelemetryLost) && clean + 1
                >= p.resolve_samples ==> next == (Phase::Watching { window: Seq::empty() })
        }),
{
}

/// An event in words begins with what it is: raised, active for so long, or resolved.
pub proof fn law_events_read_as_what_they_are(e: EventView)
    ensures
        "ALERT RAISED: "@.is_prefix_of(lifecycle::event_text(e)) <==> e is Raised,
        "ALERT ACTIVE "@.is_prefix_of(lifecycle::event_text(e)) <==> e is Repeated,
        "ALERT RESOLVED: "@.is_prefix_of(lifecycle::event_text(e)) <==> e is Resolved,
        e matches EventView::Raised { condition, detail } ==> lifecycle::event_text(e).skip(14)
            == detail,
        e matches EventView::Repeated { condition, detail, active_for } ==> lifecycle::event_text(
            e,
        ).skip(13) == lifecycle::duration_text(active_for) + seq![':', ' '] + detail,
        e matches EventView::Resolved { condition, active_for } ==> lifecycle::event_text(e).skip(16)
            == lifecycle::condition_label(condition) + " clear after "@ + lifecycle::duration_text(
            active_for,
        ),
{
    reveal_strlit("ALERT RAISED: ");
    reveal_strlit("ALERT ACTIVE ");
    reveal_strlit("ALERT RESOLVED: ");
    reveal_strlit(": ");
    let s = lifecycle::event_text(e);
    assert("ALERT RAISED: "@[8] == 'I' && "ALERT ACTIVE "@[8] == 'T' && "ALERT RESOLVED: "@[8]
        == 'S');
    assert("ALERT RAISED: "@[6] == 'R' && "ALERT ACTIVE "@[6] == 'A' && "ALERT RESOLVED: "@[6]
        == 'R');
    match e {
        EventView::Raised { condition, detail } => {
            assert(s.subrange(0, 14) =~= "ALERT RAISED: "@);
            assert(s.skip(14) =~= detail);
            assert(s[8] == 'I');
        },
        EventView::Repeated { condition, detail, active_for } => {
            assert(s.subrange(0, 13) =~= "ALERT ACTIVE "@);
            assert(s.skip(13) =~= lifecycle::duration_text(active_for) + seq![':', ' '] + detail);
            assert(s[8] == 'T');
        },
        EventView::Resolved { condition, active_for } => {
            assert(s.subrange(0, 16) =~= "ALERT RESOLVED: "@);
            assert(s.skip(16) =~= lifecycle::condition_label(condition) + " clear after "@
                + lifecycle::duration_text(active_for));
            assert(s[8] == 'S');
        },
    }
}

/// Each condition has a place of its own, and the place gives back the condition.
pub proof fn law_conditions_have_places_of_their_own(c: Condition, d: Condition)
    ensures
        lifecycle::condition_idx(c) < 4,
        lifecycle::condition_at(lifecycle::condition_idx(c) as int) == c,
        lifecycle::condition_idx(c) == lifecycle::condition_idx(d) <==> c == d,
        lifecycle::condition_id(c) == lifecycle::condition_id(d) <==> c == d,
        lifecycle::condition_label(c) == lifecycle::condition_label(d) <==> c == d,
{
    reveal_strlit("overload");
    reveal_strlit("disconnected");
    reveal_strlit("imbalance");
    reveal_strlit("telemetry_lost");
    assert("overload"@[0] == 'o' && "disconnected"@[0] == 'd' && "imbalance"@[0] == 'i'
        && "telemetry_lost"@[0] == 't');
    reveal_strlit("OVERLOAD");
    reveal_strlit("DISCONNECT");
    reveal_strlit("IMBALANCE");
    reveal_strlit("TELEMETRY LOST");
    assert("OVERLOAD"@[0] == 'O' && "DISCONNECT"@[0] == 'D' && "IMBALANCE"@[0] == 'I'
        && "TELEMETRY LOST"@[0] == 'T');
}

/// A second has a thousand milliseconds of a million nanoseconds each.
pub proof fn law_the_units_of_time()
    ensures
        clock::NANOS_PER_SEC == 1_000_000_000,
        clock::NANOS_PER_MILLI * 1_000 == clock::NANOS_PER_SEC,
{
}

} // verus!
