//! What the alert gauges and the counters show after any run of samples and events.

use crate::clock::Instant;
use crate::decode::Reading;
use crate::lifecycle::{Condition, EventView};
use crate::metrics;
use crate::metrics::Snapshot;
use crate::metrics_laws;
use crate::metrics_laws::Told;
use crate::monitor;
use vstd::prelude::*;

verus! {

/// Nothing told yet.
pub open spec fn fresh() -> Snapshot {
    Snapshot {
        reading: None,
        last_sample_ok: false,
        samples_total: 0,
        read_failures_total: 0,
        implausible_total: 0,
        active: seq![false, false, false, false],
        raised_total: seq![0u64, 0, 0, 0],
    }
}

/// Where a condition stands among the flags and counters.
pub open spec fn place(c: Condition) -> int {
    match c {
        Condition::Overload => 0,
        Condition::Disconnected => 1,
        Condition::Imbalance => 2,
        Condition::TelemetryLost => 3,
    }
}

/// A raise of the condition was told.
pub open spec fn raises(t: Told, c: Condition) -> bool {
    t matches Told::Event(e) && e is Raised && e->Raised_condition == c
}

/// A resolve of the condition was told.
pub open spec fn resolves(t: Told, c: Condition) -> bool {
    t matches Told::Event(e) && e is Resolved && e->Resolved_condition == c
}

/// Whether the last raise or resolve of the condition in the run was a raise.
pub open spec fn ends_raised(told: Seq<Told>, c: Condition) -> bool {
    exists|i: int|
        0 <= i < told.len() && raises(#[trigger] told[i], c) && forall|j: int|
            i < j < told.len() ==> !resolves(#[trigger] told[j], c)
}

/// How many of the things told are of a kind.
pub open spec fn tally(told: Seq<Told>, f: spec_fn(Told) -> bool) -> nat
    decreases told.len(),
{
    if told.len() == 0 {
        0
    } else {
        tally(told.drop_last(), f) + if f(told.last()) {
            1nat
        } else {
            0nat
        }
    }
}

proof fn lemma_tally_bound(told: Seq<Told>, f: spec_fn(Told) -> bool)
    ensures
        tally(told, f) <= told.len(),
    decreases told.len(),
{
    if told.len() > 0 {
        lemma_tally_bound(told.drop_last(), f);
    }
}

/// A repeat leaves everything as it was, and so does nothing else but what was told change the
/// flag of a condition: a raise sets the flag of its own condition and counts it, a resolve
/// clears it.
pub proof fn law_what_an_event_changes(m: Snapshot, e: EventView, c: Condition)
    requires
        m.active.len() == 4,
        m.raised_total.len() == 4,
    ensures
        e is Repeated ==> metrics::with_event(m, e) == m,
        e is Raised && e->Raised_condition == c ==> metrics::with_event(m, e).active[place(c)],
        e is Raised && e->Raised_condition == c && m.raised_total[place(c)] < u64::MAX
            ==> metrics::with_event(m, e).raised_total[place(c)] == m.raised_total[place(c)] + 1,
        e is Resolved && e->Resolved_condition == c ==> !metrics::with_event(m, e).active[place(c)],
        !(e is Raised && e->Raised_condition == c) ==> metrics::with_event(
            m,
            e,
        ).raised_total[place(c)] == m.raised_total[place(c)],
        !(e is Raised && e->Raised_condition == c) && !(e is Resolved && e->Resolved_condition
            == c) ==> metrics::with_event(m, e).active[place(c)] == m.active[place(c)],
        metrics::with_event(m, e).reading == m.reading,
        metrics::with_event(m, e).last_sample_ok == m.last_sample_ok,
        metrics::with_event(m, e).samples_total == m.samples_total,
        metrics::with_event(m, e).read_failures_total == m.read_failures_total,
        metrics::with_event(m, e).implausible_total == m.implausible_total,
        metrics::with_event(m, e).active.len() == 4,
        metrics::with_event(m, e).raised_total.len() == 4,
{
}

proof fn lemma_lengths(told: Seq<Told>)
    ensures
        metrics_laws::after_all(fresh(), told).active.len() == 4,
        metrics_laws::after_all(fresh(), told).raised_total.len() == 4,
    decreases told.len(),
{
    if told.len() > 0 {
        lemma_lengths(told.drop_last());
    }
}

/// After any run the flag of a condition is up exactly when the last raise or resolve of that
/// condition was a raise. Repeats, other conditions and samples do not matter.
pub proof fn law_the_flag_follows_raise_and_resolve(told: Seq<Told>, c: Condition)
    ensures
        metrics_laws::after_all(fresh(), told).active[place(c)] <==> ends_raised(told, c),
    decreases told.len(),
{
    lemma_lengths(told);
    if told.len() > 0 {
        let front = told.drop_last();
        let last = told.last();
        let n = told.len() - 1;
        lemma_lengths(front);
        law_the_flag_follows_raise_and_resolve(front, c);
        let before = metrics_laws::after_all(fresh(), front);
        assert forall|j: int| 0 <= j < front.len() implies front[j] == told[j] by {}
        assert(told[n] == last);
        if last is Event {
            law_what_an_event_changes(before, last->Event_0, c);
        }
        if raises(last, c) {
            assert(raises(told[n], c));
        } else if resolves(last, c) {
            assert(resolves(told[n], c));
        } else {
            if ends_raised(front, c) {
                let i = choose|i: int|
                    0 <= i < front.len() && raises(#[trigger] front[i], c) && forall|j: int|
                        i < j < front.len() ==> !resolves(#[trigger] front[j], c);
                assert(raises(told[i], c));
                assert forall|j: int| i < j < told.len() implies !resolves(
                    #[trigger] told[j],
                    c,
                ) by {
                    if j < n {
                        assert(!resolves(front[j], c));
                    }
                }
            }
            if ends_raised(told, c) {
                let i = choose|i: int|
                    0 <= i < told.len() && raises(#[trigger] told[i], c) && forall|j: int|
                        i < j < told.len() ==> !resolves(#[trigger] told[j], c);
                assert(i < n);
                assert(raises(front[i], c));
                assert forall|j: int| i < j < front.len() implies !resolves(
                    #[trigger] front[j],
                    c,
                ) by {
                    assert(!resolves(told[j], c));
                }
            }
        }
    }
}

/// After any run the counter of a condition is the number of its raises.
pub proof fn law_the_counter_counts_raises(told: Seq<Told>, c: Condition)
    requires
        told.len() < u64::MAX,
    ensures
        metrics_laws::after_all(fresh(), told).raised_total[place(c)] == tally(
            told,
            |t: Told| raises(t, c),
        ),
    decreases told.len(),
{
    let f = |t: Told| raises(t, c);
    lemma_tally_bound(told, f);
    if told.len() > 0 {
        let front = told.drop_last();
        lemma_lengths(front);
        lemma_tally_bound(front, f);
        law_the_counter_counts_raises(front, c);
        if told.last() is Event {
            law_what_an_event_changes(
                metrics_laws::after_all(fresh(), front),
                told.last()->Event_0,
                c,
            );
        }
    }
}

/// After any run the sample counters are what was told: every sample counts once, failed reads and
/// implausible readings are counted besides, and events do not count.
pub proof fn law_samples_are_counted(told: Seq<Told>)
    requires
        told.len() < u64::MAX,
    ensures
        metrics_laws::after_all(fresh(), told).samples_total == tally(
            told,
            |t: Told| !(t is Event),
        ),
        metrics_laws::after_all(fresh(), told).read_failures_total == tally(
            told,
            |t: Told| t is ReadError,
        ),
        metrics_laws::after_all(fresh(), told).implausible_total == tally(
            told,
            |t: Told| t is Implausible,
        ),
    decreases told.len(),
{
    let f = |t: Told| !(t is Event);
    let g = |t: Told| t is ReadError;
    let h = |t: Told| t is Implausible;
    lemma_tally_bound(told, f);
    lemma_tally_bound(told, g);
    lemma_tally_bound(told, h);
    if told.len() > 0 {
        let front = told.drop_last();
        lemma_lengths(front);
        lemma_tally_bound(front, f);
        lemma_tally_bound(front, g);
        lemma_tally_bound(front, h);
        law_samples_are_counted(front);
        if told.last() is Event {
            law_what_an_event_changes(
                metrics_laws::after_all(fresh(), front),
                told.last()->Event_0,
                Condition::Overload,
            );
        }
    }
}

/// After any run the connector counts as up exactly when the last sample was a good one.
pub proof fn law_up_means_the_last_sample_was_good(told: Seq<Told>)
    ensures
        metrics_laws::after_all(fresh(), told).last_sample_ok <==> exists|i: int|
            0 <= i < told.len() && (#[trigger] told[i]) is Good && forall|j: int|
                i < j < told.len() ==> (#[trigger] told[j]) is Event,
    decreases told.len(),
{
    if told.len() > 0 {
        let front = told.drop_last();
        let n = told.len() - 1;
        lemma_lengths(front);
        law_up_means_the_last_sample_was_good(front);
        assert forall|j: int| 0 <= j < front.len() implies front[j] == told[j] by {}
        assert(told[n] == told.last());
        if told.last() is Event {
            law_what_an_event_changes(
                metrics_laws::after_all(fresh(), front),
                told.last()->Event_0,
                Condition::Overload,
            );
            if metrics_laws::after_all(fresh(), front).last_sample_ok {
                let i = choose|i: int|
                    0 <= i < front.len() && (#[trigger] front[i]) is Good && forall|j: int|
                        i < j < front.len() ==> (#[trigger] front[j]) is Event;
                assert(told[i] is Good);
                assert forall|j: int| i < j < told.len() implies (#[trigger] told[j]) is Event by {
                    if j < n {
                        assert(front[j] is Event);
                    }
                }
            }
            if exists|i: int|
                0 <= i < told.len() && (#[trigger] told[i]) is Good && forall|j: int|
                    i < j < told.len() ==> (#[trigger] told[j]) is Event {
                let i = choose|i: int|
                    0 <= i < told.len() && (#[trigger] told[i]) is Good && forall|j: int|
                        i < j < told.len() ==> (#[trigger] told[j]) is Event;
                assert(front[i] is Good);
                assert forall|j: int| i < j < front.len() implies (#[trigger] front[j]) is Event by {
                    assert(told[j] is Event);
                }
            }
        } else if told.last() is Good {
            assert(told[n] is Good);
        } else {
            assert(!(told[n] is Event));
        }
    }
}

/// A sample is told for what it is: a reading with no pin above 20 V and one at 5 V or more is
/// good, any other reading is implausible, and a failed read is a failed read.
pub proof fn law_a_sample_is_told_for_what_it_is(
    m: Snapshot,
    sample: Result<Reading, String>,
    now: Instant,
)
    ensures
        ({
            let rail = sample matches Ok(r) && (forall|i: int|
                0 <= i < 6 ==> (#[trigger] r.pins@[i]).millivolts <= 20_000) && (exists|i: int|
                0 <= i < 6 && (#[trigger] r.pins@[i]).millivolts >= 5_000);
            monitor::with_sample(m, sample, now) == metrics_laws::after_told(
                m,
                if rail {
                    Told::Good(sample->Ok_0, now)
                } else if sample is Ok {
                    Told::Implausible
                } else {
                    Told::ReadError
                },
            )
        }),
{
    if sample is Ok {
        crate::reading_laws::law_plausible_means_a_rail(sample->Ok_0);
    }
}

/// What each of the samples changes: a good one is kept with its time, the others keep what there
/// was.
pub proof fn law_what_a_sample_changes(m: Snapshot, r: Reading, now: Instant)
    ensures
        metrics::with_reading(m, r, now).reading == Some((r, now)),
        metrics::with_reading(m, r, now).active == m.active,
        metrics::with_reading(m, r, now).raised_total == m.raised_total,
        metrics::with_implausible(m).reading == m.reading,
        metrics::with_implausible(m).active == m.active,
        metrics::with_implausible(m).raised_total == m.raised_total,
        metrics::with_read_error(m).reading == m.reading,
        metrics::with_read_error(m).active == m.active,
        metrics::with_read_error(m).raised_total == m.raised_total,
{
}

/// The events of a sample are told one after the other, none left out.
pub proof fn law_events_are_told_in_order(m: Snapshot, events: Seq<EventView>)
    ensures
        monitor::with_events(m, events) == metrics_laws::after_all(
            m,
            events.map_values(|e: EventView| Told::Event(e)),
        ),
    decreases events.len(),
{
    let told = events.map_values(|e: EventView| Told::Event(e));
    if events.len() > 0 {
        law_events_are_told_in_order(m, events.drop_last());
        assert(told.drop_last() =~= events.drop_last().map_values(|e: EventView| Told::Event(e)));
        assert(told.last() == Told::Event(events.last()));
    }
}

} // verus!
