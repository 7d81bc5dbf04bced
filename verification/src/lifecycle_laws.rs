//! What the alert lifecycle promises over whole runs of samples.

use crate::clock;
use crate::clock::Instant;
use crate::config::AlertPolicy;
use crate::lifecycle;
use crate::lifecycle::{Condition, EventView, Phase};
use vstd::prelude::*;

verus! {

/// One sample as one condition sees it.
pub struct Look {
    pub now: Instant,
    pub detail: Option<Seq<char>>,
    pub lost: bool,
}

/// Where a condition stands after a run of samples.
pub open spec fn after(p: AlertPolicy, c: Condition, start: Phase, run: Seq<Look>) -> Phase
    decreases run.len(),
{
    if run.len() == 0 {
        start
    } else {
        let l = run.last();
        lifecycle::advance(p, c, after(p, c, start, run.drop_last()), l.now, l.detail, l.lost).0
    }
}

/// What the last sample of a run announces.
pub open spec fn heard(
    p: AlertPolicy,
    c: Condition,
    start: Phase,
    run: Seq<Look>,
) -> Option<EventView> {
    let l = run.last();
    lifecycle::advance(p, c, after(p, c, start, run.drop_last()), l.now, l.detail, l.lost).1
}

/// Whether a sample tells anything about the condition.
pub open spec fn known(c: Condition, l: Look) -> bool {
    !lifecycle::says_nothing(c, l.detail, l.lost)
}

/// The samples of the run that tell something about the condition, in order.
pub open spec fn known_of(c: Condition, run: Seq<Look>) -> Seq<Look>
    decreases run.len(),
{
    if run.len() == 0 {
        seq![]
    } else if known(c, run.last()) {
        known_of(c, run.drop_last()).push(run.last())
    } else {
        known_of(c, run.drop_last())
    }
}

/// In which samples of the run the condition was present.
pub open spec fn presence(run: Seq<Look>) -> Seq<bool> {
    run.map_values(|l: Look| l.detail is Some)
}

/// A run that never leaves the watching phase.
pub open spec fn stays_watching(p: AlertPolicy, c: Condition, start: Phase, run: Seq<Look>) -> bool {
    forall|k: int| 0 <= k <= run.len() ==> after(p, c, start, #[trigger] run.take(k)) is Watching
}

// ---------------------------------------------------------------- no data

/// A sample without telemetry neither confirms nor resolves a physical condition: it changes
/// nothing and announces nothing.
pub proof fn law_no_data_is_not_health(
    p: AlertPolicy,
    c: Condition,
    phase: Phase,
    now: Instant,
)
    requires
        c != Condition::TelemetryLost,
    ensures
        lifecycle::advance(p, c, phase, now, None, true) == (phase, None::<EventView>),
{
}

/// A whole outage leaves every physical condition exactly where it stood.
pub proof fn law_outage_freezes(p: AlertPolicy, c: Condition, start: Phase, run: Seq<Look>)
    requires
        c != Condition::TelemetryLost,
        forall|i: int| 0 <= i < run.len() ==> (#[trigger] run[i]).lost && run[i].detail is None,
    ensures
        after(p, c, start, run) == start,
        run.len() > 0 ==> heard(p, c, start, run) is None,
    decreases run.len(),
{
    if run.len() > 0 {
        assert forall|i: int| 0 <= i < run.drop_last().len() implies (#[trigger]
        run.drop_last()[i]).lost && run.drop_last()[i].detail is None by {
            assert(run[i].lost);
        }
        law_outage_freezes(p, c, start, run.drop_last());
        assert(run[run.len() - 1].lost);
    }
}

// ---------------------------------------------------------------- raising

proof fn lemma_sightings_bound(w: Seq<bool>)
    ensures
        lifecycle::sightings(w) <= w.len(),
    decreases w.len(),
{
    if w.len() > 0 {
        lemma_sightings_bound(w.drop_last());
    }
}

proof fn lemma_sightings_of_suffix(w: Seq<bool>, k: int)
    requires
        0 <= k <= w.len(),
    ensures
        lifecycle::sightings(w.skip(k)) <= lifecycle::sightings(w),
        lifecycle::sightings(w) <= lifecycle::sightings(w.skip(k)) + k,
    decreases w.len(),
{
    if k == w.len() {
        lemma_sightings_bound(w);
    } else {
        assert(w.skip(k).drop_last() =~= w.drop_last().skip(k));
        assert(w.skip(k).last() == w.last());
        lemma_sightings_of_suffix(w.drop_last(), k);
    }
}

proof fn lemma_all_seen(w: Seq<bool>)
    requires
        forall|i: int| 0 <= i < w.len() ==> #[trigger] w[i],
    ensures
        lifecycle::sightings(w) == w.len(),
    decreases w.len(),
{
    if w.len() > 0 {
        assert(w[w.len() - 1]);
        assert forall|i: int| 0 <= i < w.drop_last().len() implies #[trigger] w.drop_last()[i] by {
            assert(w[i]);
        }
        lemma_all_seen(w.drop_last());
    }
}

proof fn lemma_watching_before(p: AlertPolicy, c: Condition, start: Phase, run: Seq<Look>)
    requires
        run.len() > 0,
        stays_watching(p, c, start, run),
    ensures
        stays_watching(p, c, start, run.drop_last()),
        after(p, c, start, run) is Watching,
{
    let init = run.drop_last();
    assert forall|k: int| 0 <= k <= init.len() implies after(
        p,
        c,
        start,
        #[trigger] init.take(k),
    ) is Watching by {
        assert(init.take(k) =~= run.take(k));
    }
    assert(run.take(run.len() as int) =~= run);
}

/// While a condition is not raised, its window is exactly its most recent known samples; samples
/// without data in between neither count nor reset it.
pub proof fn law_window_is_the_recent_past(p: AlertPolicy, c: Condition, run: Seq<Look>)
    requires
        p.confirm_samples >= 1,
        stays_watching(p, c, lifecycle::fresh(), run),
    ensures
        after(p, c, lifecycle::fresh(), run) == (Phase::Watching {
            window: lifecycle::latest(presence(known_of(c, run)), lifecycle::window_size(p)),
        }),
    decreases run.len(),
{
    let size = lifecycle::window_size(p);
    let start = lifecycle::fresh();
    if run.len() == 0 {
        assert(presence(known_of(c, run)) =~= seq![]);
    } else {
        let init = run.drop_last();
        lemma_watching_before(p, c, start, run);
        law_window_is_the_recent_past(p, c, init);
        if known(c, run.last()) {
            lemma_window_moves_on(p, presence(known_of(c, init)), run.last().detail is Some);
            assert(presence(known_of(c, run)) =~= presence(known_of(c, init)).push(
                run.last().detail is Some,
            ));
        }
    }
}

proof fn lemma_window_moves_on(p: AlertPolicy, past: Seq<bool>, x: bool)
    requires
        p.confirm_samples >= 1,
    ensures
        lifecycle::latest(
            lifecycle::latest(past, lifecycle::window_size(p)).push(x),
            lifecycle::window_size(p),
        ) == lifecycle::latest(past.push(x), lifecycle::window_size(p)),
{
    let size = lifecycle::window_size(p);
    assert(lifecycle::latest(lifecycle::latest(past, size).push(x), size) =~= lifecycle::latest(
        past.push(x),
        size,
    ));
}

/// An alert is raised exactly when the condition is present and was seen in `confirm_samples` of
/// the last `2 * confirm_samples - 1` known samples, however many samples without data lie in
/// between.
pub proof fn law_raise_needs_a_majority(p: AlertPolicy, c: Condition, run: Seq<Look>)
    requires
        p.confirm_samples >= 1,
        run.len() > 0,
        stays_watching(p, c, lifecycle::fresh(), run.drop_last()),
    ensures
        heard(p, c, lifecycle::fresh(), run) matches Some(e) ==> e == (EventView::Raised {
            condition: c,
            detail: run.last().detail->0,
        }),
        heard(p, c, lifecycle::fresh(), run) is Some <==> (run.last().detail is Some
            && lifecycle::sightings(
            lifecycle::latest(presence(known_of(c, run)), lifecycle::window_size(p)),
        ) >= p.confirm_samples),
        heard(p, c, lifecycle::fresh(), run) is Some <==> after(
            p,
            c,
            lifecycle::fresh(),
            run,
        ) is Active,
{
    let init = run.drop_last();
    law_window_is_the_recent_past(p, c, init);
    if known(c, run.last()) {
        lemma_window_moves_on(p, presence(known_of(c, init)), run.last().detail is Some);
        assert(presence(known_of(c, run)) =~= presence(known_of(c, init)).push(
            run.last().detail is Some,
        ));
    }
}

/// Isolated glitches never raise: as long as no window of recent known samples holds
/// `confirm_samples` sightings, the condition stays unraised.
pub proof fn law_isolated_glitches_do_not_raise(p: AlertPolicy, c: Condition, run: Seq<Look>)
    requires
        p.confirm_samples >= 1,
        forall|k: int|
            0 <= k <= run.len() ==> lifecycle::sightings(
                lifecycle::latest(
                    presence(known_of(c, #[trigger] run.take(k))),
                    lifecycle::window_size(p),
                ),
            ) < p.confirm_samples,
    ensures
        stays_watching(p, c, lifecycle::fresh(), run),
    decreases run.len(),
{
    let start = lifecycle::fresh();
    assert(run.take(run.len() as int) =~= run);
    if run.len() > 0 {
        let init = run.drop_last();
        assert forall|k: int| 0 <= k <= init.len() implies lifecycle::sightings(
            lifecycle::latest(
                presence(known_of(c, #[trigger] init.take(k))),
                lifecycle::window_size(p),
            ),
        ) < p.confirm_samples by {
            assert(init.take(k) =~= run.take(k));
        }
        law_isolated_glitches_do_not_raise(p, c, init);
        law_raise_needs_a_majority(p, c, run);
        assert forall|k: int| 0 <= k <= run.len() implies after(
            p,
            c,
            start,
            #[trigger] run.take(k),
        ) is Watching by {
            if k < run.len() {
                assert(run.take(k) =~= init.take(k));
            }
        }
    } else {
        assert forall|k: int| 0 <= k <= run.len() implies after(
            p,
            c,
            start,
            #[trigger] run.take(k),
        ) is Watching by {
            assert(run.take(k) =~= run);
        }
    }
}

/// The condition is present in every sample that tells anything of it.
pub open spec fn steady(c: Condition, run: Seq<Look>) -> bool {
    forall|i: int| 0 <= i < run.len() ==> (known(c, #[trigger] run[i]) ==> run[i].detail is Some)
}

proof fn lemma_known_are_seen(c: Condition, run: Seq<Look>)
    requires
        steady(c, run),
    ensures
        forall|i: int|
            0 <= i < known_of(c, run).len() ==> (#[trigger] known_of(c, run)[i]).detail is Some,
    decreases run.len(),
{
    if run.len() > 0 {
        let init = run.drop_last();
        assert forall|i: int|
            0 <= i < init.len() && known(c, #[trigger] init[i]) implies init[i].detail is Some by {
            assert(init[i] == run[i]);
        }
        lemma_known_are_seen(c, init);
        assert(run.last() == run[run.len() - 1]);
        assert forall|i: int| 0 <= i < known_of(c, run).len() implies (#[trigger] known_of(
            c,
            run,
        )[i]).detail is Some by {
            if i < known_of(c, init).len() {
                assert(known_of(c, run)[i] == known_of(c, init)[i]);
            }
        }
    }
}

proof fn lemma_known_grow(c: Condition, run: Seq<Look>, k: int)
    requires
        0 <= k <= run.len(),
    ensures
        known_of(c, run.take(k)).len() <= known_of(c, run).len(),
    decreases run.len(),
{
    if k < run.len() {
        assert(run.drop_last().take(k) =~= run.take(k));
        lemma_known_grow(c, run.drop_last(), k);
    } else {
        assert(run.take(k) =~= run);
    }
}

/// A steady fault is raised by its `confirm_samples`-th known sample, and by none before it.
pub proof fn law_steady_fault_raises_on_time(p: AlertPolicy, c: Condition, run: Seq<Look>)
    requires
        p.confirm_samples >= 1,
        steady(c, run),
        known_of(c, run).len() == p.confirm_samples,
        run.last().detail is Some,
    ensures
        heard(p, c, lifecycle::fresh(), run) == Some(
            EventView::Raised { condition: c, detail: run.last().detail->0 },
        ),
        forall|k: int|
            0 < k < run.len() ==> heard(p, c, lifecycle::fresh(), #[trigger] run.take(k)) is None,
{
    let size = lifecycle::window_size(p);
    let init = run.drop_last();
    assert forall|k: int| 0 <= k <= init.len() implies lifecycle::sightings(
        lifecycle::latest(presence(known_of(c, #[trigger] init.take(k))), size),
    ) < p.confirm_samples by {
        lemma_known_grow(c, init, k);
        lemma_sightings_bound(lifecycle::latest(presence(known_of(c, init.take(k))), size));
    }
    law_isolated_glitches_do_not_raise(p, c, init);
    law_raise_needs_a_majority(p, c, run);
    lemma_known_are_seen(c, run);
    let seen = presence(known_of(c, run));
    assert forall|i: int| 0 <= i < seen.len() implies #[trigger] seen[i] by {
        assert(known_of(c, run)[i].detail is Some);
    }
    lemma_all_seen(seen);
    assert forall|k: int| 0 < k < run.len() implies heard(
        p,
        c,
        lifecycle::fresh(),
        #[trigger] run.take(k),
    ) is None by {
        let part = run.take(k);
        assert(part =~= init.take(k));
        assert forall|m: int| 0 <= m <= part.drop_last().len() implies after(
            p,
            c,
            lifecycle::fresh(),
            #[trigger] part.drop_last().take(m),
        ) is Watching by {
            assert(part.drop_last().take(m) =~= init.take(m));
        }
        law_raise_needs_a_majority(p, c, part);
        assert(after(p, c, lifecycle::fresh(), init.take(k)) is Watching);
    }
}

/// Samples that tell nothing of the condition change nothing for it.
proof fn lemma_only_known_matter(p: AlertPolicy, c: Condition, start: Phase, run: Seq<Look>)
    ensures
        after(p, c, start, run) == after(p, c, start, known_of(c, run)),
    decreases run.len(),
{
    if run.len() > 0 {
        let init = run.drop_last();
        lemma_only_known_matter(p, c, start, init);
        if known(c, run.last()) {
            assert(known_of(c, run).drop_last() =~= known_of(c, init));
        }
    }
}

/// Whatever the window held before, `confirm_samples` sightings without a known clean sample
/// among them leave the condition raised: a steady fault is never starved.
pub proof fn law_steady_fault_is_never_starved(
    p: AlertPolicy,
    c: Condition,
    start: Phase,
    run: Seq<Look>,
)
    requires
        p.confirm_samples >= 1,
        lifecycle::phase_fits(p, start),
        steady(c, run),
        known_of(c, run).len() >= p.confirm_samples,
    ensures
        after(p, c, start, run) is Active,
{
    let seen = known_of(c, run);
    lemma_known_are_seen(c, run);
    lemma_only_known_matter(p, c, start, run);
    lemma_steady_from_any(p, c, start, seen);
    match after(p, c, start, seen) {
        Phase::Watching { window } => {
            let k = if seen.len() < window.len() { seen.len() as int } else { window.len() as int };
            lemma_all_seen(window.skip(window.len() - k));
            lemma_sightings_of_suffix(window, window.len() - k);
        },
        _ => {},
    }
}

proof fn lemma_steady_from_any(p: AlertPolicy, c: Condition, start: Phase, run: Seq<Look>)
    requires
        p.confirm_samples >= 1,
        lifecycle::phase_fits(p, start),
        forall|i: int| 0 <= i < run.len() ==> (#[trigger] run[i]).detail is Some,
    ensures
        after(p, c, start, run) matches Phase::Watching { window } ==> {
            &&& start is Watching
            &&& window.len() <= lifecycle::window_size(p)
            &&& window.len() >= run.len() || window.len() == lifecycle::window_size(p)
            &&& forall|i: int|
                0 <= i < window.len() && window.len() - run.len() <= i ==> #[trigger] window[i]
            &&& run.len() > 0 ==> lifecycle::sightings(window) < p.confirm_samples
        },
    decreases run.len(),
{
    if run.len() > 0 {
        let init = run.drop_last();
        assert forall|i: int| 0 <= i < init.len() implies (#[trigger] init[i]).detail is Some by {
            assert(run[i].detail is Some);
        }
        lemma_steady_from_any(p, c, start, init);
        assert(run[run.len() - 1].detail is Some);
        match after(p, c, start, init) {
            Phase::Watching { window } => {
                let next = lifecycle::latest(window.push(true), lifecycle::window_size(p));
                assert forall|i: int|
                    0 <= i < next.len() && next.len() - run.len() <= i implies #[trigger] next[i] by {
                    let shift = window.len() + 1 - next.len();
                    assert(next[i] == window.push(true)[i + shift]);
                    if i + shift < window.len() {
                        assert(window[i + shift]);
                    }
                }
            },
            _ => {},
        }
    }
}

/// A fault present in a majority of the known samples of some window is raised, even when every
/// other one of them is clean: an oscillating fault still confirms.
pub proof fn law_oscillating_fault_confirms(p: AlertPolicy, c: Condition, run: Seq<Look>)
    requires
        p.confirm_samples >= 1,
        known_of(c, run).len() == lifecycle::window_size(p),
        forall|i: int|
            0 <= i < known_of(c, run).len() ==> ((#[trigger] known_of(c, run)[i]).detail is Some
                <==> i % 2 == 0),
    ensures
        !stays_watching(p, c, lifecycle::fresh(), run),
    decreases run.len(),
{
    if stays_watching(p, c, lifecycle::fresh(), run) {
        lemma_watching_before(p, c, lifecycle::fresh(), run);
        if known(c, run.last()) {
            law_raise_needs_a_majority(p, c, run);
            let seen = known_of(c, run);
            assert forall|i: int| 0 <= i < presence(seen).len() implies (#[trigger] presence(
                seen,
            )[i] <==> i % 2 == 0) by {
                assert(seen[i].detail is Some <==> i % 2 == 0);
            }
            lemma_alternating(presence(seen));
            assert(seen[seen.len() - 1].detail is Some);
        } else {
            law_oscillating_fault_confirms(p, c, run.drop_last());
        }
    }
}

proof fn lemma_alternating(w: Seq<bool>)
    requires
        forall|i: int| 0 <= i < w.len() ==> (#[trigger] w[i] <==> i % 2 == 0),
    ensures
        lifecycle::sightings(w) == (w.len() + 1) / 2,
    decreases w.len(),
{
    if w.len() > 0 {
        assert(w[w.len() - 1] <==> (w.len() - 1) % 2 == 0);
        assert forall|i: int| 0 <= i < w.drop_last().len() implies (#[trigger] w.drop_last()[i]
            <==> i % 2 == 0) by {
            assert(w[i] <==> i % 2 == 0);
        }
        lemma_alternating(w.drop_last());
    }
}

// ---------------------------------------------------------------- one alert per incident

/// Nothing in the run is announced as resolved.
pub open spec fn never_resolves(p: AlertPolicy, c: Condition, start: Phase, run: Seq<Look>) -> bool {
    forall|k: int|
        0 < k <= run.len() ==> !(heard(p, c, start, #[trigger] run.take(k)) matches Some(e)
            && e is Resolved)
}

/// A raised alert is not raised again before it has resolved: one alert per incident.
pub proof fn law_one_raise_per_incident(p: AlertPolicy, c: Condition, start: Phase, run: Seq<Look>)
    requires
        start is Active,
        run.len() > 0,
        never_resolves(p, c, start, run.drop_last()),
    ensures
        !(heard(p, c, start, run) matches Some(e) && e is Raised),
{
    lemma_stays_active(p, c, start, run.drop_last());
}

proof fn lemma_stays_active(p: AlertPolicy, c: Condition, start: Phase, run: Seq<Look>)
    requires
        start is Active,
        never_resolves(p, c, start, run),
    ensures
        after(p, c, start, run) is Active,
    decreases run.len(),
{
    if run.len() > 0 {
        let init = run.drop_last();
        assert forall|k: int| 0 < k <= init.len() implies !(heard(
            p,
            c,
            start,
            #[trigger] init.take(k),
        ) matches Some(e) && e is Resolved) by {
            assert(init.take(k) =~= run.take(k));
        }
        lemma_stays_active(p, c, start, init);
        assert(run.take(run.len() as int) =~= run);
    }
}

// ---------------------------------------------------------------- resolving

/// How many known clean samples stand at the end of the run since the condition was last seen;
/// samples without data are passed over.
pub open spec fn clean_streak(c: Condition, run: Seq<Look>) -> nat
    decreases run.len(),
{
    if run.len() == 0 || run.last().detail is Some {
        0
    } else if known(c, run.last()) {
        clean_streak(c, run.drop_last()) + 1
    } else {
        clean_streak(c, run.drop_last())
    }
}

proof fn lemma_clean_counts(
    p: AlertPolicy,
    c: Condition,
    since: Instant,
    last: Instant,
    detail: Seq<char>,
    run: Seq<Look>,
)
    requires
        never_resolves(
            p,
            c,
            Phase::Active { since, last_notified: last, clean: 0, detail },
            run,
        ),
    ensures
        after(p, c, Phase::Active { since, last_notified: last, clean: 0, detail }, run) matches Phase::Active {
            since: s,
            last_notified: _,
            clean,
            detail: _,
        } && s == since && clean == clean_streak(c, run),
    decreases run.len(),
{
    let start = Phase::Active { since, last_notified: last, clean: 0, detail };
    if run.len() > 0 {
        let init = run.drop_last();
        assert forall|k: int| 0 < k <= init.len() implies !(heard(
            p,
            c,
            start,
            #[trigger] init.take(k),
        ) matches Some(e) && e is Resolved) by {
            assert(init.take(k) =~= run.take(k));
        }
        lemma_clean_counts(p, c, since, last, detail, init);
        assert(run.take(run.len() as int) =~= run);
    }
}

/// An active alert resolves exactly when the sample completes a streak of `resolve_samples`
/// measured clean samples; the event carries the time since the raise, and the watch starts afresh.
pub proof fn law_resolves_after_a_clean_streak(
    p: AlertPolicy,
    c: Condition,
    since: Instant,
    detail: Seq<char>,
    run: Seq<Look>,
)
    requires
        run.len() > 0,
        never_resolves(
            p,
            c,
            Phase::Active { since, last_notified: since, clean: 0, detail },
            run.drop_last(),
        ),
    ensures
        ({
            let start = Phase::Active { since, last_notified: since, clean: 0, detail };
            let e = heard(p, c, start, run);
            &&& (e matches Some(ev) && ev is Resolved) <==> (known(c, run.last())
                && run.last().detail is None && clean_streak(c, run) >= p.resolve_samples)
            &&& (e matches Some(ev) && ev is Resolved) ==> e == Some(
                EventView::Resolved {
                    condition: c,
                    active_for: clock::elapsed(run.last().now, since),
                },
            )
            &&& (e matches Some(ev) && ev is Resolved) ==> after(p, c, start, run)
                == lifecycle::fresh()
        }),
{
    lemma_clean_counts(p, c, since, since, detail, run.drop_last());
}

// ---------------------------------------------------------------- repeating

/// Whether an event is a repeat.
pub open spec fn is_repeat(e: Option<EventView>) -> bool {
    e matches Some(ev) && ev is Repeated
}

/// When an alert raised at `since` was last announced in the run that followed.
pub open spec fn last_word(
    p: AlertPolicy,
    c: Condition,
    since: Instant,
    start: Phase,
    run: Seq<Look>,
) -> Instant
    decreases run.len(),
{
    if run.len() == 0 {
        since
    } else if is_repeat(heard(p, c, start, run)) {
        run.last().now
    } else {
        last_word(p, c, since, start, run.drop_last())
    }
}

proof fn lemma_last_word(
    p: AlertPolicy,
    c: Condition,
    since: Instant,
    detail: Seq<char>,
    run: Seq<Look>,
)
    requires
        never_resolves(
            p,
            c,
            Phase::Active { since, last_notified: since, clean: 0, detail },
            run,
        ),
    ensures
        ({
            let start = Phase::Active { since, last_notified: since, clean: 0, detail };
            let then = after(p, c, start, run);
            &&& then is Active
            &&& then->since == since
            &&& then->last_notified == last_word(p, c, since, start, run)
        }),
    decreases run.len(),
{
    let start = Phase::Active { since, last_notified: since, clean: 0, detail };
    if run.len() > 0 {
        let init = run.drop_last();
        assert forall|k: int| 0 < k <= init.len() implies !(heard(
            p,
            c,
            start,
            #[trigger] init.take(k),
        ) matches Some(e) && e is Resolved) by {
            assert(init.take(k) =~= run.take(k));
        }
        lemma_last_word(p, c, since, detail, init);
        assert(run.take(run.len() as int) =~= run);
    }
}

/// An active alert is announced again exactly when the condition is present and
/// `repeat_minutes` — none for zero — have passed since it was last announced, be that the raise
/// or a repeat. The event carries the text of its sample and the time since the raise.
pub proof fn law_repeats_keep_their_distance(
    p: AlertPolicy,
    c: Condition,
    since: Instant,
    detail: Seq<char>,
    run: Seq<Look>,
)
    requires
        run.len() > 0,
        never_resolves(
            p,
            c,
            Phase::Active { since, last_notified: since, clean: 0, detail },
            run.drop_last(),
        ),
    ensures
        ({
            let start = Phase::Active { since, last_notified: since, clean: 0, detail };
            let e = heard(p, c, start, run);
            let last = last_word(p, c, since, start, run.drop_last());
            &&& is_repeat(e) <==> run.last().detail is Some && p.repeat_minutes > 0
                && clock::whole_secs(clock::elapsed(run.last().now, last))
                >= lifecycle::repeat_secs(p)
            &&& is_repeat(e) ==> e == Some(
                EventView::Repeated {
                    condition: c,
                    detail: run.last().detail->0,
                    active_for: clock::elapsed(run.last().now, since),
                },
            )
        }),
{
    lemma_last_word(p, c, since, detail, run.drop_last());
}

// ---------------------------------------------------------------- independence

/// What a sample does to a condition depends on nothing but that condition's own text and on
/// whether telemetry was lost.
pub proof fn law_conditions_are_independent(
    p: AlertPolicy,
    phases: Seq<Phase>,
    others: Seq<Phase>,
    now: Instant,
    present: Seq<(Condition, Seq<char>)>,
    instead: Seq<(Condition, Seq<char>)>,
    i: int,
)
    requires
        0 <= i < 4,
        phases[i] == others[i],
        lifecycle::detail_of(present, lifecycle::condition_at(i)) == lifecycle::detail_of(
            instead,
            lifecycle::condition_at(i),
        ),
        lifecycle::is_lost(present) == lifecycle::is_lost(instead),
    ensures
        lifecycle::advance_at(p, phases, now, present, i) == lifecycle::advance_at(
            p,
            others,
            now,
            instead,
            i,
        ),
{
}

} // verus!
