//! Alert lifecycle: per-sample conditions → debounced raised/repeated/resolved events.
//!
//! [`crate::alert::evaluate`] is instantaneous. Notifying on every sample would send thousands
//! of messages per hour during a sustained imbalance (alert fatigue mutes the one that
//! matters), and a single glitched sample could page someone for nothing. This state machine
//! debounces with a majority window: a condition raises once it is seen in `confirm_samples` of
//! the last `2 * confirm_samples - 1` samples — so a steady fault confirms in `confirm_samples`
//! consecutive samples, and a fault oscillating at the sample rate still confirms instead of
//! being reset by every clean sample. An active alert resolves only after `resolve_samples`
//! consecutive clean samples, and re-notifies every `repeat_minutes` while active.
//!
//! Telemetry-loss samples are *unknown*, not healthy: while [`Condition::TelemetryLost`] is
//! present, the physical conditions' windows and resolve counters are frozen, so an overload can
//! neither confirm from nor "resolve" into a gap in the data — the tool must never send an
//! all-clear it didn't measure.

use crate::alert;
use crate::alert::{Alert, AlertView};
use crate::clock;
use crate::clock::{Duration, Instant};
use crate::config::AlertPolicy;
use crate::text;
use crate::text::{decimal_text, pad_left};
use std::collections::VecDeque;
use vstd::prelude::*;

verus! {

/// The sustained conditions an alert lifecycle tracks.
#[derive(Debug, Clone, Copy, PartialEq, Eq, Structural)]
pub enum Condition {
    Overload,
    Disconnected,
    Imbalance,
    /// No usable telemetry — the i2c read failed or the data failed sanity checks.
    TelemetryLost,
}

/// Every condition, in [`Condition::idx`] order.
pub const CONDITIONS: [Condition; 4] = [
    Condition::Overload,
    Condition::Disconnected,
    Condition::Imbalance,
    Condition::TelemetryLost,
];

/// Stable lowercase id of a condition.
pub open spec fn condition_id(c: Condition) -> Seq<char> {
    match c {
        Condition::Overload => "overload"@,
        Condition::Disconnected => "disconnected"@,
        Condition::Imbalance => "imbalance"@,
        Condition::TelemetryLost => "telemetry_lost"@,
    }
}

/// Display form of a condition.
pub open spec fn condition_label(c: Condition) -> Seq<char> {
    match c {
        Condition::Overload => "OVERLOAD"@,
        Condition::Disconnected => "DISCONNECT"@,
        Condition::Imbalance => "IMBALANCE"@,
        Condition::TelemetryLost => "TELEMETRY LOST"@,
    }
}

/// Position of a condition in [`CONDITIONS`].
pub open spec fn condition_idx(c: Condition) -> nat {
    match c {
        Condition::Overload => 0,
        Condition::Disconnected => 1,
        Condition::Imbalance => 2,
        Condition::TelemetryLost => 3,
    }
}

/// The condition at a position.
pub open spec fn condition_at(i: int) -> Condition {
    if i == 0 {
        Condition::Overload
    } else if i == 1 {
        Condition::Disconnected
    } else if i == 2 {
        Condition::Imbalance
    } else {
        Condition::TelemetryLost
    }
}

impl Condition {
    /// Stable lowercase id (webhook payloads, metric labels).
    pub fn id(self) -> (s: &'static str)
        ensures
            s@ == condition_id(self),
    {
        match self {
            Condition::Overload => "overload",
            Condition::Disconnected => "disconnected",
            Condition::Imbalance => "imbalance",
            Condition::TelemetryLost => "telemetry_lost",
        }
    }

    /// Display form for titles and stderr.
    pub fn label(self) -> (s: &'static str)
        ensures
            s@ == condition_label(self),
    {
        match self {
            Condition::Overload => "OVERLOAD",
            Condition::Disconnected => "DISCONNECT",
            Condition::Imbalance => "IMBALANCE",
            Condition::TelemetryLost => "TELEMETRY LOST",
        }
    }

    /// Position in [`CONDITIONS`].
    pub fn idx(self) -> (i: usize)
        ensures
            i == condition_idx(self),
            i < 4,
            condition_at(i as int) == self,
    {
        match self {
            Condition::Overload => 0,
            Condition::Disconnected => 1,
            Condition::Imbalance => 2,
            Condition::TelemetryLost => 3,
        }
    }
}

/// Which lifecycle condition an instantaneous alert feeds.
pub open spec fn fed_by(a: AlertView) -> Condition {
    match a {
        AlertView::Overload(_) => Condition::Overload,
        AlertView::Disconnected(_) => Condition::Disconnected,
        AlertView::Imbalance(_) => Condition::Imbalance,
    }
}

/// Which lifecycle condition an instantaneous alert feeds.
pub fn condition_of(a: &Alert) -> (c: Condition)
    ensures
        c == fed_by(a@),
{
    match a {
        Alert::Overload(_) => Condition::Overload,
        Alert::Disconnected(_) => Condition::Disconnected,
        Alert::Imbalance(_) => Condition::Imbalance,
    }
}

/// What a sample with these alerts says.
pub open spec fn conditions_in(alerts: Seq<AlertView>) -> Seq<(Condition, Seq<char>)> {
    alerts.map_values(|a: AlertView| (fed_by(a), alert::alert_text(a)))
}

/// What a sample with these alerts says.
pub fn conditions(alerts: &Vec<Alert>) -> (out: Vec<(Condition, String)>)
    ensures
        said(out@) == conditions_in(alert::alert_views(alerts@)),
{
    let ghost all = conditions_in(alert::alert_views(alerts@));
    let mut out: Vec<(Condition, String)> = Vec::new();
    let mut i: usize = 0;
    assert(said(out@) =~= all.take(0));
    while i < alerts.len()
        invariant
            i <= alerts.len(),
            all == conditions_in(alert::alert_views(alerts@)),
            said(out@) == all.take(i as int),
        decreases alerts.len() - i,
    {
        let ghost had = said(out@);
        let c = condition_of(&alerts[i]);
        let t = alerts[i].to_string();
        let ghost x = (c, t@);
        out.push((c, t));
        assert(said(out@) =~= had.push(x));
        assert(all[i as int] == x);
        assert(all.take(i + 1) =~= had.push(x));
        i = i + 1;
    }
    assert(all.take(all.len() as int) =~= all);
    out
}

/// A debounced change worth announcing.
#[derive(Debug, Clone, PartialEq)]
pub enum Event {
    Raised { condition: Condition, detail: String },
    Repeated { condition: Condition, detail: String, active_for: Duration },
    Resolved { condition: Condition, active_for: Duration },
}

/// What an [`Event`] says.
#[verifier::ext_equal]
pub enum EventView {
    Raised { condition: Condition, detail: Seq<char> },
    Repeated { condition: Condition, detail: Seq<char>, active_for: Duration },
    Resolved { condition: Condition, active_for: Duration },
}

impl View for Event {
    type V = EventView;

    open spec fn view(&self) -> EventView {
        match *self {
            Event::Raised { condition, detail } => EventView::Raised { condition, detail: detail@ },
            Event::Repeated { condition, detail, active_for } => EventView::Repeated {
                condition,
                detail: detail@,
                active_for,
            },
            Event::Resolved { condition, active_for } => EventView::Resolved {
                condition,
                active_for,
            },
        }
    }
}

/// What a list of events says.
pub open spec fn event_views(v: Seq<Event>) -> Seq<EventView> {
    v.map_values(|e: Event| e@)
}

/// Compact human duration: `42s`, `5m02s`, `1h07m`.
pub open spec fn duration_text(d: Duration) -> Seq<char> {
    let s = clock::whole_secs(d);
    if s >= 3600 {
        text::decimal(s / 3600) + "h"@ + text::padded(text::decimal(s % 3600 / 60), 2, '0') + "m"@
    } else if s >= 60 {
        text::decimal(s / 60) + "m"@ + text::padded(text::decimal(s % 60), 2, '0') + "s"@
    } else {
        text::decimal(s) + "s"@
    }
}

/// An event in words.
pub open spec fn event_text(e: EventView) -> Seq<char> {
    match e {
        EventView::Raised { condition, detail } => "ALERT RAISED: "@ + detail,
        EventView::Repeated { condition, detail, active_for } => "ALERT ACTIVE "@ + duration_text(
            active_for,
        ) + ": "@ + detail,
        EventView::Resolved { condition, active_for } => "ALERT RESOLVED: "@ + condition_label(
            condition,
        ) + " clear after "@ + duration_text(active_for),
    }
}

impl Event {
    /// The event in words.
    pub fn to_string(&self) -> (s: String)
        ensures
            s@ == event_text(self@),
    {
        match self {
            Event::Raised { condition: _, detail } => {
                let mut s = "ALERT RAISED: ".to_owned();
                s.append(detail.as_str());
                s
            },
            Event::Repeated { condition: _, detail, active_for } => {
                let mut s = "ALERT ACTIVE ".to_owned();
                s.append(fmt_duration(*active_for).as_str());
                s.append(": ");
                s.append(detail.as_str());
                s
            },
            Event::Resolved { condition, active_for } => {
                let mut s = "ALERT RESOLVED: ".to_owned();
                s.append(condition.label());
                s.append(" clear after ");
                s.append(fmt_duration(*active_for).as_str());
                s
            },
        }
    }
}

/// Compact human duration: `42s`, `5m02s`, `1h07m`.
pub fn fmt_duration(d: Duration) -> (out: String)
    ensures
        out@ == duration_text(d),
{
    let s: u128 = d.as_secs();
    if s >= 3600 {
        let mut out = decimal_text(s / 3600);
        out.append("h");
        out.append(pad_left(decimal_text(s % 3600 / 60).as_str(), 2, '0').as_str());
        out.append("m");
        out
    } else if s >= 60 {
        let mut out = decimal_text(s / 60);
        out.append("m");
        out.append(pad_left(decimal_text(s % 60).as_str(), 2, '0').as_str());
        out.append("s");
        out
    } else {
        let mut out = decimal_text(s);
        out.append("s");
        out
    }
}

// ---------------------------------------------------------------- the model

/// Where one condition stands.
#[verifier::ext_equal]
pub enum Phase {
    /// Not raised; the most recent known samples, oldest first.
    Watching { window: Seq<bool> },
    /// Raised and not yet resolved.
    Active { since: Instant, last_notified: Instant, clean: nat, detail: Seq<char> },
}

/// A condition that has seen nothing yet.
pub open spec fn fresh() -> Phase {
    Phase::Watching { window: seq![] }
}

/// How many samples the majority window spans.
pub open spec fn window_size(p: AlertPolicy) -> int {
    2 * p.confirm_samples - 1
}

/// How many of the samples saw the condition.
pub open spec fn sightings(window: Seq<bool>) -> nat
    decreases window.len(),
{
    if window.len() == 0 {
        0
    } else {
        sightings(window.drop_last()) + if window.last() {
            1nat
        } else {
            0nat
        }
    }
}

/// The last `n` elements of `s`, or all of them.
pub open spec fn latest(s: Seq<bool>, n: int) -> Seq<bool> {
    if s.len() > n {
        s.skip(s.len() - n)
    } else {
        s
    }
}

/// The time a re-notification waits for, in whole seconds.
pub open spec fn repeat_secs(p: AlertPolicy) -> nat {
    if p.repeat_minutes * 60 <= u64::MAX {
        (p.repeat_minutes * 60) as nat
    } else {
        u64::MAX as nat
    }
}

/// Whether an active alert is to be announced again.
pub open spec fn repeat_due(p: AlertPolicy, now: Instant, last: Instant) -> bool {
    p.repeat_minutes > 0 && clock::whole_secs(clock::elapsed(now, last)) >= repeat_secs(p)
}

/// What a sample says: which conditions are present, each with its text.
pub open spec fn said(present: Seq<(Condition, String)>) -> Seq<(Condition, Seq<char>)> {
    present.map_values(|p: (Condition, String)| (p.0, p.1@))
}

/// The text that comes with a condition in a sample, if the condition is present.
pub open spec fn detail_of(present: Seq<(Condition, Seq<char>)>, c: Condition) -> Option<Seq<char>>
    decreases present.len(),
{
    if present.len() == 0 {
        None
    } else {
        match detail_of(present.drop_last(), c) {
            Some(d) => Some(d),
            None => if present.last().0 == c {
                Some(present.last().1)
            } else {
                None
            },
        }
    }
}

/// Whether a sample carries no telemetry.
pub open spec fn is_lost(present: Seq<(Condition, Seq<char>)>) -> bool {
    detail_of(present, Condition::TelemetryLost) is Some
}

/// Whether a sample says nothing about a condition: no data is not health.
pub open spec fn says_nothing(c: Condition, detail: Option<Seq<char>>, lost: bool) -> bool {
    lost && c != Condition::TelemetryLost && detail is None
}

/// What one sample does to one condition: where it stands next, and what is announced.
pub open spec fn advance(
    p: AlertPolicy,
    c: Condition,
    phase: Phase,
    now: Instant,
    detail: Option<Seq<char>>,
    lost: bool,
) -> (Phase, Option<EventView>) {
    if says_nothing(c, detail, lost) {
        (phase, None)
    } else {
        match phase {
            Phase::Watching { window } => {
                let seen = latest(window.push(detail is Some), window_size(p));
                if detail is Some && sightings(seen) >= p.confirm_samples {
                    (
                        Phase::Active {
                            since: now,
                            last_notified: now,
                            clean: 0,
                            detail: detail->0,
                        },
                        Some(EventView::Raised { condition: c, detail: detail->0 }),
                    )
                } else {
                    (Phase::Watching { window: seen }, None)
                }
            },
            Phase::Active { since, last_notified, clean, detail: _ } => match detail {
                Some(d) => if repeat_due(p, now, last_notified) {
                    (
                        Phase::Active { since, last_notified: now, clean: 0, detail: d },
                        Some(
                            EventView::Repeated {
                                condition: c,
                                detail: d,
                                active_for: clock::elapsed(now, since),
                            },
                        ),
                    )
                } else {
                    (Phase::Active { since, last_notified, clean: 0, detail: d }, None)
                },
                None => if clean + 1 >= p.resolve_samples {
                    (
                        fresh(),
                        Some(
                            EventView::Resolved {
                                condition: c,
                                active_for: clock::elapsed(now, since),
                            },
                        ),
                    )
                } else {
                    (
                        Phase::Active {
                            since,
                            last_notified,
                            clean: clean + 1,
                            detail: phase->Active_detail,
                        },
                        None,
                    )
                },
            },
        }
    }
}

/// What one sample does to the condition at position `i`.
pub open spec fn advance_at(
    p: AlertPolicy,
    phases: Seq<Phase>,
    now: Instant,
    present: Seq<(Condition, Seq<char>)>,
    i: int,
) -> (Phase, Option<EventView>) {
    let c = condition_at(i);
    advance(p, c, phases[i], now, detail_of(present, c), is_lost(present))
}

/// The events the first `n` conditions announce, in order.
pub open spec fn announced(
    p: AlertPolicy,
    phases: Seq<Phase>,
    now: Instant,
    present: Seq<(Condition, Seq<char>)>,
    n: nat,
) -> Seq<EventView>
    decreases n,
{
    if n == 0 {
        seq![]
    } else {
        let before = announced(p, phases, now, present, (n - 1) as nat);
        match advance_at(p, phases, now, present, n - 1).1 {
            Some(e) => before.push(e),
            None => before,
        }
    }
}

// ---------------------------------------------------------------- the machine

/// Where one condition stands.
#[derive(Debug)]
enum State {
    Watching { window: VecDeque<bool> },
    Active { since: Instant, last_notified: Instant, clean: u32, detail: String },
}

impl State {
    spec fn phase(&self) -> Phase {
        match *self {
            State::Watching { window } => Phase::Watching { window: window@ },
            State::Active { since, last_notified, clean, detail } => Phase::Active {
                since,
                last_notified,
                clean: clean as nat,
                detail: detail@,
            },
        }
    }

    fn watching() -> (s: State)
        ensures
            s.phase() == fresh(),
    {
        State::Watching { window: VecDeque::new() }
    }
}

/// A phase keeps to the sizes its policy sets.
pub open spec fn phase_fits(p: AlertPolicy, phase: Phase) -> bool {
    match phase {
        Phase::Watching { window } => window.len() <= window_size(p),
        Phase::Active { since: _, last_notified: _, clean, detail: _ } => clean == 0 || clean
            < p.resolve_samples,
    }
}

/// Per-condition debouncing state machine. Feed it every sample via [`Lifecycle::observe`].
pub struct Lifecycle {
    policy: AlertPolicy,
    states: Vec<State>,
}

fn count_seen(window: &VecDeque<bool>) -> (n: usize)
    ensures
        n == sightings(window@),
        n <= window@.len(),
{
    let mut n: usize = 0;
    let mut i: usize = 0;
    while i < window.len()
        invariant
            i <= window@.len(),
            n == sightings(window@.take(i as int)),
            n <= i,
        decreases window@.len() - i,
    {
        assert(window@.take(i + 1).drop_last() =~= window@.take(i as int));
        if window[i] {
            n = n + 1;
        }
        i = i + 1;
    }
    assert(window@.take(window@.len() as int) =~= window@);
    n
}

fn find_detail(present: &[(Condition, String)], c: Condition) -> (d: Option<&String>)
    ensures
        match d {
            Some(s) => detail_of(said(present@), c) == Some(s@),
            None => detail_of(said(present@), c) is None,
        },
{
    let i: usize = present.len();
    let mut found: Option<&String> = None;
    let mut k: usize = 0;
    while k < i
        invariant
            k <= i,
            i == present@.len(),
            match found {
                Some(s) => detail_of(said(present@).take(k as int), c) == Some(s@),
                None => detail_of(said(present@).take(k as int), c) is None,
            },
        decreases i - k,
    {
        assert(said(present@).take(k + 1).drop_last() =~= said(present@).take(k as int));
        assert(said(present@)[k as int] == (present@[k as int].0, present@[k as int].1@));
        if found.is_none() && present[k].0 == c {
            found = Some(&present[k].1);
        }
        k = k + 1;
    }
    assert(said(present@).take(present@.len() as int) =~= said(present@));
    found
}

impl Lifecycle {
    /// The policy this machine follows.
    pub closed spec fn policy(&self) -> AlertPolicy {
        self.policy
    }

    /// Where each condition stands, in [`CONDITIONS`] order.
    pub closed spec fn phases(&self) -> Seq<Phase> {
        self.states@.map_values(|s: State| s.phase())
    }

    /// The machine is in a state that its policy allows.
    pub open spec fn wf(&self) -> bool {
        &&& self.policy().confirm_samples >= 1
        &&& self.phases().len() == 4
        &&& forall|i: int|
            0 <= i < 4 ==> phase_fits(self.policy(), #[trigger] self.phases()[i])
    }

    /// A machine that has seen nothing yet.
    pub fn new(policy: AlertPolicy) -> (lc: Lifecycle)
        requires
            policy.confirm_samples >= 1,
        ensures
            lc.wf(),
            lc.policy() == policy,
            lc.phases() == seq![fresh(), fresh(), fresh(), fresh()],
    {
        let mut states: Vec<State> = Vec::new();
        states.push(State::watching());
        states.push(State::watching());
        states.push(State::watching());
        states.push(State::watching());
        let lc = Lifecycle { policy, states };
        assert(lc.phases() =~= seq![fresh(), fresh(), fresh(), fresh()]);
        lc
    }

    fn advance_state(
        policy: &AlertPolicy,
        c: Condition,
        state: State,
        now: Instant,
        detail: Option<&String>,
        lost: bool,
    ) -> (r: (State, Option<Event>))
        requires
            policy.confirm_samples >= 1,
            phase_fits(*policy, state.phase()),
        ensures
            phase_fits(*policy, r.0.phase()),
            ({
                let d = match detail {
                    Some(s) => Some(s@),
                    None => None,
                };
                let e = match r.1 {
                    Some(e) => Some(e@),
                    None => None,
                };
                (r.0.phase(), e) == advance(*policy, c, state.phase(), now, d, lost)
            }),
    {
        if lost && c != Condition::TelemetryLost && detail.is_none() {
            return (state, None);
        }
        match state {
            State::Watching { mut window } => {
                let ghost had = window@;
                let size: u64 = 2 * (policy.confirm_samples as u64) - 1;
                window.push_back(detail.is_some());
                if window.len() as u64 > size {
                    let _ = window.pop_front();
                    assert(had.push(detail is Some).len() - size == 1);
                    assert(window@ =~= had.push(detail is Some).skip(1));
                }
                assert(window@ == latest(had.push(detail is Some), window_size(*policy)));
                match detail {
                    Some(d) => {
                        if count_seen(&window) as u64 >= policy.confirm_samples as u64 {
                            let event = Event::Raised { condition: c, detail: d.clone() };
                            (
                                State::Active {
                                    since: now,
                                    last_notified: now,
                                    clean: 0,
                                    detail: d.clone(),
                                },
                                Some(event),
                            )
                        } else {
                            (State::Watching { window }, None)
                        }
                    },
                    None => (State::Watching { window }, None),
                }
            },
            State::Active { since, last_notified, clean, detail: current } => match detail {
                Some(d) => {
                    let minutes: u64 = policy.repeat_minutes;
                    let wait: u64 = if minutes <= u64::MAX / 60 {
                        minutes * 60
                    } else {
                        u64::MAX
                    };
                    if minutes > 0 && now.duration_since(last_notified).as_secs() >= wait as u128 {
                        let event = Event::Repeated {
                            condition: c,
                            detail: d.clone(),
                            active_for: now.duration_since(since),
                        };
                        (
                            State::Active { since, last_notified: now, clean: 0, detail: d.clone() },
                            Some(event),
                        )
                    } else {
                        (State::Active { since, last_notified, clean: 0, detail: d.clone() }, None)
                    }
                },
                None => {
                    if clean as u64 + 1 >= policy.resolve_samples as u64 {
                        (
                            State::watching(),
                            Some(
                                Event::Resolved {
                                    condition: c,
                                    active_for: now.duration_since(since),
                                },
                            ),
                        )
                    } else {
                        (
                            State::Active {
                                since,
                                last_notified,
                                clean: clean + 1,
                                detail: current,
                            },
                            None,
                        )
                    }
                },
            },
        }
    }

    /// Feed one sample's instantaneous conditions; returns the events to announce.
    pub fn observe(&mut self, now: Instant, present: &[(Condition, String)]) -> (out: Vec<Event>)
        requires
            old(self).wf(),
        ensures
            final(self).wf(),
            final(self).policy() == old(self).policy(),
            forall|i: int|
                0 <= i < 4 ==> #[trigger] final(self).phases()[i] == advance_at(
                    old(self).policy(),
                    old(self).phases(),
                    now,
                    said(present@),
                    i,
                ).0,
            event_views(out@) == announced(
                old(self).policy(),
                old(self).phases(),
                now,
                said(present@),
                4,
            ),
    {
        let ghost before = self.phases();
        let ghost policy = self.policy;
        let lost = find_detail(present, Condition::TelemetryLost).is_some();
        let mut events: Vec<Event> = Vec::new();
        let mut rest: Vec<State> = Vec::new();
        std::mem::swap(&mut rest, &mut self.states);
        let ghost all = rest@;
        let mut next: Vec<State> = Vec::new();
        let mut i: usize = 0;
        assert(event_views(events@) =~= seq![]);
        while i < 4
            invariant
                i <= 4,
                self.policy == policy,
                policy.confirm_samples >= 1,
                all.len() == 4,
                before == all.map_values(|s: State| s.phase()),
                rest@ == all.skip(i as int),
                next@.len() == i,
                lost == is_lost(said(present@)),
                forall|j: int| 0 <= j < 4 ==> phase_fits(policy, #[trigger] before[j]),
                forall|j: int|
                    0 <= j < i ==> (#[trigger] next@[j]).phase() == advance_at(
                        policy,
                        before,
                        now,
                        said(present@),
                        j,
                    ).0 && phase_fits(policy, next@[j].phase()),
                event_views(events@) == announced(policy, before, now, said(present@), i as nat),
            decreases 4 - i,
        {
            let c = CONDITIONS[i];
            assert(c == condition_at(i as int));
            let state = rest.remove(0);
            assert(state == all[i as int]);
            assert(before[i as int] == state.phase());
            assert(rest@ =~= all.skip(i + 1));
            let detail = find_detail(present, c);
            let (after, event) = Lifecycle::advance_state(
                &self.policy,
                c,
                state,
                now,
                detail,
                lost,
            );
            let ghost had = events@;
            if let Some(e) = event {
                events.push(e);
                assert(event_views(events@) =~= event_views(had).push(e@));
            }
            next.push(after);
            i = i + 1;
        }
        self.states = next;
        assert(self.phases().len() == 4);
        events
    }
}

} // verus!
