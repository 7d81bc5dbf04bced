//! Prometheus metrics: a snapshot the sampling loop feeds and a scrape renders.
//!
//! The sampler is the only thing that touches the i2c bus — a scrape reads this cache, so
//! Prometheus polling can never add bus traffic, no matter how aggressive the scrape
//! interval. Alert gauges/counters track the debounced lifecycle, not raw per-sample
//! evaluations; the staleness gauge lets dashboards distinguish "healthy" from "no data".

use crate::clock;
use crate::clock::Instant;
use crate::decode;
use crate::decode::{Pin, Reading};
use crate::double;
use crate::double::Number;
use crate::lifecycle;
use crate::lifecycle::{Condition, Event, EventView, CONDITIONS};
use crate::text;
use crate::text::decimal_text;
use vstd::prelude::*;

verus! {

/// Version in the build information.
pub const VERSION: &'static str = "0.5.0";

/// Total current, in milliamps, above which a dead pin counts as imbalance.
pub const LOAD_MA: u64 = 5_000;

/// Everything a scrape shows.
#[derive(Debug, Clone, Copy)]
pub struct Metrics {
    reading: Option<(Reading, Instant)>,
    last_sample_ok: bool,
    samples_total: u64,
    read_failures_total: u64,
    implausible_total: u64,
    active: [bool; 4],
    raised_total: [u64; 4],
}

/// What [`Metrics`] holds. Flags and counters per condition stand in the order of
/// [`CONDITIONS`].
#[verifier::ext_equal]
pub struct Snapshot {
    /// Last plausible reading and when it arrived.
    pub reading: Option<(Reading, Instant)>,
    /// Whether the most recent sample produced a usable reading.
    pub last_sample_ok: bool,
    pub samples_total: u64,
    pub read_failures_total: u64,
    pub implausible_total: u64,
    /// Conditions the lifecycle holds raised.
    pub active: Seq<bool>,
    /// How often each condition was raised.
    pub raised_total: Seq<u64>,
}

impl View for Metrics {
    type V = Snapshot;

    closed spec fn view(&self) -> Snapshot {
        Snapshot {
            reading: self.reading,
            last_sample_ok: self.last_sample_ok,
            samples_total: self.samples_total,
            read_failures_total: self.read_failures_total,
            implausible_total: self.implausible_total,
            active: self.active@,
            raised_total: self.raised_total@,
        }
    }
}

/// One more, or as many as the counter holds.
pub open spec fn counted(n: u64) -> u64 {
    if n < u64::MAX {
        (n + 1) as u64
    } else {
        n
    }
}

/// The snapshot after a plausible reading.
pub open spec fn with_reading(m: Snapshot, r: Reading, now: Instant) -> Snapshot {
    Snapshot {
        reading: Some((r, now)),
        last_sample_ok: true,
        samples_total: counted(m.samples_total),
        ..m
    }
}

/// The snapshot after a reading that failed sanity checks.
pub open spec fn with_implausible(m: Snapshot) -> Snapshot {
    Snapshot {
        last_sample_ok: false,
        samples_total: counted(m.samples_total),
        implausible_total: counted(m.implausible_total),
        ..m
    }
}

/// The snapshot after a read that failed.
pub open spec fn with_read_error(m: Snapshot) -> Snapshot {
    Snapshot {
        last_sample_ok: false,
        samples_total: counted(m.samples_total),
        read_failures_total: counted(m.read_failures_total),
        ..m
    }
}

/// The snapshot after an event of the lifecycle.
pub open spec fn with_event(m: Snapshot, e: EventView) -> Snapshot {
    match e {
        EventView::Raised { condition, detail } => {
            let i = lifecycle::condition_idx(condition) as int;
            Snapshot {
                active: m.active.update(i, true),
                raised_total: m.raised_total.update(i, counted(m.raised_total[i])),
                ..m
            }
        },
        EventView::Resolved { condition, active_for } => Snapshot {
            active: m.active.update(lifecycle::condition_idx(condition) as int, false),
            ..m
        },
        EventView::Repeated { condition, detail, active_for } => m,
    }
}

fn count(n: u64) -> (r: u64)
    ensures
        r == counted(n),
{
    if n < u64::MAX {
        n + 1
    } else {
        n
    }
}

// ---------------------------------------------------------------- the exposition

/// What introduces a metric.
pub open spec fn heading(name: Seq<char>, help: Seq<char>, kind: Seq<char>) -> Seq<char> {
    "# HELP "@ + name + " "@ + help + "\n"@ + "# TYPE "@ + name + " "@ + kind + "\n"@
}

/// A sample of a metric.
pub open spec fn sample(name: Seq<char>, value: Seq<char>) -> Seq<char> {
    name + " "@ + value + "\n"@
}

/// A sample of a metric with a label.
pub open spec fn labelled(
    name: Seq<char>,
    label: Seq<char>,
    which: Seq<char>,
    value: Seq<char>,
) -> Seq<char> {
    name + "{"@ + label + "=\""@ + which + "\"} "@ + value + "\n"@
}

/// A metric with one sample.
pub open spec fn metric(
    name: Seq<char>,
    help: Seq<char>,
    kind: Seq<char>,
    value: Seq<char>,
) -> Seq<char> {
    heading(name, help, kind) + sample(name, value)
}

/// The voltages of the first `n` pins.
pub open spec fn volt_samples(pins: Seq<Pin>, n: nat) -> Seq<char>
    decreases n,
{
    if n == 0 {
        seq![]
    } else {
        volt_samples(pins, (n - 1) as nat) + labelled(
            "astral_watch_pin_volts"@,
            "pin"@,
            text::decimal(n),
            double::shortest(double::thousandths(pins[n - 1].millivolts as nat)),
        )
    }
}

/// The currents of the first `n` pins.
pub open spec fn amp_samples(pins: Seq<Pin>, n: nat) -> Seq<char>
    decreases n,
{
    if n == 0 {
        seq![]
    } else {
        amp_samples(pins, (n - 1) as nat) + labelled(
            "astral_watch_pin_amps"@,
            "pin"@,
            text::decimal(n),
            double::shortest(double::thousandths(pins[n - 1].milliamps as nat)),
        )
    }
}

/// One for true, zero for false.
pub open spec fn flag(b: bool) -> Seq<char> {
    if b {
        "1"@
    } else {
        "0"@
    }
}

/// The alert flags of the first `n` conditions.
pub open spec fn active_samples(m: Snapshot, n: nat) -> Seq<char>
    decreases n,
{
    if n == 0 {
        seq![]
    } else {
        active_samples(m, (n - 1) as nat) + labelled(
            "astral_watch_alert_active"@,
            "condition"@,
            lifecycle::condition_id(lifecycle::condition_at(n - 1)),
            flag(m.active[n - 1]),
        )
    }
}

/// The raise counters of the first `n` conditions.
pub open spec fn raised_samples(m: Snapshot, n: nat) -> Seq<char>
    decreases n,
{
    if n == 0 {
        seq![]
    } else {
        raised_samples(m, (n - 1) as nat) + labelled(
            "astral_watch_alerts_raised_total"@,
            "condition"@,
            lifecycle::condition_id(lifecycle::condition_at(n - 1)),
            text::decimal(m.raised_total[n - 1] as nat),
        )
    }
}

/// The balance ratio to show: a pin at ~0 A under real load is maximal imbalance, not missing
/// data; only an idle connector has none.
pub open spec fn balance_value(pins: Seq<Pin>) -> Option<Seq<char>> {
    match decode::balance(pins) {
        Some(r) => Some(double::shortest(r)),
        None => if double::less(double::thousandths(LOAD_MA as nat), decode::total_amps(pins)) {
            Some("+Inf"@)
        } else {
            None
        },
    }
}

/// The balance metric, or nothing when idle.
pub open spec fn balance_part(pins: Seq<Pin>) -> Seq<char> {
    match balance_value(pins) {
        Some(b) => metric(
            "astral_watch_balance_ratio"@,
            "Highest/lowest per-pin current ratio (+Inf when a pin reads ~0 A under load; absent when idle)."@,
            "gauge"@,
            b,
        ),
        None => seq![],
    }
}

/// Seconds with three digits.
pub open spec fn age_text(now: Instant, at: Instant) -> Seq<char> {
    double::fixed(clock::seconds(clock::elapsed(now, at)), 3)
}

/// The voltage metric.
pub open spec fn volts_part(pins: Seq<Pin>) -> Seq<char> {
    heading(
        "astral_watch_pin_volts"@,
        "Per-pin voltage of the 12V-2x6 connector (last reading)."@,
        "gauge"@,
    ) + volt_samples(pins, 6)
}

/// The current metric.
pub open spec fn amps_part(pins: Seq<Pin>) -> Seq<char> {
    heading(
        "astral_watch_pin_amps"@,
        "Per-pin current of the 12V-2x6 connector (last reading)."@,
        "gauge"@,
    ) + amp_samples(pins, 6)
}

/// The total current.
pub open spec fn total_amps_part(pins: Seq<Pin>) -> Seq<char> {
    metric(
        "astral_watch_total_amps"@,
        "Sum of per-pin current."@,
        "gauge"@,
        double::shortest(decode::total_amps(pins)),
    )
}

/// The total power.
pub open spec fn total_watts_part(pins: Seq<Pin>) -> Seq<char> {
    metric(
        "astral_watch_total_watts"@,
        "Sum of per-pin power."@,
        "gauge"@,
        double::shortest(decode::total_watts(pins)),
    )
}

/// The age of the reading.
pub open spec fn age_part(now: Instant, at: Instant) -> Seq<char> {
    metric(
        "astral_watch_last_reading_age_seconds"@,
        "Seconds since the last plausible reading."@,
        "gauge"@,
        age_text(now, at),
    )
}

/// The metrics that a reading gives.
pub open spec fn reading_part(pins: Seq<Pin>, now: Instant, at: Instant) -> Seq<char> {
    volts_part(pins) + amps_part(pins) + total_amps_part(pins) + total_watts_part(pins)
        + balance_part(pins) + age_part(now, at)
}

/// Whether the latest sample was usable.
pub open spec fn up_part(m: Snapshot) -> Seq<char> {
    metric(
        "astral_watch_up"@,
        "1 when the most recent sample produced a plausible reading."@,
        "gauge"@,
        flag(m.last_sample_ok),
    )
}

/// The alert flags.
pub open spec fn active_part(m: Snapshot) -> Seq<char> {
    heading(
        "astral_watch_alert_active"@,
        "1 while the debounced alert lifecycle holds this condition raised."@,
        "gauge"@,
    ) + active_samples(m, 4)
}

/// The raise counters.
pub open spec fn raised_part(m: Snapshot) -> Seq<char> {
    heading(
        "astral_watch_alerts_raised_total"@,
        "Debounced alerts raised since start, by condition."@,
        "counter"@,
    ) + raised_samples(m, 4)
}

/// How many samples there were.
pub open spec fn samples_part(m: Snapshot) -> Seq<char> {
    metric(
        "astral_watch_samples_total"@,
        "Samples attempted since start."@,
        "counter"@,
        text::decimal(m.samples_total as nat),
    )
}

/// How many reads failed.
pub open spec fn failures_part(m: Snapshot) -> Seq<char> {
    metric(
        "astral_watch_read_failures_total"@,
        "Samples whose i2c read failed."@,
        "counter"@,
        text::decimal(m.read_failures_total as nat),
    )
}

/// How many readings failed sanity checks.
pub open spec fn implausible_part(m: Snapshot) -> Seq<char> {
    metric(
        "astral_watch_implausible_readings_total"@,
        "Samples that decoded to implausible data."@,
        "counter"@,
        text::decimal(m.implausible_total as nat),
    )
}

/// The build information.
pub open spec fn build_part() -> Seq<char> {
    heading("astral_watch_build_info"@, "Build metadata."@, "gauge"@) + labelled(
        "astral_watch_build_info"@,
        "version"@,
        VERSION@,
        "1"@,
    )
}

/// The metrics that are always there.
pub open spec fn standing_part(m: Snapshot) -> Seq<char> {
    up_part(m) + active_part(m) + raised_part(m) + samples_part(m) + failures_part(m)
        + implausible_part(m) + build_part()
}

/// The whole exposition.
pub open spec fn exposition(m: Snapshot, now: Instant) -> Seq<char> {
    match m.reading {
        Some((r, at)) => reading_part(r.pins@, now, at) + standing_part(m),
        None => standing_part(m),
    }
}

fn put_heading(out: &mut String, name: &str, help: &str, kind: &str)
    ensures
        final(out)@ == old(out)@ + heading(name@, help@, kind@),
{
    let ghost had = out@;
    out.append("# HELP ");
    out.append(name);
    out.append(" ");
    out.append(help);
    out.append("\n");
    out.append("# TYPE ");
    out.append(name);
    out.append(" ");
    out.append(kind);
    out.append("\n");
    assert(out@ =~= had + heading(name@, help@, kind@));
}

fn put_labelled(out: &mut String, name: &str, label: &str, which: &str, value: &str)
    ensures
        final(out)@ == old(out)@ + labelled(name@, label@, which@, value@),
{
    let ghost had = out@;
    out.append(name);
    out.append("{");
    out.append(label);
    out.append("=\"");
    out.append(which);
    out.append("\"} ");
    out.append(value);
    out.append("\n");
    assert(out@ =~= had + labelled(name@, label@, which@, value@));
}

fn put_metric(out: &mut String, name: &str, help: &str, kind: &str, value: &str)
    ensures
        final(out)@ == old(out)@ + metric(name@, help@, kind@, value@),
{
    let ghost had = out@;
    put_heading(out, name, help, kind);
    out.append(name);
    out.append(" ");
    out.append(value);
    out.append("\n");
    assert(out@ =~= had + metric(name@, help@, kind@, value@));
}

fn put_pins(out: &mut String, r: &Reading)
    ensures
        final(out)@ == old(out)@ + volts_part(r.pins@) + amps_part(r.pins@),
{
    let ghost had = out@;
    put_heading(
        out,
        "astral_watch_pin_volts",
        "Per-pin voltage of the 12V-2x6 connector (last reading).",
        "gauge",
    );
    let ghost start = out@;
    let mut i: usize = 0;
    assert(out@ =~= start + volt_samples(r.pins@, 0));
    while i < 6
        invariant
            i <= 6,
            out@ == start + volt_samples(r.pins@, i as nat),
        decreases 6 - i,
    {
        put_labelled(
            out,
            "astral_watch_pin_volts",
            "pin",
            decimal_text(i as u128 + 1).as_str(),
            Number::thousandths(r.pins[i].millivolts as u64).to_string().as_str(),
        );
        i = i + 1;
        assert(out@ =~= start + volt_samples(r.pins@, i as nat));
    }
    assert(out@ =~= had + volts_part(r.pins@));
    let ghost had = out@;
    put_heading(
        out,
        "astral_watch_pin_amps",
        "Per-pin current of the 12V-2x6 connector (last reading).",
        "gauge",
    );
    let ghost start = out@;
    let mut i: usize = 0;
    assert(out@ =~= start + amp_samples(r.pins@, 0));
    while i < 6
        invariant
            i <= 6,
            out@ == start + amp_samples(r.pins@, i as nat),
        decreases 6 - i,
    {
        put_labelled(
            out,
            "astral_watch_pin_amps",
            "pin",
            decimal_text(i as u128 + 1).as_str(),
            Number::thousandths(r.pins[i].milliamps as u64).to_string().as_str(),
        );
        i = i + 1;
        assert(out@ =~= start + amp_samples(r.pins@, i as nat));
    }
    assert(out@ =~= had + amps_part(r.pins@));
}

fn put_balance(out: &mut String, r: &Reading)
    ensures
        final(out)@ == old(out)@ + balance_part(r.pins@),
{
    let value: Option<String> = match r.balance() {
        Some(b) => Some(b.to_string()),
        None => {
            if Number::thousandths(LOAD_MA).less(r.total_amps()) {
                Some("+Inf".to_owned())
            } else {
                None
            }
        },
    };
    match value {
        Some(b) => {
            put_metric(
                out,
                "astral_watch_balance_ratio",
                "Highest/lowest per-pin current ratio (+Inf when a pin reads ~0 A under load; absent when idle).",
                "gauge",
                b.as_str(),
            );
        },
        None => {
            assert(out@ =~= out@ + balance_part(r.pins@));
        },
    }
}

fn put_reading(out: &mut String, r: &Reading, now: Instant, at: Instant)
    ensures
        final(out)@ == old(out)@ + reading_part(r.pins@, now, at),
{
    let ghost had = out@;
    put_pins(out, r);
    put_metric(
        out,
        "astral_watch_total_amps",
        "Sum of per-pin current.",
        "gauge",
        r.total_amps().to_string().as_str(),
    );
    put_metric(
        out,
        "astral_watch_total_watts",
        "Sum of per-pin power.",
        "gauge",
        r.total_watts().to_string().as_str(),
    );
    put_balance(out, r);
    put_metric(
        out,
        "astral_watch_last_reading_age_seconds",
        "Seconds since the last plausible reading.",
        "gauge",
        now.duration_since(at).seconds().fixed(3).as_str(),
    );
    assert(out@ =~= had + reading_part(r.pins@, now, at));
}

fn flag_text(b: bool) -> (s: &'static str)
    ensures
        s@ == flag(b),
{
    if b {
        "1"
    } else {
        "0"
    }
}

impl Metrics {
    /// Nothing sampled yet.
    pub fn new() -> (m: Metrics)
        ensures
            m@ == (Snapshot {
                reading: None,
                last_sample_ok: false,
                samples_total: 0,
                read_failures_total: 0,
                implausible_total: 0,
                active: seq![false, false, false, false],
                raised_total: seq![0u64, 0, 0, 0],
            }),
    {
        let m = Metrics {
            reading: None,
            last_sample_ok: false,
            samples_total: 0,
            read_failures_total: 0,
            implausible_total: 0,
            active: [false, false, false, false],
            raised_total: [0, 0, 0, 0],
        };
        assert(m@.active =~= seq![false, false, false, false]);
        assert(m@.raised_total =~= seq![0u64, 0, 0, 0]);
        m
    }

    /// A sample decoded to a plausible reading.
    pub fn on_good_sample(&mut self, r: &Reading, now: Instant)
        ensures
            final(self)@ == with_reading(old(self)@, *r, now),
    {
        self.reading = Some((*r, now));
        self.last_sample_ok = true;
        self.samples_total = count(self.samples_total);
    }

    /// The chip answered but the data failed sanity checks.
    pub fn on_implausible_sample(&mut self)
        ensures
            final(self)@ == with_implausible(old(self)@),
    {
        self.last_sample_ok = false;
        self.samples_total = count(self.samples_total);
        self.implausible_total = count(self.implausible_total);
    }

    /// The i2c read itself failed.
    pub fn on_read_error(&mut self)
        ensures
            final(self)@ == with_read_error(old(self)@),
    {
        self.last_sample_ok = false;
        self.samples_total = count(self.samples_total);
        self.read_failures_total = count(self.read_failures_total);
    }

    /// Track debounced alert state from a lifecycle event.
    pub fn on_event(&mut self, ev: &Event)
        ensures
            final(self)@ == with_event(old(self)@, ev@),
    {
        match ev {
            Event::Raised { condition, .. } => {
                let i: usize = condition.idx();
                let n: u64 = count(self.raised_total[i]);
                self.active[i] = true;
                self.raised_total[i] = n;
            },
            Event::Resolved { condition, .. } => {
                let i: usize = condition.idx();
                self.active[i] = false;
            },
            Event::Repeated { .. } => {},
        }
        assert(self@ =~= with_event(old(self)@, ev@));
    }

    fn put_alerts(&self, out: &mut String)
        ensures
            final(out)@ == old(out)@ + active_part(self@) + raised_part(self@),
    {
        let ghost had = out@;
        put_heading(
            out,
            "astral_watch_alert_active",
            "1 while the debounced alert lifecycle holds this condition raised.",
            "gauge",
        );
        let ghost start = out@;
        let mut i: usize = 0;
        assert(out@ =~= start + active_samples(self@, 0));
        while i < 4
            invariant
                i <= 4,
                out@ == start + active_samples(self@, i as nat),
            decreases 4 - i,
        {
            let c: Condition = CONDITIONS[i];
            assert(c == lifecycle::condition_at(i as int));
            put_labelled(
                out,
                "astral_watch_alert_active",
                "condition",
                c.id(),
                flag_text(self.active[i]),
            );
            i = i + 1;
            assert(out@ =~= start + active_samples(self@, i as nat));
        }
        assert(out@ =~= had + active_part(self@));
        let ghost had = out@;
        put_heading(
            out,
            "astral_watch_alerts_raised_total",
            "Debounced alerts raised since start, by condition.",
            "counter",
        );
        let ghost start = out@;
        let mut i: usize = 0;
        assert(out@ =~= start + raised_samples(self@, 0));
        while i < 4
            invariant
                i <= 4,
                out@ == start + raised_samples(self@, i as nat),
            decreases 4 - i,
        {
            let c: Condition = CONDITIONS[i];
            assert(c == lifecycle::condition_at(i as int));
            put_labelled(
                out,
                "astral_watch_alerts_raised_total",
                "condition",
                c.id(),
                decimal_text(self.raised_total[i] as u128).as_str(),
            );
            i = i + 1;
            assert(out@ =~= start + raised_samples(self@, i as nat));
        }
        assert(out@ =~= had + raised_part(self@));
    }

    fn standing_text(&self) -> (out: String)
        ensures
            out@ == standing_part(self@),
    {
        let mut out = "".to_owned();
        proof {
            reveal_strlit("");
        }
        put_metric(
            &mut out,
            "astral_watch_up",
            "1 when the most recent sample produced a plausible reading.",
            "gauge",
            flag_text(self.last_sample_ok),
        );
        assert(out@ =~= up_part(self@));
        self.put_alerts(&mut out);
        put_metric(
            &mut out,
            "astral_watch_samples_total",
            "Samples attempted since start.",
            "counter",
            decimal_text(self.samples_total as u128).as_str(),
        );
        put_metric(
            &mut out,
            "astral_watch_read_failures_total",
            "Samples whose i2c read failed.",
            "counter",
            decimal_text(self.read_failures_total as u128).as_str(),
        );
        put_metric(
            &mut out,
            "astral_watch_implausible_readings_total",
            "Samples that decoded to implausible data.",
            "counter",
            decimal_text(self.implausible_total as u128).as_str(),
        );
        let ghost had = out@;
        put_heading(&mut out, "astral_watch_build_info", "Build metadata.", "gauge");
        put_labelled(&mut out, "astral_watch_build_info", "version", VERSION, "1");
        assert(out@ =~= had + build_part());
        out
    }

    /// Render the Prometheus text exposition (format 0.0.4) as of `now`.
    pub fn render(&self, now: Instant) -> (out: String)
        ensures
            out@ == exposition(self@, now),
    {
        let standing = self.standing_text();
        match &self.reading {
            Some((r, at)) => {
                let mut out = "".to_owned();
                proof {
                    reveal_strlit("");
                }
                put_reading(&mut out, r, now, *at);
                assert(out@ =~= reading_part(r.pins@, now, *at));
                out.append(standing.as_str());
                out
            },
            None => standing,
        }
    }
}

// ---------------------------------------------------------------- laws

/// The balance series never vanishes under load: whenever the connector carries more than the
/// load threshold, a ratio is shown, and it is `+Inf` when a pin carries next to nothing.
pub proof fn law_balance_never_vanishes_under_load(pins: Seq<Pin>)
    requires
        double::less(double::thousandths(LOAD_MA as nat), decode::total_amps(pins)),
    ensures
        balance_value(pins) is Some,
        decode::balance(pins) is None ==> balance_value(pins) == Some("+Inf"@),
{
}

/// A repeat never counts as another raise, and a resolve clears the flag but not the counter.
pub proof fn law_only_raises_are_counted(m: Snapshot, e: EventView)
    requires
        m.active.len() == 4,
        m.raised_total.len() == 4,
        !(e is Raised),
    ensures
        with_event(m, e).raised_total == m.raised_total,
        e matches EventView::Resolved { condition, active_for } ==> !with_event(
            m,
            e,
        ).active[lifecycle::condition_idx(condition) as int],
{
}

/// An event touches the flag and the counter of its own condition only.
pub proof fn law_events_touch_one_condition(m: Snapshot, e: EventView, i: int)
    requires
        m.active.len() == 4,
        m.raised_total.len() == 4,
        0 <= i < 4,
        i != (match e {
            EventView::Raised { condition, detail } => lifecycle::condition_idx(condition),
            EventView::Repeated { condition, detail, active_for } => lifecycle::condition_idx(
                condition,
            ),
            EventView::Resolved { condition, active_for } => lifecycle::condition_idx(condition),
        }),
    ensures
        with_event(m, e).active[i] == m.active[i],
        with_event(m, e).raised_total[i] == m.raised_total[i],
        with_event(m, e).reading == m.reading,
{
}

} // verus!
