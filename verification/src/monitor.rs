//! The watchdog: one sampling loop feeding whichever sinks the mode enables.
//!
//! Per-sample alert text goes to the CSV (forensics); the journal and notifications carry the
//! debounced lifecycle events. A failing CSV write never kills the watchdog: it degrades to a
//! deduplicated warning, and while the CSV is unwritable the per-sample record is mirrored to the
//! journal so the forensic trail survives a full disk.

use crate::alert;
use crate::alert::{evaluate_with, Alert, AlertView, Thresholds};
use crate::cards;
use crate::cards::GpuInfo;
use crate::clock::{Duration, Instant};
use crate::decode;
use crate::decode::{Pin, Reading};
use crate::double;
use crate::double::Number;
use crate::i2c::{Detect, REDETECT_AFTER};
use crate::lifecycle;
use crate::lifecycle::{conditions, Condition, Event, EventView, Lifecycle};
use crate::logger;
use crate::logger::{sample_row, unreachable_row};
use crate::metrics;
use crate::metrics::Metrics;
use crate::notify;
use crate::notify::{render, Message, MessageView};
use crate::number;
use crate::number::read_unsigned;
use crate::safety;
use crate::text;
use crate::text::{begins_with, chars_of, decimal_text, hex_text, join, pad_left, slice_of, trim};
use vstd::prelude::*;

verus! {

/// Time the notify queues get to drain on shutdown — enough for a small backlog against a
/// slow-but-responsive endpoint, well under a service manager's stop timeout: five seconds, in
/// nanoseconds.
pub const SHUTDOWN_GRACE_NANOS: u128 = 5_000_000_000;

/// Detection-retry pause — gentle on the GPU i2c bus: five seconds, in nanoseconds.
pub const ACQUIRE_RETRY_NANOS: u128 = 5_000_000_000;

/// Longest uninterrupted sleep: 200 ms, in nanoseconds.
pub const NAP_NANOS: u128 = 200_000_000;

/// Where metrics are served when nothing else is said.
pub const DEFAULT_LISTEN: &'static str = "127.0.0.1:9942";

// ---------------------------------------------------------------- arguments

/// The number an address argument stands for: hexadecimal behind `0x` or `0X`, else decimal.
pub open spec fn address_value(s: Seq<char>) -> Result<nat, number::NumeralError> {
    let t = text::trimmed(s);
    if "0x"@.is_prefix_of(t) || "0X"@.is_prefix_of(t) {
        number::numeral_value(t.skip(2), 16, u16::MAX as nat)
    } else {
        number::numeral_value(t, 10, u16::MAX as nat)
    }
}

/// Read an address argument (decimal or 0x-hex).
pub fn parse_u16(s: &str) -> (r: Result<u16, String>)
    ensures
        match r {
            Ok(n) => address_value(s@) == Ok::<nat, number::NumeralError>(n as nat),
            Err(e) => address_value(s@) is Err && e@ == number::numeral_error_text(
                address_value(s@)->Err_0,
            ),
        },
{
    proof {
        reveal_strlit("0x");
        reveal_strlit("0X");
    }
    let t = trim(&chars_of(s));
    let r = if begins_with(&t, "0x") || begins_with(&t, "0X") {
        assert(t@.subrange(2, t@.len() as int) =~= t@.skip(2));
        read_unsigned(&slice_of(&t, 2, t.len()), 16, u16::MAX as u64)
    } else {
        read_unsigned(&t, 10, u16::MAX as u64)
    };
    match r {
        Ok(n) => Ok(n as u16),
        Err(e) => Err(e.message().to_owned()),
    }
}

/// A pause of so many seconds, in nanoseconds.
pub open spec fn pause_nanos(size: double::Double) -> nat {
    double::scaled_size(size, 1_000_000_000)
}

/// Validate `--interval`: zero would busy-loop the GPU's i2c bus, and a negative or endless pause
/// makes no sense. A pause is rounded to a nanosecond, a half to the even one.
pub fn parse_interval(secs: Number) -> (r: Result<Duration, String>)
    requires
        double::is_positive(secs) ==> double::under(secs->size, 0x1_0000_0000_0000_0000),
    ensures
        match r {
            Ok(d) => double::is_positive(secs) && d.nanos == double::scaled_size(
                secs->size,
                1_000_000_000,
            ),
            Err(e) => !double::is_positive(secs) && e@
                == "--interval must be a positive number of seconds (got "@ + double::shortest(secs)
                + ")"@,
        },
        r matches Ok(d) ==> d.nanos == pause_nanos(secs->size),
{
    match secs {
        Number::Finite { negative, size } => {
            if !negative && size.significand > 0 {
                return Ok(Duration { nanos: size.billionths() });
            }
        },
        _ => {},
    }
    let mut s = "--interval must be a positive number of seconds (got ".to_owned();
    s.append(secs.to_string().as_str());
    s.append(")");
    Err(s)
}

/// Whether sampling is so fast that it is worth a warning.
pub open spec fn hammers(secs: Number) -> bool {
    double::less(secs, double::thousandths(50))
}

/// The warning about sampling faster than twenty times a second.
pub fn interval_warning(secs: Number) -> (w: Option<String>)
    ensures
        match w {
            Some(s) => double::less(secs, double::thousandths(50)) && s@ == "# warning: --interval "@
                + double::shortest(secs)
                + " hammers the GPU i2c bus (shared with display traffic)"@,
            None => !double::less(secs, double::thousandths(50)),
        },
        w is Some <==> hammers(secs),
{
    if secs.less(Number::thousandths(50)) {
        let mut s = "# warning: --interval ".to_owned();
        s.append(secs.to_string().as_str());
        s.append(" hammers the GPU i2c bus (shared with display traffic)");
        Some(s)
    } else {
        None
    }
}

/// Whether a rotation size can be used.
pub open spec fn size_fits(max_mb: Number) -> bool {
    max_mb is Finite && !double::less(max_mb, double::zero())
}

/// The bytes in so many megabytes, the fraction of a byte dropped.
pub open spec fn megabytes(max_mb: Number) -> nat {
    let kilobytes = double::times(max_mb, double::whole(1024));
    double::truncated(double::times(kilobytes, double::whole(1024)), u64::MAX as nat)
}

/// Validate `--max-mb` and turn it into bytes; zero disables rotation.
pub fn parse_max_mb(max_mb: Number) -> (r: Result<u64, String>)
    ensures
        match r {
            Ok(n) => size_fits(max_mb) && n == megabytes(max_mb),
            Err(e) => !size_fits(max_mb) && e@ == "--max-mb must be >= 0 (got "@
                + double::shortest(max_mb) + "); 0 disables rotation"@,
        },
{
    match max_mb {
        Number::Finite { .. } => {
            if !max_mb.less(Number::zero()) {
                let kilo = Number::whole(1024);
                return Ok(max_mb.times(kilo).times(kilo).truncated(u64::MAX));
            }
        },
        _ => {},
    }
    let mut s = "--max-mb must be >= 0 (got ".to_owned();
    s.append(max_mb.to_string().as_str());
    s.append("); 0 disables rotation");
    Err(s)
}

/// What logging to a file is announced with; the rotation is named when there is one.
pub fn logging_line(file: &str, max_mb: Number, max_bytes: u64, keep: u32) -> (s: String)
    ensures
        s@ == (if max_bytes > 0 {
            "# logging -> "@ + file@ + "  (Ctrl-C to stop)"@ + "  rotate>"@
                + double::shortest(max_mb) + "MB keep="@ + text::decimal(keep as nat)
        } else {
            "# logging -> "@ + file@ + "  (Ctrl-C to stop)"@
        }),
{
    let mut s = "# logging -> ".to_owned();
    s.append(file);
    s.append("  (Ctrl-C to stop)");
    if max_bytes > 0 {
        s.append("  rotate>");
        s.append(max_mb.to_string().as_str());
        s.append("MB keep=");
        s.append(decimal_text(keep as u128).as_str());
    }
    s
}

/// Where metrics are served, if they are.
pub open spec fn listens_at(
    export: bool,
    flag: Option<Seq<char>>,
    cfg: Option<Seq<char>>,
) -> Option<Seq<char>> {
    if export && flag is Some {
        flag
    } else if cfg is Some {
        cfg
    } else if export {
        Some(DEFAULT_LISTEN@)
    } else {
        None
    }
}

/// What an optional text reads.
pub open spec fn text_view(s: Option<String>) -> Option<Seq<char>> {
    match s {
        Some(s) => Some(s@),
        None => None,
    }
}

/// Where metrics are served: in export mode always — the flag, else the config, else the
/// default; otherwise only where the config says so.
pub fn listen_address(export: bool, flag: Option<String>, cfg: Option<String>) -> (r: Option<
    String,
>)
    ensures
        match r {
            Some(s) => if export && flag is Some {
                s@ == flag->0@
            } else if cfg is Some {
                s@ == cfg->0@
            } else {
                export && s@ == DEFAULT_LISTEN@
            },
            None => !export && cfg is None,
        },
        text_view(r) == listens_at(export, text_view(flag), text_view(cfg)),
{
    if export {
        match flag {
            Some(s) => Some(s),
            None => match cfg {
                Some(s) => Some(s),
                None => Some(DEFAULT_LISTEN.to_owned()),
            },
        }
    } else {
        cfg
    }
}

// ---------------------------------------------------------------- the startup banner

/// Four hexadecimal digits.
pub open spec fn hex4(n: u16) -> Seq<char> {
    text::padded(text::hex(n as nat), 4, '0')
}

/// The line that lists a GPU.
pub open spec fn gpu_text(g: cards::GpuView) -> Seq<char> {
    "# GPU "@ + g.pci + "  subsystem "@ + hex4(g.subsystem_vendor) + ":"@ + hex4(
        g.subsystem_device,
    ) + "  -> "@ + (match cards::model_in(cards::known(), g.subsystem_device) {
        Some(m) => m,
        None => "unknown — not in card DB (still works if the chip answers)"@,
    })
}

/// The line that lists a GPU.
pub fn gpu_line(g: &GpuInfo) -> (s: String)
    ensures
        s@ == gpu_text(g@),
{
    let model = match g.model() {
        Some(m) => m,
        None => "unknown — not in card DB (still works if the chip answers)",
    };
    let mut s = "# GPU ".to_owned();
    s.append(g.pci.as_str());
    s.append("  subsystem ");
    s.append(pad_left(hex_text(g.subsystem_vendor as u128).as_str(), 4, '0').as_str());
    s.append(":");
    s.append(pad_left(hex_text(g.subsystem_device as u128).as_str(), 4, '0').as_str());
    s.append("  -> ");
    s.append(model);
    s
}

/// Whether to note that none of the GPUs is an ASUS card.
pub fn no_asus(gpus: &Vec<GpuInfo>) -> (r: bool)
    ensures
        r == (gpus.len() > 0 && forall|i: int|
            0 <= i < gpus.len() ==> (#[trigger] gpus@[i]).subsystem_vendor != cards::ASUS_VENDOR),
{
    let mut i: usize = 0;
    while i < gpus.len()
        invariant
            i <= gpus.len(),
            forall|j: int|
                0 <= j < i ==> (#[trigger] gpus@[j]).subsystem_vendor != cards::ASUS_VENDOR,
        decreases gpus.len() - i,
    {
        if gpus[i].is_asus() {
            assert(gpus@[i as int].subsystem_vendor == cards::ASUS_VENDOR);
            return false;
        }
        i = i + 1;
    }
    gpus.len() > 0
}

/// The lines that name the card actually backing the bus, and flag the multi-GPU case where only
/// one of several cards is being watched.
pub fn card_lines(pci: &str, model: Option<&str>, gpus: usize) -> (lines: Vec<String>)
    ensures
        text::views(lines@) == seq![
            "# monitoring "@ + pci@ + " ("@ + (match model {
                Some(m) => m@,
                None => "unknown SKU"@,
            }) + ")"@,
        ] + (if gpus > 1 {
            seq![
                "# note: "@ + text::decimal(gpus as nat) + " NVIDIA GPUs present — only "@ + pci@
                    + " is monitored; pass --bus N to pick another"@,
            ]
        } else {
            seq![]
        }),
{
    let mut lines: Vec<String> = Vec::new();
    let mut s = "# monitoring ".to_owned();
    s.append(pci);
    s.append(" (");
    s.append(
        match model {
            Some(m) => m,
            None => "unknown SKU",
        },
    );
    s.append(")");
    let ghost first = s@;
    lines.push(s);
    assert(text::views(lines@) =~= seq![first]);
    if gpus > 1 {
        let mut s = "# note: ".to_owned();
        s.append(decimal_text(gpus as u128).as_str());
        s.append(" NVIDIA GPUs present — only ");
        s.append(pci);
        s.append(" is monitored; pass --bus N to pick another");
        let ghost second = s@;
        lines.push(s);
        assert(text::views(lines@) =~= seq![first] + seq![second]);
    } else {
        assert(text::views(lines@) =~= seq![first] + seq![]);
    }
    lines
}

// ---------------------------------------------------------------- waiting

/// The next piece of a long sleep.
pub open spec fn nap_of(left: Duration) -> u128 {
    if left.nanos <= NAP_NANOS {
        left.nanos
    } else {
        NAP_NANOS
    }
}

/// The next piece of a long sleep and what is left after it, so that a shutdown is honoured
/// promptly even with a long interval.
pub fn next_nap(left: Duration) -> (r: (Duration, Duration))
    ensures
        r.0.nanos == (if left.nanos <= NAP_NANOS {
            left.nanos
        } else {
            NAP_NANOS
        }),
        r.0.nanos + r.1.nanos == left.nanos,
        r.0.nanos == nap_of(left),
{
    let nap = left.min(Duration { nanos: NAP_NANOS });
    (nap, left.saturating_sub(nap))
}

/// Why no bus was found, as told to the operator.
pub open spec fn hint_text(d: Detect) -> Seq<char> {
    match d {
        Detect::NoBuses =>
            "no NVIDIA i2c buses found — is i2c-dev loaded?  try `sudo modprobe i2c-dev`"@,
        Detect::PermissionDenied =>
            "permission denied opening /dev/i2c-* — run with sudo, or `sudo make install` (creates the `i2c` group + udev rule); after that, add your user to the `i2c` group and re-login to run without sudo"@,
        _ =>
            "no per-pin telemetry on any NVIDIA bus yet — GPU deeply idle? run under load, or pass --bus N"@,
    }
}

fn hint(d: Detect) -> (s: &'static str)
    ensures
        s@ == hint_text(d),
{
    match d {
        Detect::NoBuses =>
            "no NVIDIA i2c buses found — is i2c-dev loaded?  try `sudo modprobe i2c-dev`",
        Detect::PermissionDenied =>
            "permission denied opening /dev/i2c-* — run with sudo, or `sudo make install` (creates the `i2c` group + udev rule); after that, add your user to the `i2c` group and re-login to run without sudo",
        _ =>
            "no per-pin telemetry on any NVIDIA bus yet — GPU deeply idle? run under load, or pass --bus N",
    }
}

/// What the journal and the notifications get from the events of a sample.
#[derive(Debug)]
pub struct Announcements {
    pub events: Vec<Event>,
    pub lines: Vec<String>,
    pub messages: Vec<Message>,
}

/// The journal lines of some events.
pub open spec fn event_lines(events: Seq<EventView>, prefix: Seq<char>) -> Seq<Seq<char>> {
    events.map_values(|e: EventView| prefix + "  "@ + lifecycle::event_text(e))
}

/// The notifications of some events.
pub open spec fn event_messages(events: Seq<EventView>, ts: Seq<char>) -> Seq<MessageView> {
    events.map_values(|e: EventView| notify::rendered(e, ts))
}

fn announce(events: Vec<Event>, prefix: &str, ts: &str) -> (a: Announcements)
    ensures
        a.events@ == events@,
        text::views(a.lines@) == event_lines(lifecycle::event_views(events@), prefix@),
        notify::message_views(a.messages@) == event_messages(
            lifecycle::event_views(events@),
            ts@,
        ),
{
    let ghost all = lifecycle::event_views(events@);
    let mut lines: Vec<String> = Vec::new();
    let mut messages: Vec<Message> = Vec::new();
    let mut i: usize = 0;
    assert(text::views(lines@) =~= event_lines(all, prefix@).take(0));
    assert(notify::message_views(messages@) =~= event_messages(all, ts@).take(0));
    while i < events.len()
        invariant
            i <= events.len(),
            all == lifecycle::event_views(events@),
            text::views(lines@) == event_lines(all, prefix@).take(i as int),
            notify::message_views(messages@) == event_messages(all, ts@).take(i as int),
        decreases events.len() - i,
    {
        let ghost had = text::views(lines@);
        let ghost sent = notify::message_views(messages@);
        let mut s = prefix.to_owned();
        s.append("  ");
        s.append(events[i].to_string().as_str());
        let ghost said = s@;
        lines.push(s);
        let m = render(&events[i], ts);
        let ghost told = m@;
        messages.push(m);
        assert(all[i as int] == events@[i as int]@);
        assert(text::views(lines@) =~= had.push(said));
        assert(event_lines(all, prefix@).take(i + 1) =~= had.push(said));
        assert(notify::message_views(messages@) =~= sent.push(told));
        assert(event_messages(all, ts@).take(i + 1) =~= sent.push(told));
        i = i + 1;
    }
    assert(event_lines(all, prefix@).take(all.len() as int) =~= event_lines(all, prefix@));
    assert(event_messages(all, ts@).take(all.len() as int) =~= event_messages(all, ts@));
    Announcements { events, lines, messages }
}

/// The wait for a bus: a watchdog started during an outage waits and tells someone, instead of
/// exiting.
#[derive(Debug, Clone, Copy, PartialEq, Eq, Structural)]
pub struct Waiting {
    /// The cause announced last.
    pub announced: Option<Detect>,
}

/// What a fruitless scan says to the lifecycle.
pub open spec fn waiting_says(d: Detect) -> Seq<(Condition, Seq<char>)> {
    seq![(Condition::TelemetryLost, "waiting for GPU telemetry: "@ + hint_text(d))]
}

/// Whether a cause is news to someone who was told of `announced`.
pub open spec fn is_news(announced: Option<Detect>, d: Detect) -> bool {
    announced != Some(d)
}

impl Waiting {
    /// Nothing announced yet.
    pub fn new() -> (w: Waiting)
        ensures
            w.announced is None,
    {
        Waiting { announced: None }
    }

    /// A scan found nothing: announce each distinct cause once — it can change between scans, so
    /// re-announce when it does — and let the lifecycle know.
    pub fn scanned(
        &mut self,
        d: Detect,
        lifecycle: &mut Lifecycle,
        ts: &str,
        now: Instant,
    ) -> (r: (Option<String>, Announcements))
        requires
            !(d is Found),
            old(lifecycle).wf(),
        ensures
            final(self).announced == Some(d),
            match r.0 {
                Some(s) => old(self).announced != Some(d) && s@ == "# "@ + hint_text(d)
                    + "  (will keep checking)"@,
                None => old(self).announced == Some(d),
            },
            final(lifecycle).wf(),
            final(lifecycle).policy() == old(lifecycle).policy(),
            forall|i: int|
                0 <= i < 4 ==> #[trigger] final(lifecycle).phases()[i] == lifecycle::advance_at(
                    old(lifecycle).policy(),
                    old(lifecycle).phases(),
                    now,
                    waiting_says(d),
                    i,
                ).0,
            ({
                let events = lifecycle::announced(
                    old(lifecycle).policy(),
                    old(lifecycle).phases(),
                    now,
                    waiting_says(d),
                    4,
                );
                &&& lifecycle::event_views(r.1.events@) == events
                &&& text::views(r.1.lines@) == event_lines(events, ts@)
                &&& notify::message_views(r.1.messages@) == event_messages(events, ts@)
            }),
            r.0 is Some <==> is_news(old(self).announced, d),
    {
        let h = hint(d);
        let line = if self.announced == Some(d) {
            None
        } else {
            let mut s = "# ".to_owned();
            s.append(h);
            s.append("  (will keep checking)");
            Some(s)
        };
        self.announced = Some(d);
        let mut detail = "waiting for GPU telemetry: ".to_owned();
        detail.append(h);
        let mut present: Vec<(Condition, String)> = Vec::new();
        present.push((Condition::TelemetryLost, detail));
        assert(lifecycle::said(present@) =~= waiting_says(d));
        let events = lifecycle.observe(now, present.as_slice());
        (line, announce(events, ts, ts))
    }
}

// ---------------------------------------------------------------- sampling

/// Alerts in words, for people.
pub open spec fn alerts_joined(alerts: Seq<AlertView>) -> Seq<char> {
    text::joined(logger::alert_texts(alerts), " | "@)
}

fn join_alerts(alerts: &Vec<Alert>) -> (s: String)
    ensures
        s@ == alerts_joined(alert::alert_views(alerts@)),
{
    let ghost all = logger::alert_texts(alert::alert_views(alerts@));
    let mut texts: Vec<String> = Vec::new();
    let mut i: usize = 0;
    assert(text::views(texts@) =~= all.take(0));
    while i < alerts.len()
        invariant
            i <= alerts.len(),
            all == logger::alert_texts(alert::alert_views(alerts@)),
            text::views(texts@) == all.take(i as int),
        decreases alerts.len() - i,
    {
        let ghost had = text::views(texts@);
        let t = alerts[i].to_string();
        let ghost said = t@;
        texts.push(t);
        assert(text::views(texts@) =~= had.push(said));
        assert(all[i as int] == said);
        assert(all.take(i + 1) =~= had.push(said));
        i = i + 1;
    }
    assert(all.take(all.len() as int) =~= all);
    join(&texts, " | ")
}

/// The part of the display line about the first `n` pins.
pub open spec fn display_pins(pins: Seq<Pin>, n: nat) -> Seq<char>
    decreases n,
{
    if n == 0 {
        seq![]
    } else {
        display_pins(pins, (n - 1) as nat) + display_pin(pins[n - 1], n)
    }
}

/// Pin number `n` on the display.
pub open spec fn display_pin(pin: Pin, n: nat) -> Seq<char> {
    let volts = double::fixed(double::thousandths(pin.millivolts as nat), 2);
    let amps = double::fixed(double::thousandths(pin.milliamps as nat), 2);
    "p"@ + text::decimal(n) + " "@ + text::padded(volts, 5, ' ') + "V "@ + text::padded(
        amps,
        5,
        ' ',
    ) + "A  "@
}

/// The balance ratio on the display.
pub open spec fn display_balance(pins: Seq<Pin>) -> Seq<char> {
    match decode::balance(pins) {
        Some(r) => double::fixed(r, 2),
        None => "-"@,
    }
}

/// The refreshing display line of a sample.
pub open spec fn display_text(ts: Seq<char>, pins: Seq<Pin>, alerts: Seq<AlertView>) -> Seq<char> {
    let line = "\r"@ + ts + "  "@ + display_pins(pins, 6) + "| "@ + text::padded(
        double::fixed(decode::total_amps(pins), 1),
        5,
        ' ',
    ) + "A ~"@ + text::padded(
        double::fixed(decode::total_watts(pins), 0),
        4,
        ' ',
    ) + "W bal "@ + display_balance(pins);
    if alerts.len() > 0 {
        line + "  !! "@ + alerts_joined(alerts)
    } else {
        line
    }
}

fn pin_text(pin: &Pin, n: usize) -> (one: String)
    ensures
        one@ == display_pin(*pin, n as nat),
{
    let volts = Number::thousandths(pin.millivolts as u64).fixed(2);
    let amps = Number::thousandths(pin.milliamps as u64).fixed(2);
    let mut one = "p".to_owned();
    one.append(decimal_text(n as u128).as_str());
    one.append(" ");
    one.append(pad_left(volts.as_str(), 5, ' ').as_str());
    one.append("V ");
    one.append(pad_left(amps.as_str(), 5, ' ').as_str());
    one.append("A  ");
    one
}

fn put_pins(line: &mut String, r: &Reading)
    ensures
        final(line)@ == old(line)@ + display_pins(r.pins@, 6),
{
    let ghost start = line@;
    let mut i: usize = 0;
    assert(line@ =~= start + display_pins(r.pins@, 0));
    while i < 6
        invariant
            i <= 6,
            line@ == start + display_pins(r.pins@, i as nat),
        decreases 6 - i,
    {
        line.append(pin_text(&r.pins[i], i + 1).as_str());
        i = i + 1;
        assert(line@ =~= start + display_pins(r.pins@, i as nat));
    }
}

fn display_line(ts: &str, r: &Reading, alerts: &Vec<Alert>) -> (line: String)
    ensures
        line@ == display_text(ts@, r.pins@, alert::alert_views(alerts@)),
{
    let mut line = "\r".to_owned();
    line.append(ts);
    line.append("  ");
    put_pins(&mut line, r);
    line.append("| ");
    line.append(pad_left(r.total_amps().fixed(1).as_str(), 5, ' ').as_str());
    line.append("A ~");
    line.append(pad_left(r.total_watts().fixed(0).as_str(), 4, ' ').as_str());
    line.append("W bal ");
    let bal = match r.balance() {
        Some(b) => b.fixed(2),
        None => "-".to_owned(),
    };
    line.append(bal.as_str());
    if alerts.len() > 0 {
        line.append("  !! ");
        line.append(join_alerts(alerts).as_str());
    }
    line
}

/// What one sample amounts to.
pub enum Verdict {
    /// A reading, with the alerts it gives.
    Good(Seq<Pin>, Seq<AlertView>),
    /// The chip answered but the data failed sanity checks.
    Implausible,
    /// The read failed, with this cause.
    Unreadable(Seq<char>),
}

/// What one sample amounts to.
pub open spec fn verdict(sample: Result<Reading, String>, t: Thresholds) -> Verdict {
    match sample {
        Ok(r) => if decode::is_plausible(r.pins@) {
            Verdict::Good(r.pins@, alert::alerts_of(r.pins@, t))
        } else {
            Verdict::Implausible
        },
        Err(e) => Verdict::Unreadable(e@),
    }
}

/// What is said of an implausible reading; the live display adds a hint for the person in front
/// of it.
pub open spec fn implausible_text(display: bool) -> Seq<char> {
    if display {
        "implausible reading (chip answered; wrong device or GPU resetting?)"@
    } else {
        "implausible reading (chip answered but data failed sanity checks)"@
    }
}

/// What a sample says to the lifecycle.
pub open spec fn sample_says(v: Verdict, display: bool) -> Seq<(Condition, Seq<char>)> {
    match v {
        Verdict::Good(pins, alerts) => lifecycle::conditions_in(alerts),
        Verdict::Implausible => seq![(Condition::TelemetryLost, implausible_text(display))],
        Verdict::Unreadable(e) => seq![(Condition::TelemetryLost, "read failed: "@ + e)],
    }
}

/// What the display shows of a sample: the refreshed line, or a complaint on a line of its own.
pub open spec fn shown(v: Verdict, ts_disp: Seq<char>) -> Seq<char> {
    match v {
        Verdict::Good(pins, alerts) => display_text(ts_disp, pins, alerts),
        Verdict::Implausible => "\n"@ + ts_disp + "  *** "@ + implausible_text(true) + " ***"@,
        Verdict::Unreadable(e) => "\n"@ + ts_disp + "  *** read failed: "@ + e + " ***"@,
    }
}

/// The CSV record of a sample.
pub open spec fn csv_record(v: Verdict, ts: Seq<char>) -> Seq<char> {
    match v {
        Verdict::Good(pins, alerts) => logger::record(logger::sample_fields(ts, pins, alerts)),
        Verdict::Implausible => logger::record(
            logger::unreachable_fields(
                ts,
                "IMPLAUSIBLE_READING (chip answered but data failed sanity checks)"@,
            ),
        ),
        Verdict::Unreadable(e) => logger::record(
            logger::unreachable_fields(
                ts,
                "GPU_UNREACHABLE (read failed: "@ + e + " - GPU may have fallen off the bus)"@,
            ),
        ),
    }
}

/// What stands in for the CSV record while the CSV cannot be written.
pub open spec fn csv_note(v: Verdict) -> Option<Seq<char>> {
    match v {
        Verdict::Good(pins, alerts) => if alerts.len() > 0 {
            Some("ALERT: "@ + alerts_joined(alerts))
        } else {
            None
        },
        Verdict::Implausible => Some("IMPLAUSIBLE_READING"@),
        Verdict::Unreadable(e) => Some("GPU_UNREACHABLE (read failed: "@ + e + ")"@),
    }
}

/// What one sample gives each sink.
#[derive(Debug)]
pub struct Output {
    /// What to show, in display mode: on the refreshing line for a good reading, as a complaint
    /// otherwise.
    pub shown: Option<String>,
    /// The row to append, when there is a CSV.
    pub row: Option<String>,
    /// What stands in for the row while the CSV cannot be written.
    pub note: Option<String>,
    /// What the journal and the notifications get.
    pub announcements: Announcements,
}

/// The watchdog between two samples.
pub struct Monitor {
    pub lifecycle: Lifecycle,
    pub thresholds: Thresholds,
    /// Consecutive unusable samples.
    pub misses: u32,
    /// Whether the bus was found rather than named.
    pub auto: bool,
    /// Whether there is a live display.
    pub display: bool,
    /// Whether there is a CSV.
    pub csv: bool,
    /// Whether the CSV could not be written lately.
    pub log_failing: bool,
}

fn lost(detail: String) -> (v: Vec<(Condition, String)>)
    ensures
        lifecycle::said(v@) == seq![(Condition::TelemetryLost, detail@)],
{
    let ghost d = detail@;
    let mut v: Vec<(Condition, String)> = Vec::new();
    v.push((Condition::TelemetryLost, detail));
    assert(lifecycle::said(v@) =~= seq![(Condition::TelemetryLost, d)]);
    v
}

/// The journal prefix of an event: with a live display it starts a line of its own.
pub open spec fn event_prefix(display: bool, ts: Seq<char>, ts_disp: Seq<char>) -> Seq<char> {
    if display {
        "\n"@ + ts_disp
    } else {
        ts
    }
}

/// Whether a bus that was found is to be looked for again after so many misses.
pub open spec fn gives_up_the_bus(auto: bool, misses: u32) -> bool {
    auto && misses >= REDETECT_AFTER
}

/// What is said after a row was written, or was not.
pub open spec fn row_says(
    error: Option<Seq<char>>,
    failing: bool,
    note: Option<Seq<char>>,
    ts: Seq<char>,
) -> Seq<Seq<char>> {
    match error {
        None => if failing {
            seq![ts + "  csv logging recovered"@]
        } else {
            seq![]
        },
        Some(e) => (if failing {
            seq![]
        } else {
            seq![
                ts + "  csv write failed: "@ + e
                    + " (mirroring per-sample alerts to stderr until logging recovers)"@,
            ]
        }) + (match note {
            Some(n) => seq![ts + "  "@ + n],
            None => seq![],
        }),
    }
}

impl Monitor {
    /// A watchdog that has sampled nothing yet, with the lifecycle of the wait for a bus.
    pub fn new(
        lifecycle: Lifecycle,
        thresholds: Thresholds,
        auto: bool,
        display: bool,
        csv: bool,
    ) -> (m: Monitor)
        ensures
            m.lifecycle == lifecycle,
            m.thresholds == thresholds,
            m.misses == 0,
            m.auto == auto,
            m.display == display,
            m.csv == csv,
            !m.log_failing,
    {
        Monitor { lifecycle, thresholds, misses: 0, auto, display, csv, log_failing: false }
    }

    fn good(&self, r: &Reading, ts: &str, ts_disp: &str) -> (o: (
        Vec<(Condition, String)>,
        Option<String>,
        Option<String>,
        Option<String>,
    ))
        requires
            decode::is_plausible(r.pins@),
        ensures
            ({
                let v = Verdict::Good(r.pins@, alert::alerts_of(r.pins@, self.thresholds));
                &&& lifecycle::said(o.0@) == sample_says(v, self.display)
                &&& o.1 is Some == self.display && (o.1 is Some ==> o.1->0@ == shown(v, ts_disp@))
                &&& o.2 is Some == self.csv && (o.2 is Some ==> o.2->0@ == csv_record(v, ts@))
                &&& o.3 is Some == (self.csv && csv_note(v) is Some) && (o.3 is Some ==> csv_note(v)
                    == Some(o.3->0@))
            }),
    {
        let alerts = evaluate_with(r, &self.thresholds);
        let line = if self.display {
            Some(display_line(ts_disp, r, &alerts))
        } else {
            None
        };
        let (row, note) = if self.csv {
            let note = if alerts.len() > 0 {
                let mut s = "ALERT: ".to_owned();
                s.append(join_alerts(&alerts).as_str());
                Some(s)
            } else {
                None
            };
            (Some(sample_row(ts, r, &alerts)), note)
        } else {
            (None, None)
        };
        (conditions(&alerts), line, row, note)
    }

    fn implausible(&self, ts: &str, ts_disp: &str) -> (o: (
        Vec<(Condition, String)>,
        Option<String>,
        Option<String>,
        Option<String>,
    ))
        ensures
            ({
                let v = Verdict::Implausible;
                &&& lifecycle::said(o.0@) == sample_says(v, self.display)
                &&& o.1 is Some == self.display && (o.1 is Some ==> o.1->0@ == shown(v, ts_disp@))
                &&& o.2 is Some == self.csv && (o.2 is Some ==> o.2->0@ == csv_record(v, ts@))
                &&& o.3 is Some == (self.csv && csv_note(v) is Some) && (o.3 is Some ==> csv_note(v)
                    == Some(o.3->0@))
            }),
    {
        let msg = if self.display {
            "implausible reading (chip answered; wrong device or GPU resetting?)"
        } else {
            "implausible reading (chip answered but data failed sanity checks)"
        };
        let complaint = if self.display {
            let mut s = "\n".to_owned();
            s.append(ts_disp);
            s.append("  *** ");
            s.append(msg);
            s.append(" ***");
            Some(s)
        } else {
            None
        };
        let (row, note) = if self.csv {
            (
                Some(
                    unreachable_row(
                        ts,
                        "IMPLAUSIBLE_READING (chip answered but data failed sanity checks)",
                    ),
                ),
                Some("IMPLAUSIBLE_READING".to_owned()),
            )
        } else {
            (None, None)
        };
        (lost(msg.to_owned()), complaint, row, note)
    }

    fn unreadable(&self, e: &str, ts: &str, ts_disp: &str) -> (o: (
        Vec<(Condition, String)>,
        Option<String>,
        Option<String>,
        Option<String>,
    ))
        ensures
            ({
                let v = Verdict::Unreadable(e@);
                &&& lifecycle::said(o.0@) == sample_says(v, self.display)
                &&& o.1 is Some == self.display && (o.1 is Some ==> o.1->0@ == shown(v, ts_disp@))
                &&& o.2 is Some == self.csv && (o.2 is Some ==> o.2->0@ == csv_record(v, ts@))
                &&& o.3 is Some == (self.csv && csv_note(v) is Some) && (o.3 is Some ==> csv_note(v)
                    == Some(o.3->0@))
            }),
    {
        let complaint = if self.display {
            let mut s = "\n".to_owned();
            s.append(ts_disp);
            s.append("  *** read failed: ");
            s.append(e);
            s.append(" ***");
            Some(s)
        } else {
            None
        };
        let (row, note) = if self.csv {
            let mut msg = "GPU_UNREACHABLE (read failed: ".to_owned();
            msg.append(e);
            msg.append(" - GPU may have fallen off the bus)");
            let mut note = "GPU_UNREACHABLE (read failed: ".to_owned();
            note.append(e);
            note.append(")");
            (Some(unreachable_row(ts, msg.as_str())), Some(note))
        } else {
            (None, None)
        };
        let mut detail = "read failed: ".to_owned();
        detail.append(e);
        (lost(detail), complaint, row, note)
    }

    /// Take in one sample: evaluate it, feed the sinks, debounce, notify. `ts` is the time for
    /// everything durable, `ts_disp` its short form for the display.
    pub fn sample(
        &mut self,
        sample: &Result<Reading, String>,
        ts: &str,
        ts_disp: &str,
        now: Instant,
    ) -> (out: Output)
        requires
            old(self).lifecycle.wf(),
        ensures
            final(self).lifecycle.wf(),
            final(self).lifecycle.policy() == old(self).lifecycle.policy(),
            final(self).thresholds == old(self).thresholds,
            final(self).auto == old(self).auto,
            final(self).display == old(self).display,
            final(self).csv == old(self).csv,
            final(self).log_failing == old(self).log_failing,
            ({
                let v = verdict(*sample, old(self).thresholds);
                let says = sample_says(v, old(self).display);
                let events = lifecycle::announced(
                    old(self).lifecycle.policy(),
                    old(self).lifecycle.phases(),
                    now,
                    says,
                    4,
                );
                let prefix = event_prefix(old(self).display, ts@, ts_disp@);
                &&& final(self).misses == (if v is Good {
                    0
                } else {
                    safety::missed(old(self).misses)
                })
                &&& forall|i: int|
                    0 <= i < 4 ==> #[trigger] final(self).lifecycle.phases()[i]
                        == lifecycle::advance_at(
                        old(self).lifecycle.policy(),
                        old(self).lifecycle.phases(),
                        now,
                        says,
                        i,
                    ).0
                &&& out.shown is Some == old(self).display && (out.shown is Some
                    ==> out.shown->0@ == shown(v, ts_disp@))
                &&& out.row is Some == old(self).csv && (out.row is Some ==> out.row->0@
                    == csv_record(v, ts@))
                &&& out.note is Some == (old(self).csv && csv_note(v) is Some) && (out.note is Some
                    ==> csv_note(v) == Some(out.note->0@))
                &&& lifecycle::event_views(out.announcements.events@) == events
                &&& text::views(out.announcements.lines@) == event_lines(events, prefix)
                &&& notify::message_views(out.announcements.messages@) == event_messages(
                    events,
                    ts@,
                )
            }),
            final(self).misses == safety::misses_after(
                verdict(*sample, old(self).thresholds) is Good,
                old(self).misses,
            ),
    {
        let (present, shown, row, note, good) = match sample {
            Ok(r) => {
                if r.plausible() {
                    let o = self.good(r, ts, ts_disp);
                    (o.0, o.1, o.2, o.3, true)
                } else {
                    let o = self.implausible(ts, ts_disp);
                    (o.0, o.1, o.2, o.3, false)
                }
            },
            Err(e) => {
                let o = self.unreadable(e.as_str(), ts, ts_disp);
                (o.0, o.1, o.2, o.3, false)
            },
        };
        self.misses = if good {
            0
        } else if self.misses < u32::MAX {
            self.misses + 1
        } else {
            self.misses
        };
        let events = self.lifecycle.observe(now, present.as_slice());
        let prefix = if self.display {
            let mut p = "\n".to_owned();
            p.append(ts_disp);
            p
        } else {
            ts.to_owned()
        };
        let announcements = announce(events, prefix.as_str(), ts);
        Output { shown, row, note, announcements }
    }

    /// What to say after the row was written, or was not: a failing CSV warns once and then
    /// mirrors each sample's record to the journal until logging recovers.
    pub fn wrote_row(
        &mut self,
        error: Option<&str>,
        note: &Option<String>,
        ts: &str,
    ) -> (lines: Vec<String>)
        ensures
            final(self).lifecycle == old(self).lifecycle,
            final(self).thresholds == old(self).thresholds,
            final(self).misses == old(self).misses,
            final(self).auto == old(self).auto,
            final(self).display == old(self).display,
            final(self).csv == old(self).csv,
            final(self).log_failing == error is Some,
            text::views(lines@) == (match error {
                None => if old(self).log_failing {
                    seq![ts@ + "  csv logging recovered"@]
                } else {
                    seq![]
                },
                Some(e) => (if old(self).log_failing {
                    seq![]
                } else {
                    seq![
                        ts@ + "  csv write failed: "@ + e@
                            + " (mirroring per-sample alerts to stderr until logging recovers)"@,
                    ]
                }) + (match *note {
                    Some(n) => seq![ts@ + "  "@ + n@],
                    None => seq![],
                }),
            }),
            text::views(lines@) == row_says(
                match error {
                    Some(e) => Some(e@),
                    None => None,
                },
                old(self).log_failing,
                text_view(*note),
                ts@,
            ),
    {
        let mut lines: Vec<String> = Vec::new();
        assert(text::views(lines@) =~= seq![]);
        match error {
            None => {
                if self.log_failing {
                    let mut s = ts.to_owned();
                    s.append("  csv logging recovered");
                    let ghost said = s@;
                    lines.push(s);
                    assert(text::views(lines@) =~= seq![said]);
                    self.log_failing = false;
                }
            },
            Some(e) => {
                if !self.log_failing {
                    let mut s = ts.to_owned();
                    s.append("  csv write failed: ");
                    s.append(e);
                    s.append(" (mirroring per-sample alerts to stderr until logging recovers)");
                    let ghost said = s@;
                    lines.push(s);
                    assert(text::views(lines@) =~= seq![said]);
                    self.log_failing = true;
                }
                let ghost had = text::views(lines@);
                if let Some(n) = note {
                    let mut s = ts.to_owned();
                    s.append("  ");
                    s.append(n.as_str());
                    let ghost said = s@;
                    lines.push(s);
                    assert(text::views(lines@) =~= had + seq![said]);
                } else {
                    assert(text::views(lines@) =~= had + seq![]);
                }
            },
        }
        lines
    }

    /// Whether detection is to be run again: sustained failure on an auto-detected bus may mean
    /// the GPU reset and the kernel renumbered the i2c bus. Asking starts the count anew, so that
    /// detection is throttled; a named bus is never given up.
    pub fn redetect_due(&mut self) -> (r: bool)
        ensures
            r == (old(self).auto && old(self).misses >= REDETECT_AFTER),
            final(self).misses == (if r { 0 } else { old(self).misses }),
            final(self).lifecycle == old(self).lifecycle,
            final(self).thresholds == old(self).thresholds,
            final(self).auto == old(self).auto,
            final(self).display == old(self).display,
            final(self).csv == old(self).csv,
            final(self).log_failing == old(self).log_failing,
            r == gives_up_the_bus(old(self).auto, old(self).misses),
    {
        if self.auto && self.misses >= REDETECT_AFTER {
            self.misses = 0;
            true
        } else {
            false
        }
    }
}

/// The bus to go on with after a re-detection.
pub open spec fn goes_on_with(bus: u32, found: Detect) -> u32 {
    match found {
        Detect::Found(b) => b,
        _ => bus,
    }
}

/// The bus to go on with after a re-detection, and what to say when it is another one.
pub fn reattach(bus: u32, found: Detect, ts: &str) -> (r: (u32, Option<String>))
    ensures
        match found {
            Detect::Found(b) => r.0 == b && (match r.1 {
                Some(s) => b != bus && s@ == ts@ + "  i2c bus changed "@ + text::decimal(
                    bus as nat,
                ) + " -> "@ + text::decimal(b as nat) + ", reattached"@,
                None => b == bus,
            }),
            _ => r.0 == bus && r.1 is None,
        },
        r.0 == goes_on_with(bus, found),
        r.1 is Some <==> goes_on_with(bus, found) != bus,
{
    match found {
        Detect::Found(b) => {
            if b != bus {
                let mut s = ts.to_owned();
                s.append("  i2c bus changed ");
                s.append(decimal_text(bus as u128).as_str());
                s.append(" -> ");
                s.append(decimal_text(b as u128).as_str());
                s.append(", reattached");
                (b, Some(s))
            } else {
                (b, None)
            }
        },
        _ => (bus, None),
    }
}

// ---------------------------------------------------------------- feeding the metrics

/// The metrics after the events of a sample.
pub open spec fn with_events(m: metrics::Snapshot, events: Seq<EventView>) -> metrics::Snapshot
    decreases events.len(),
{
    if events.len() == 0 {
        m
    } else {
        metrics::with_event(with_events(m, events.drop_last()), events.last())
    }
}

/// The metrics after a sample.
pub open spec fn with_sample(
    m: metrics::Snapshot,
    sample: Result<Reading, String>,
    now: Instant,
) -> metrics::Snapshot {
    match sample {
        Ok(r) => if decode::is_plausible(r.pins@) {
            metrics::with_reading(m, r, now)
        } else {
            metrics::with_implausible(m)
        },
        Err(_) => metrics::with_read_error(m),
    }
}

/// Bring the metrics up to date with a sample.
pub fn record_sample(m: &mut Metrics, sample: &Result<Reading, String>, now: Instant)
    ensures
        final(m)@ == with_sample(old(m)@, *sample, now),
{
    match sample {
        Ok(r) => {
            if r.plausible() {
                m.on_good_sample(r, now);
            } else {
                m.on_implausible_sample();
            }
        },
        Err(_) => {
            m.on_read_error();
        },
    }
}

/// Bring the metrics up to date with the events of a sample.
pub fn record_events(m: &mut Metrics, events: &Vec<Event>)
    ensures
        final(m)@ == with_events(old(m)@, lifecycle::event_views(events@)),
{
    let ghost start = m@;
    let ghost all = lifecycle::event_views(events@);
    let mut i: usize = 0;
    assert(all.take(0) =~= seq![]);
    while i < events.len()
        invariant
            i <= events.len(),
            all == lifecycle::event_views(events@),
            m@ == with_events(start, all.take(i as int)),
        decreases events.len() - i,
    {
        assert(all.take(i + 1).drop_last() =~= all.take(i as int));
        assert(all.take(i + 1).last() == events@[i as int]@);
        m.on_event(&events[i]);
        i = i + 1;
    }
    assert(all.take(all.len() as int) =~= all);
}

// ---------------------------------------------------------------- laws

/// Every sample leaves a record: while the CSV cannot be written, whatever is not a plain healthy
/// reading is mirrored, and a read that failed always is.
pub proof fn law_the_forensic_trail_survives(v: Verdict)
    ensures
        csv_note(v) is None ==> v is Good && v->Good_1.len() == 0,
        v is Unreadable ==> csv_note(v) is Some,
        v is Implausible ==> csv_note(v) is Some,
{
}

} // verus!
