//! What one sample gives each sink, and what the arguments of the program stand for.

use crate::alert;
use crate::alert::{AlertView, Thresholds};
use crate::clock::Duration;
use crate::decode;
use crate::decode::{Pin, Reading};
use crate::double;
use crate::double::{Double, Number};
use crate::double_laws;
use crate::i2c::Detect;
use crate::lifecycle;
use crate::lifecycle::{Condition, EventView};
use crate::logger;
use crate::monitor;
use crate::monitor::Verdict;
use crate::notify;
use crate::number;
use crate::number::NumeralError;
use crate::numeral_laws;
use crate::text;
use crate::text_laws;
use vstd::prelude::*;

verus! {

// ---------------------------------------------------------------- arguments

/// An address is read in decimal, or in hexadecimal behind `0x` or `0X`, with any white space
/// around it; one that does not fit in sixteen bits is too large.
pub proof fn law_addresses_are_read(s: Seq<char>, n: nat)
    ensures
        text::trimmed(s) == text::decimal(n) || text::trimmed(s) == "0x"@ + text::hex(n)
            || text::trimmed(s) == "0X"@ + text::hex(n) ==> monitor::address_value(s) == if n
            <= 0xffff {
            Ok::<nat, NumeralError>(n)
        } else {
            Err(NumeralError::TooLarge)
        },
        text::trimmed(s).len() == 0 ==> monitor::address_value(s) == Err::<nat, NumeralError>(
            NumeralError::Empty,
        ),
{
    reveal_strlit("0x");
    reveal_strlit("0X");
    numeral_laws::law_printed_numbers_are_read(n, 0xffff);
    text_laws::law_decimals_read_back(n);
    let d = text::decimal(n);
    let h = text::hex(n);
    assert(!"0x"@.is_prefix_of(d) && !"0X"@.is_prefix_of(d)) by {
        if d.len() >= 2 {
            assert('0' <= d[1] <= '9');
            assert("0x"@[1] == 'x' && "0X"@[1] == 'X');
        }
    }
    let (a, b) = ("0x"@ + h, "0X"@ + h);
    assert(a.skip(2) =~= h && b.skip(2) =~= h);
    assert(a.subrange(0, 2) =~= "0x"@ && b.subrange(0, 2) =~= "0X"@);
    assert("0x"@.is_prefix_of(a) && "0X"@.is_prefix_of(b));
}

/// A rotation size can be used exactly when it is finite and not below zero.
pub proof fn law_which_sizes_can_be_used(n: Number)
    requires
        n.wf(),
    ensures
        monitor::size_fits(n) <==> n is Finite && double_laws::value(n) >= 0,
{
    if n is Finite {
        let z = double::zero();
        assert(z is Finite && z.wf() && double_laws::value(z) == 0) by {
            assert(0 * vstd::arithmetic::power2::pow2((z->size.exponent + 1074) as nat) == 0)
                by (nonlinear_arith);
        }
        double_laws::law_numbers_compare_by_value(n, z);
    }
}

/// A megabyte is 1024 times 1024 bytes: the bytes are so many times the size, to four bytes.
pub proof fn law_megabytes_are_in_bytes(x: Double)
    requires
        x.wf(),
        double::weight(x) <= 0x10_0000 * double_laws::one(),
    ensures
        double_laws::gap(
            (monitor::megabytes(Number::Finite { negative: false, size: x })
                * double_laws::one()) as int,
            (0x10_0000 * double::weight(x)) as int,
        ) <= 4 * double_laws::one(),
{
    let t = double_laws::one() as int;
    double_laws::lemma_one();
    double::lemma_whole(1024);
    let k = double::whole(1024)->size;
    let w = double::weight(x) as int;
    let wk = double::weight(k) as int;
    assert(wk == 1024 * t);
    let d = lemma_kilo(x, k, 0x4000_0000);
    let wd = double::weight(d) as int;
    let e = lemma_kilo(d, k, 0x100_0000_0400);
    let we = double::weight(e) as int;
    numeral_laws::law_truncating_goes_down(e, u64::MAX as nat);
    let m = monitor::megabytes(Number::Finite { negative: false, size: x }) as int;
    let f = Number::Finite { negative: false, size: x };
    let kilobytes = double::times(f, double::whole(1024));
    assert(kilobytes == Number::Finite { negative: false, size: d });
    assert(double::times(kilobytes, double::whole(1024)) == Number::Finite {
        negative: false,
        size: e,
    });
    assert((m + 1) * t == m * t + t) by (nonlinear_arith);
    if m == u64::MAX {
        assert(m * t == 0xffff_ffff_ffff_ffff * t);
    }
}

proof fn lemma_kilo(x: Double, k: Double, bound: nat) -> (d: Double)
    requires
        x.wf(),
        k.wf(),
        double::weight(k) == 1024 * double_laws::one(),
        1024 * double::weight(x) <= bound * double_laws::one(),
        bound <= 0x400_0000_0000,
    ensures
        double::product(x, k) == Some(d),
        d.wf(),
        double_laws::gap(1024 * double::weight(x) as int, double::weight(d) as int) * 0x200
            <= double_laws::one(),
        double::weight(d) <= (bound + 1) * double_laws::one(),
{
    let t = double_laws::one() as int;
    double_laws::lemma_one();
    let w = double::weight(x) as int;
    let wk = double::weight(k) as int;
    let exact = 1024 * w;
    let b = bound as int;
    assert(w * wk == exact * t) by (nonlinear_arith)
        requires
            wk == 1024 * t,
            exact == 1024 * w,
    ;
    assert(exact * t <= b * (t * t)) by (nonlinear_arith)
        requires
            exact <= b * t,
            t > 0,
    ;
    double_laws::law_products_are_close(x, k, bound);
    let d = double::product(x, k)->0;
    let wd = double::weight(d) as int;
    let g = double_laws::gap(exact, wd);
    assert(double_laws::gap(exact * t, wd * t) == g * t) by {
        assert(exact <= wd ==> exact * t <= wd * t && wd * t - exact * t == (wd - exact) * t)
            by (nonlinear_arith)
            requires
                t > 0,
        ;
        assert(exact > wd ==> exact * t > wd * t && exact * t - wd * t == (exact - wd) * t)
            by (nonlinear_arith)
            requires
                t > 0,
        ;
    }
    assert(0x20_0000_0000_0000 * g <= exact + 0x10_0000_0000_0000) by (nonlinear_arith)
        requires
            0x20_0000_0000_0000 * (g * t) <= exact * t + 0x10_0000_0000_0000 * t,
            t > 0,
    ;
    assert(b * t <= 0x400_0000_0000 * t) by (nonlinear_arith)
        requires
            b <= 0x400_0000_0000,
            t > 0,
    ;
    assert((b + 1) * t == b * t + t) by (nonlinear_arith);
    d
}

// ---------------------------------------------------------------- what a sample amounts to

/// A sample is good exactly when it could be read and is plausible; it then keeps its pins and
/// gives the alerts of them. A read that failed keeps its cause.
pub proof fn law_what_a_sample_amounts_to(sample: Result<Reading, String>, t: Thresholds)
    ensures
        monitor::verdict(sample, t) is Good <==> sample is Ok && decode::is_plausible(
            sample->Ok_0.pins@,
        ),
        monitor::verdict(sample, t) is Implausible <==> sample is Ok && !decode::is_plausible(
            sample->Ok_0.pins@,
        ),
        monitor::verdict(sample, t) is Unreadable <==> sample is Err,
        monitor::verdict(sample, t) matches Verdict::Good(pins, alerts) ==> pins
            == sample->Ok_0.pins@ && alerts == alert::alerts_of(pins, t),
        monitor::verdict(sample, t) matches Verdict::Unreadable(e) ==> e == sample->Err_0@,
{
}

/// A good sample says its alerts, and never that telemetry is lost; any other says only that,
/// with the reason.
pub proof fn law_what_a_sample_says(v: Verdict, display: bool)
    ensures
        ({
            let says = monitor::sample_says(v, display);
            let lost = exists|i: int|
                0 <= i < says.len() && (#[trigger] says[i]).0 == Condition::TelemetryLost;
            &&& lost <==> !(v is Good)
            &&& !(v is Good) ==> says.len() == 1
            &&& v matches Verdict::Good(pins, alerts) ==> says.len() == alerts.len() && forall|
                i: int,
            |
                0 <= i < alerts.len() ==> (#[trigger] says[i]).1 == alert::alert_text(alerts[i])
            &&& v matches Verdict::Unreadable(e) ==> says[0].1 == "read failed: "@ + e
            &&& v is Implausible ==> "implausible reading (chip answered"@.is_prefix_of(says[0].1)
        }),
{
    let says = monitor::sample_says(v, display);
    reveal_strlit("implausible reading (chip answered");
    reveal_strlit("implausible reading (chip answered; wrong device or GPU resetting?)");
    reveal_strlit("implausible reading (chip answered but data failed sanity checks)");
    let p = "implausible reading (chip answered"@;
    let a = "implausible reading (chip answered; wrong device or GPU resetting?)"@;
    let b = "implausible reading (chip answered but data failed sanity checks)"@;
    assert(a.subrange(0, p.len() as int) =~= p);
    assert(b.subrange(0, p.len() as int) =~= p);
    if v is Good {
        assert forall|i: int| 0 <= i < says.len() implies (#[trigger] says[i]).0
            != Condition::TelemetryLost by {
            crate::alarm_laws::law_alerts_are_said_as_conditions(v->Good_1, i);
        }
    } else {
        assert(says[0].0 == Condition::TelemetryLost);
    }
}

/// What is shown of a good sample refreshes its line and has the alerts behind it, where there are
/// any; a complaint starts a line of its own. Either bears the time.
pub proof fn law_what_is_shown(v: Verdict, ts: Seq<char>)
    ensures
        ({
            let s = monitor::shown(v, ts);
            &&& v matches Verdict::Good(pins, alerts) ==> {
                let plain = monitor::shown(Verdict::Good(pins, seq![]), ts);
                &&& (seq!['\r'] + ts).is_prefix_of(s)
                &&& alerts.len() == 0 ==> s == plain
                &&& alerts.len() > 0 ==> s == plain + "  !! "@ + monitor::alerts_joined(alerts)
            }
            &&& !(v is Good) ==> (seq!['\n'] + ts + "  *** "@).is_prefix_of(s)
                && " ***"@.is_suffix_of(s)
            &&& v matches Verdict::Unreadable(e) ==> s == seq!['\n'] + ts + "  *** read failed: "@
                + e + " ***"@
        }),
{
    reveal_strlit("\r");
    reveal_strlit("\n");
    reveal_strlit("  *** ");
    reveal_strlit("  *** read failed: ");
    assert("\r"@ =~= seq!['\r']);
    assert("\n"@ =~= seq!['\n']);
    let s = monitor::shown(v, ts);
    if v is Good {
        let p = seq!['\r'] + ts;
        assert(s.subrange(0, p.len() as int) =~= p);
    } else {
        let p = seq!['\n'] + ts + "  *** "@;
        assert(s.subrange(0, p.len() as int) =~= p);
        let e = " ***"@;
        assert(s.subrange(s.len() - e.len(), s.len() as int) =~= e);
    }
}

/// Alerts in words stand one behind the other with bars between them.
pub proof fn law_alerts_stand_between_bars(alerts: Seq<AlertView>, last: AlertView)
    ensures
        monitor::alerts_joined(seq![last]) == alert::alert_text(last),
        alerts.len() > 0 ==> monitor::alerts_joined(alerts.push(last)) == monitor::alerts_joined(
            alerts,
        ) + " | "@ + alert::alert_text(last),
        monitor::alerts_joined(seq![]) == Seq::<char>::empty(),
{
    let one = logger::alert_texts(seq![last]);
    assert(one =~= seq![alert::alert_text(last)]);
    let all = logger::alert_texts(alerts.push(last));
    assert(all.len() == alerts.len() + 1);
    assert(all.drop_last() =~= logger::alert_texts(alerts));
    assert(all.last() == alert::alert_text(last));
}

/// The display gives each of the six pins under its own number, with the voltage and the current
/// of that pin to hundredths, in order.
pub proof fn law_the_display_shows_each_pin(pins: Seq<Pin>)
    ensures
        ({
            let one = |i: int|
                "p"@ + text::decimal((i + 1) as nat) + " "@ + text::padded(
                    double::fixed(double::thousandths(pins[i].millivolts as nat), 2),
                    5,
                    ' ',
                ) + "V "@ + text::padded(
                    double::fixed(double::thousandths(pins[i].milliamps as nat), 2),
                    5,
                    ' ',
                ) + "A  "@;
            monitor::display_pins(pins, 6) == one(0) + one(1) + one(2) + one(3) + one(4) + one(5)
        }),
{
    reveal_with_fuel(monitor::display_pins, 7);
    assert(seq![] + monitor::display_pin(pins[0], 1) =~= monitor::display_pin(pins[0], 1));
}

/// The display ends in the total current to tenths, the total power in whole watts and the balance
/// to hundredths, or a dash where there is none.
pub proof fn law_the_display_shows_the_totals(ts: Seq<char>, pins: Seq<Pin>)
    ensures
        monitor::display_text(ts, pins, seq![]) == "\r"@ + ts + "  "@ + monitor::display_pins(
            pins,
            6,
        ) + "| "@ + text::padded(double::fixed(decode::total_amps(pins), 1), 5, ' ') + "A ~"@
            + text::padded(double::fixed(decode::total_watts(pins), 0), 4, ' ') + "W bal "@ + (
        match decode::balance(pins) {
            Some(r) => double::fixed(r, 2),
            None => "-"@,
        }),
{
}

/// The row of a good sample holds its pins and alerts; that of any other holds the time and a
/// word for what happened, and nothing that could be taken for a reading.
pub proof fn law_what_is_logged(v: Verdict, ts: Seq<char>)
    ensures
        match v {
            Verdict::Good(pins, alerts) => monitor::csv_record(v, ts) == logger::record(
                logger::sample_fields(ts, pins, alerts),
            ),
            Verdict::Implausible => exists|why: Seq<char>|
                "IMPLAUSIBLE_READING"@.is_prefix_of(why) && monitor::csv_record(v, ts)
                    == logger::record(#[trigger] logger::unreachable_fields(ts, why)),
            Verdict::Unreadable(e) => exists|why: Seq<char>|
                ("GPU_UNREACHABLE (read failed: "@ + e).is_prefix_of(why) && monitor::csv_record(
                    v,
                    ts,
                ) == logger::record(#[trigger] logger::unreachable_fields(ts, why)),
        },
{
    match v {
        Verdict::Good(pins, alerts) => {},
        Verdict::Implausible => {
            reveal_strlit("IMPLAUSIBLE_READING");
            reveal_strlit("IMPLAUSIBLE_READING (chip answered but data failed sanity checks)");
            let p = "IMPLAUSIBLE_READING"@;
            let why = "IMPLAUSIBLE_READING (chip answered but data failed sanity checks)"@;
            assert(why.subrange(0, p.len() as int) =~= p);
            assert(monitor::csv_record(v, ts) == logger::record(
                logger::unreachable_fields(ts, why),
            ));
        },
        Verdict::Unreadable(e) => {
            let p = "GPU_UNREACHABLE (read failed: "@ + e;
            let why = p + " - GPU may have fallen off the bus)"@;
            assert(why.subrange(0, p.len() as int) =~= p);
            assert(monitor::csv_record(v, ts) == logger::record(
                logger::unreachable_fields(ts, why),
            ));
        },
    }
}

/// While the file cannot be written, exactly a healthy sample leaves no note; alerts are noted in
/// words, and a failed read with its cause.
pub proof fn law_what_is_noted(v: Verdict)
    ensures
        monitor::csv_note(v) is None <==> v is Good && v->Good_1.len() == 0,
        v matches Verdict::Good(pins, alerts) ==> alerts.len() > 0 ==> monitor::csv_note(v) == Some(
            "ALERT: "@ + monitor::alerts_joined(alerts),
        ),
        v is Implausible ==> monitor::csv_note(v) == Some("IMPLAUSIBLE_READING"@),
        v matches Verdict::Unreadable(e) ==> monitor::csv_note(v) == Some(
            "GPU_UNREACHABLE (read failed: "@ + e + ")"@,
        ),
{
}

/// Every event of a sample becomes a journal line behind the prefix and a notification, in order.
pub proof fn law_every_event_is_passed_on(
    events: Seq<EventView>,
    prefix: Seq<char>,
    ts: Seq<char>,
    i: int,
)
    requires
        0 <= i < events.len(),
    ensures
        monitor::event_lines(events, prefix).len() == events.len(),
        monitor::event_lines(events, prefix)[i] == prefix + "  "@ + lifecycle::event_text(
            events[i],
        ),
        monitor::event_messages(events, ts).len() == events.len(),
        monitor::event_messages(events, ts)[i] == notify::rendered(events[i], ts),
{
}

/// With a display an event starts a line of its own and bears the short time; without, it bears
/// the full time.
pub proof fn law_where_events_are_written(ts: Seq<char>, ts_disp: Seq<char>)
    ensures
        monitor::event_prefix(true, ts, ts_disp) == seq!['\n'] + ts_disp,
        monitor::event_prefix(false, ts, ts_disp) == ts,
{
    reveal_strlit("\n");
    assert("\n"@ =~= seq!['\n']);
}

/// While waiting for a bus the lifecycle hears, of every fruitless scan, that telemetry is lost
/// and why; each cause has a hint of its own.
pub proof fn law_waiting_is_a_loss(d: Detect)
    requires
        !(d is Found),
    ensures
        monitor::waiting_says(d) == seq![
            (Condition::TelemetryLost, "waiting for GPU telemetry: "@ + monitor::hint_text(d)),
        ],
        "no NVIDIA i2c buses found"@.is_prefix_of(monitor::hint_text(d)) <==> d == Detect::NoBuses,
        "permission denied"@.is_prefix_of(monitor::hint_text(d)) <==> d
            == Detect::PermissionDenied,
        "no per-pin telemetry"@.is_prefix_of(monitor::hint_text(d)) <==> d != Detect::NoBuses && d
            != Detect::PermissionDenied,
{
    reveal_strlit("no NVIDIA i2c buses found");
    reveal_strlit("permission denied");
    reveal_strlit("no per-pin telemetry");
    reveal_strlit("no NVIDIA i2c buses found — is i2c-dev loaded?  try `sudo modprobe i2c-dev`");
    reveal_strlit(
        "permission denied opening /dev/i2c-* — run with sudo, or `sudo make install` (creates the `i2c` group + udev rule); after that, add your user to the `i2c` group and re-login to run without sudo",
    );
    reveal_strlit(
        "no per-pin telemetry on any NVIDIA bus yet — GPU deeply idle? run under load, or pass --bus N",
    );
    let (a, b, c) = (
        "no NVIDIA i2c buses found"@,
        "permission denied"@,
        "no per-pin telemetry"@,
    );
    let h = monitor::hint_text(d);
    assert(a[3] == 'N' && b[0] == 'p' && c[3] == 'p' && c[0] == 'n' && a[0] == 'n');
    match d {
        Detect::NoBuses => {
            assert(h.subrange(0, a.len() as int) =~= a);
            assert(h[0] == 'n' && h[3] == 'N');
        },
        Detect::PermissionDenied => {
            assert(h.subrange(0, b.len() as int) =~= b);
            assert(h[0] == 'p');
        },
        _ => {
            assert(h.subrange(0, c.len() as int) =~= c);
            assert(h[0] == 'n' && h[3] == 'p');
        },
    }
}

/// The line of a GPU gives its address, both numbers of its subsystem in four digits, and its
/// name where it is known.
pub proof fn law_what_is_said_of_a_gpu(g: crate::cards::GpuView)
    ensures
        ("# GPU "@ + g.pci + "  subsystem "@ + monitor::hex4(g.subsystem_vendor) + ":"@
            + monitor::hex4(g.subsystem_device) + "  -> "@).is_prefix_of(monitor::gpu_text(g)),
        crate::cards::model_in(crate::cards::known(), g.subsystem_device) matches Some(m)
            ==> m.is_suffix_of(monitor::gpu_text(g)),
        monitor::hex4(g.subsystem_device).len() == 4,
        text_laws::worth(monitor::hex4(g.subsystem_device), 16) == g.subsystem_device,
{
    let front = "# GPU "@ + g.pci + "  subsystem "@ + monitor::hex4(g.subsystem_vendor) + ":"@
        + monitor::hex4(g.subsystem_device) + "  -> "@;
    let s = monitor::gpu_text(g);
    assert(s.subrange(0, front.len() as int) =~= front);
    if let Some(m) = crate::cards::model_in(crate::cards::known(), g.subsystem_device) {
        assert(s.subrange(s.len() - m.len(), s.len() as int) =~= m);
    }
    let n = g.subsystem_device as nat;
    let h = text::hex(n);
    text_laws::law_hexadecimals_read_back(n);
    reveal_with_fuel(text::hex, 5);
    assert(h.len() <= 4);
    let zeros = text::repeated('0', (4 - h.len()) as nat);
    lemma_leading_zeros(zeros.len(), h);
    assert(zeros + h =~= monitor::hex4(g.subsystem_device));
}

proof fn lemma_leading_zeros(n: nat, s: Seq<char>)
    ensures
        text_laws::worth(text::repeated('0', n) + s, 16) == text_laws::worth(s, 16),
    decreases s.len(), n,
{
    let zeros = text::repeated('0', n);
    let t = zeros + s;
    if s.len() > 0 {
        lemma_leading_zeros(n, s.drop_last());
        assert(t.drop_last() =~= zeros + s.drop_last());
        assert(t.last() == s.last());
    } else if n > 0 {
        lemma_leading_zeros((n - 1) as nat, s);
        assert(t.drop_last() =~= text::repeated('0', (n - 1) as nat) + s);
        assert(t.last() == '0');
    } else {
        assert(t =~= s);
    }
}

// ---------------------------------------------------------------- the loop

/// A pause of so many seconds is that many thousand million nanoseconds, to half of one.
pub proof fn law_pauses_are_in_nanoseconds(secs: Double)
    requires
        secs.wf(),
    ensures
        2 * double_laws::gap(
            (monitor::pause_nanos(secs) * double_laws::one()) as int,
            (double::weight(secs) * 1_000_000_000) as int,
        ) <= double_laws::one(),
{
    numeral_laws::law_fixed_places_are_close(secs, 1_000_000_000);
}

/// Sampling below fifty thousandths of a second is warned of, and only that.
pub proof fn law_which_intervals_are_warned_of(n: nat)
    requires
        n <= 0x1_0000_0000,
    ensures
        monitor::hammers(double::thousandths(n)) <==> n < 50,
{
    double_laws::law_thousandths_are_ordered(n, 50);
}

/// Metrics are always served in export mode: at the flag, else where the config says, else at the
/// default; in the other modes exactly where the config says so.
pub proof fn law_where_metrics_are_served(
    export: bool,
    flag: Option<Seq<char>>,
    cfg: Option<Seq<char>>,
)
    ensures
        monitor::listens_at(true, flag, cfg) is Some,
        flag is Some ==> monitor::listens_at(true, flag, cfg) == flag,
        flag is None && cfg is Some ==> monitor::listens_at(true, flag, cfg) == cfg,
        flag is None && cfg is None ==> monitor::listens_at(true, flag, cfg) == Some(
            "127.0.0.1:9942"@,
        ),
        monitor::listens_at(false, flag, cfg) == cfg,
{
}

/// A sleep is taken in pieces of a fifth of a second, the last as long as what is left.
pub proof fn law_how_long_a_nap_is(left: Duration)
    ensures
        monitor::nap_of(left) <= left.nanos,
        monitor::nap_of(left) <= 200_000_000,
        monitor::nap_of(left) == left.nanos || monitor::nap_of(left) == 200_000_000,
        left.nanos > 0 ==> monitor::nap_of(left) > 0,
{
}

/// A bus that was found is given up after ten misses, and one that was named never.
pub proof fn law_when_a_bus_is_given_up(auto: bool, misses: u32)
    ensures
        monitor::gives_up_the_bus(auto, misses) <==> auto && misses >= 10,
{
}

/// A re-detection that found a bus goes on with that; any other goes on with the old one.
pub proof fn law_which_bus_is_gone_on_with(bus: u32, found: Detect)
    ensures
        found matches Detect::Found(b) ==> monitor::goes_on_with(bus, found) == b,
        !(found is Found) ==> monitor::goes_on_with(bus, found) == bus,
{
}

/// A streak of failed writes is told of once when it begins and once when it ends; while it lasts
/// every note is passed on, and without one nothing is.
pub proof fn law_what_is_said_of_rows(
    error: Option<Seq<char>>,
    failing: bool,
    note: Option<Seq<char>>,
    ts: Seq<char>,
)
    ensures
        ({
            let says = monitor::row_says(error, failing, note, ts);
            let n = |b: bool| if b { 1int } else { 0int };
            &&& error is None ==> says.len() == n(failing)
            &&& error is Some ==> says.len() == n(!failing) + n(note is Some)
            &&& error is None && failing ==> says[0] == ts + "  csv logging recovered"@
            &&& error is Some && !failing ==> (ts + "  csv write failed: "@
                + error->0).is_prefix_of(says[0])
            &&& error is Some && note is Some ==> says.last() == ts + "  "@ + note->0
        }),
{
    if error is Some && !failing {
        let says = monitor::row_says(error, failing, note, ts);
        let p = ts + "  csv write failed: "@ + error->0;
        assert(says[0].subrange(0, p.len() as int) =~= p);
    }
}

/// The address that stands in the help is the chip's.
pub proof fn law_the_default_address_is_the_chips()
    ensures
        monitor::address_value(crate::i2c::CHIP_ADDR_STR@) == Ok::<nat, NumeralError>(
            crate::i2c::CHIP_ADDR as nat,
        ),
        crate::i2c::CHIP_ADDR == 0x2b,
{
    reveal_strlit("0x2b");
    reveal_strlit("0x");
    let s = "0x2b"@;
    reveal_with_fuel(text::hex, 2);
    assert(text::hex(0x2b) =~= seq!['2', 'b']);
    assert(s =~= "0x"@ + text::hex(0x2b));
    let ends = text_laws::law_trimming_takes_white_space(s);
    assert(text::trimmed(s) == s) by {
        assert(!text::is_space(s[0]) && !text::is_space(s[3]));
        if ends.0.len() > 0 {
            assert(ends.0[0] == s[0]);
        }
        if ends.1.len() > 0 {
            assert(ends.1[ends.1.len() - 1] == s[3]);
        }
        assert(ends.0.len() == 0 && ends.1.len() == 0);
        assert(ends.0 + text::trimmed(s) + ends.1 =~= text::trimmed(s));
    }
    law_addresses_are_read(s, 0x2b);
}

/// The waits of the program: five seconds between detections, and five to drain the queues.
pub proof fn law_how_long_the_program_waits()
    ensures
        monitor::ACQUIRE_RETRY_NANOS == 5_000_000_000,
        monitor::SHUTDOWN_GRACE_NANOS == 5_000_000_000,
        crate::exporter::REQUEST_DEADLINE_NANOS == 5_000_000_000,
{
}

/// A cause is news the first time, and again whenever another came between.
pub proof fn law_each_cause_is_told_once(d: Detect, e: Detect)
    ensures
        monitor::is_news(None, d),
        monitor::is_news(Some(e), d) <==> e != d,
{
}

} // verus!
