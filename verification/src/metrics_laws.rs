//! What a scrape shows and when: which series the exposition holds.

use crate::clock;
use crate::clock::Instant;
use crate::decode;
use crate::decode::{Pin, Reading};
use crate::double;
use crate::double::Number;
use crate::lifecycle;
use crate::lifecycle::EventView;
use crate::metrics;
use crate::metrics::{Snapshot, LOAD_MA, VERSION};
use crate::text;
use vstd::prelude::*;

verus! {

// ---------------------------------------------------------------- what is kept

/// One thing that is told to the metrics.
pub enum Told {
    /// [`metrics::Metrics::on_good_sample`]
    Good(Reading, Instant),
    /// [`metrics::Metrics::on_implausible_sample`]
    Implausible,
    /// [`metrics::Metrics::on_read_error`]
    ReadError,
    /// [`metrics::Metrics::on_event`]
    Event(EventView),
}

/// The snapshot after one thing was told.
pub open spec fn after_told(m: Snapshot, t: Told) -> Snapshot {
    match t {
        Told::Good(r, now) => metrics::with_reading(m, r, now),
        Told::Implausible => metrics::with_implausible(m),
        Told::ReadError => metrics::with_read_error(m),
        Told::Event(e) => metrics::with_event(m, e),
    }
}

/// The snapshot after a run of them.
pub open spec fn after_all(m: Snapshot, told: Seq<Told>) -> Snapshot
    decreases told.len(),
{
    if told.len() == 0 {
        m
    } else {
        after_told(after_all(m, told.drop_last()), told.last())
    }
}

/// The last plausible reading that was told.
pub open spec fn last_good(told: Seq<Told>) -> Option<(Reading, Instant)>
    decreases told.len(),
{
    if told.len() == 0 {
        None
    } else {
        match told.last() {
            Told::Good(r, now) => Some((r, now)),
            _ => last_good(told.drop_last()),
        }
    }
}

/// The reading that is kept is the last plausible one, whatever failed after it.
pub proof fn law_the_last_good_reading_is_kept(m: Snapshot, told: Seq<Told>)
    ensures
        after_all(m, told).reading == (if last_good(told) is Some {
            last_good(told)
        } else {
            m.reading
        }),
    decreases told.len(),
{
    if told.len() > 0 {
        law_the_last_good_reading_is_kept(m, told.drop_last());
    }
}

// ---------------------------------------------------------------- series

/// The series that a line of an exposition belongs to: what stands before the first space or
/// brace. It is `#` for the lines that introduce a metric.
pub open spec fn series_of(line: Seq<char>) -> Seq<char>
    decreases line.len(),
{
    if line.len() == 0 || line[0] == ' ' || line[0] == '{' {
        seq![]
    } else {
        seq![line[0]] + series_of(line.drop_first())
    }
}

/// Whether some line of a text belongs to a series.
pub open spec fn has_series(s: Seq<char>, name: Seq<char>) -> bool {
    exists|i: int| 0 <= i < text::lines(s).len() && #[trigger] series_of(text::lines(s)[i]) == name
}

/// The series that a kept reading gives, whatever it reads.
pub open spec fn reading_series() -> Set<Seq<char>> {
    set![
        "astral_watch_pin_volts"@,
        "astral_watch_pin_amps"@,
        "astral_watch_total_amps"@,
        "astral_watch_total_watts"@,
        "astral_watch_last_reading_age_seconds"@,
    ]
}

/// The series that are always there.
pub open spec fn standing_series() -> Set<Seq<char>> {
    set![
        "astral_watch_up"@,
        "astral_watch_alert_active"@,
        "astral_watch_alerts_raised_total"@,
        "astral_watch_samples_total"@,
        "astral_watch_read_failures_total"@,
        "astral_watch_implausible_readings_total"@,
        "astral_watch_build_info"@,
    ]
}

/// The balance series.
pub open spec fn balance_series() -> Seq<char> {
    "astral_watch_balance_ratio"@
}

/// The series that an exposition shows.
pub open spec fn series_shown(m: Snapshot) -> Set<Seq<char>> {
    match m.reading {
        None => standing_series(),
        Some((r, at)) => if metrics::balance_value(r.pins@) is Some {
            standing_series().union(reading_series()).insert(balance_series())
        } else {
            standing_series().union(reading_series())
        },
    }
}

// ---------------------------------------------------------------- lines

/// Text within a line.
spec fn within_line(s: Seq<char>) -> bool {
    forall|i: int| 0 <= i < s.len() ==> (#[trigger] s[i]) != '\n' && s[i] != '\r'
}

/// The name of a series.
spec fn is_name(s: Seq<char>) -> bool {
    within_line(s) && forall|i: int| 0 <= i < s.len() ==> (#[trigger] s[i]) != ' ' && s[i] != '{'
}

/// Lines that are all ended.
spec fn whole(s: Seq<char>) -> bool {
    s.len() == 0 || s.last() == '\n'
}

/// Ended lines that belong to exactly these series.
spec fn shows(s: Seq<char>, names: Set<Seq<char>>) -> bool {
    whole(s) && forall|name: Seq<char>| #[trigger] has_series(s, name) <==> names.contains(name)
}

/// Every line of a series reads so.
pub open spec fn reads(s: Seq<char>, name: Seq<char>, line: Seq<char>) -> bool {
    forall|i: int|
        0 <= i < text::lines(s).len() && #[trigger] series_of(text::lines(s)[i]) == name
            ==> text::lines(s)[i] == line
}

proof fn lemma_pieces_append(a: Seq<char>, b: Seq<char>)
    requires
        whole(a),
    ensures
        text::pieces(a + b, '\n') == text::pieces(a, '\n').drop_last() + text::pieces(b, '\n'),
    decreases b.len(),
{
    text::lemma_pieces_nonempty(a, '\n');
    let p = text::pieces(a, '\n');
    assert(p.last() =~= seq![]);
    if b.len() == 0 {
        assert(a + b =~= a);
        assert(p =~= p.drop_last() + text::pieces(b, '\n'));
    } else {
        let c = b.drop_last();
        lemma_pieces_append(a, c);
        text::lemma_pieces_nonempty(c, '\n');
        assert((a + b).drop_last() =~= a + c);
        assert((a + b).last() == b.last());
        let q = text::pieces(c, '\n');
        if b.last() == '\n' {
            assert((p.drop_last() + q).push(seq![]) =~= p.drop_last() + q.push(seq![]));
        } else {
            let whole_text = p.drop_last() + q;
            assert(whole_text.last() == q.last());
            assert(whole_text.update(whole_text.len() - 1, q.last().push(b.last()))
                =~= p.drop_last() + q.update(q.len() - 1, q.last().push(b.last())));
        }
    }
}

proof fn lemma_lines_append(a: Seq<char>, b: Seq<char>)
    requires
        whole(a),
    ensures
        text::lines(a + b) == text::lines(a) + text::lines(b),
{
    lemma_pieces_append(a, b);
    text::lemma_pieces_nonempty(a, '\n');
    text::lemma_pieces_nonempty(b, '\n');
    let p = text::pieces(a, '\n');
    let q = text::pieces(b, '\n');
    assert(p.last() =~= seq![]);
    let all = p.drop_last() + q;
    assert(all.last() == q.last());
    assert(all.drop_last() =~= p.drop_last() + q.drop_last());
    assert(text::lines(a + b) =~= text::lines(a) + text::lines(b));
}

proof fn lemma_one_piece(s: Seq<char>)
    requires
        within_line(s),
    ensures
        text::pieces(s, '\n') == seq![s],
    decreases s.len(),
{
    if s.len() > 0 {
        let init = s.drop_last();
        assert forall|i: int| 0 <= i < init.len() implies (#[trigger] init[i]) != '\n' && init[i]
            != '\r' by {
            assert(init[i] == s[i]);
        }
        lemma_one_piece(init);
        assert(s.last() == s[s.len() - 1]);
        assert(init.push(s.last()) =~= s);
        assert(seq![init].update(0, s) =~= seq![s]);
    } else {
        assert(s =~= seq![]);
    }
}

proof fn lemma_one_line(s: Seq<char>)
    requires
        within_line(s),
    ensures
        text::lines(s + "\n"@) == seq![s],
        whole(s + "\n"@),
{
    reveal_strlit("\n");
    let t = s + "\n"@;
    lemma_one_piece(s);
    assert(t.drop_last() =~= s);
    assert(text::pieces(t, '\n') =~= seq![s, Seq::<char>::empty()]);
    assert(text::pieces(t, '\n').drop_last() =~= seq![s]);
    if s.len() > 0 {
        assert(s.last() == s[s.len() - 1]);
    }
    assert(text::lines(t) =~= seq![s]);
}

proof fn lemma_series(name: Seq<char>, rest: Seq<char>)
    requires
        is_name(name),
        rest.len() > 0,
        rest[0] == ' ' || rest[0] == '{',
    ensures
        series_of(name + rest) == name,
    decreases name.len(),
{
    let s = name + rest;
    if name.len() == 0 {
        assert(s =~= rest);
        assert(name =~= seq![]);
    } else {
        let tail = name.drop_first();
        assert(s[0] == name[0]);
        assert(s.drop_first() =~= tail + rest);
        assert forall|i: int| 0 <= i < tail.len() implies (#[trigger] tail[i]) != ' ' && tail[i]
            != '{' && tail[i] != '\n' && tail[i] != '\r' by {
            assert(tail[i] == name[i + 1]);
        }
        lemma_series(tail, rest);
        assert(seq![name[0]] + tail =~= name);
    }
}

proof fn lemma_join_lines(a: Seq<char>, b: Seq<char>)
    requires
        within_line(a),
        within_line(b),
    ensures
        within_line(a + b),
{
    let s = a + b;
    assert forall|i: int| 0 <= i < s.len() implies (#[trigger] s[i]) != '\n' && s[i] != '\r' by {
        if i < a.len() {
            assert(s[i] == a[i]);
        } else {
            assert(s[i] == b[i - a.len()]);
        }
    }
}

/// A text whose lines are those of two ended texts.
proof fn lemma_union(a: Seq<char>, x: Set<Seq<char>>, b: Seq<char>, y: Set<Seq<char>>)
    requires
        shows(a, x),
        shows(b, y),
    ensures
        shows(a + b, x.union(y)),
{
    lemma_lines_append(a, b);
    let p = text::lines(a);
    let q = text::lines(b);
    let all = text::lines(a + b);
    if b.len() > 0 {
        assert((a + b).last() == b.last());
    } else {
        assert(a + b =~= a);
    }
    assert forall|name: Seq<char>| #[trigger] has_series(a + b, name) <==> x.union(y).contains(
        name,
    ) by {
        assert(has_series(a, name) <==> x.contains(name));
        assert(has_series(b, name) <==> y.contains(name));
        if has_series(a + b, name) {
            let i = choose|i: int| 0 <= i < all.len() && #[trigger] series_of(all[i]) == name;
            if i < p.len() {
                assert(series_of(p[i]) == name);
            } else {
                assert(series_of(q[i - p.len()]) == name);
            }
        }
        if has_series(a, name) {
            let i = choose|i: int| 0 <= i < p.len() && #[trigger] series_of(p[i]) == name;
            assert(series_of(all[i]) == name);
        }
        if has_series(b, name) {
            let i = choose|i: int| 0 <= i < q.len() && #[trigger] series_of(q[i]) == name;
            assert(series_of(all[i + p.len()]) == name);
        }
    }
}

proof fn lemma_reads_on(a: Seq<char>, b: Seq<char>, name: Seq<char>, line: Seq<char>)
    requires
        whole(a),
        reads(a, name, line),
        reads(b, name, line),
    ensures
        reads(a + b, name, line),
{
    lemma_lines_append(a, b);
    let p = text::lines(a);
    let q = text::lines(b);
    let all = text::lines(a + b);
    assert forall|i: int|
        0 <= i < all.len() && #[trigger] series_of(all[i]) == name implies all[i] == line by {
        if i < p.len() {
            assert(series_of(p[i]) == name);
        } else {
            assert(series_of(q[i - p.len()]) == name);
        }
    }
}

proof fn lemma_reads_none(s: Seq<char>, names: Set<Seq<char>>, name: Seq<char>, line: Seq<char>)
    requires
        shows(s, names),
        !names.contains(name),
    ensures
        reads(s, name, line),
{
    assert(!has_series(s, name));
}

/// A line shows its series and reads as it is.
proof fn lemma_line(name: Seq<char>, rest: Seq<char>)
    requires
        is_name(name),
        within_line(rest),
        rest.len() > 0,
        rest[0] == ' ' || rest[0] == '{',
    ensures
        shows(name + rest + "\n"@, set![name]),
        forall|other: Seq<char>| #[trigger]
            reads(name + rest + "\n"@, name, other) <==> other == name + rest,
{
    lemma_series(name, rest);
    lemma_join_lines(name, rest);
    lemma_one_line(name + rest);
    let t = name + rest + "\n"@;
    assert(text::lines(t)[0] == name + rest);
    assert(series_of(text::lines(t)[0]) == name);
    assert forall|x: Seq<char>| #[trigger] has_series(t, x) <==> set![name].contains(x) by {
        if x == name {
            assert(series_of(text::lines(t)[0]) == x);
        }
    }
    assert forall|other: Seq<char>| #[trigger] reads(t, name, other) <==> other == name + rest by {
        assert(series_of(text::lines(t)[0]) == name);
    }
}

proof fn lemma_heading(name: Seq<char>, help: Seq<char>, kind: Seq<char>)
    requires
        within_line(name),
        within_line(help),
        within_line(kind),
    ensures
        shows(metrics::heading(name, help, kind), set!["#"@]),
{
    reveal_strlit("# HELP ");
    reveal_strlit("# TYPE ");
    reveal_strlit(" ");
    reveal_strlit("#");
    let h = seq![' ', 'H', 'E', 'L', 'P', ' '];
    let t = seq![' ', 'T', 'Y', 'P', 'E', ' '];
    assert("# HELP "@ =~= "#"@ + h);
    assert("# TYPE "@ =~= "#"@ + t);
    let first = h + name + " "@ + help;
    let second = t + name + " "@ + kind;
    lemma_join_lines(h, name);
    lemma_join_lines(h + name, " "@);
    lemma_join_lines(h + name + " "@, help);
    lemma_join_lines(t, name);
    lemma_join_lines(t + name, " "@);
    lemma_join_lines(t + name + " "@, kind);
    assert(first[0] == ' ' && second[0] == ' ');
    lemma_line("#"@, first);
    lemma_line("#"@, second);
    let a = "#"@ + first + "\n"@;
    let b = "#"@ + second + "\n"@;
    lemma_union(a, set!["#"@], b, set!["#"@]);
    assert(set!["#"@].union(set!["#"@]) =~= set!["#"@]);
    assert(metrics::heading(name, help, kind) =~= a + b);
}

proof fn lemma_sample(name: Seq<char>, value: Seq<char>)
    requires
        is_name(name),
        within_line(value),
    ensures
        shows(metrics::sample(name, value), set![name]),
        reads(metrics::sample(name, value), name, name + " "@ + value),
{
    reveal_strlit(" ");
    let rest = " "@ + value;
    lemma_join_lines(" "@, value);
    lemma_line(name, rest);
    assert(metrics::sample(name, value) =~= name + rest + "\n"@);
    assert(name + " "@ + value =~= name + rest);
}

proof fn lemma_labelled(
    name: Seq<char>,
    label: Seq<char>,
    which: Seq<char>,
    value: Seq<char>,
)
    requires
        is_name(name),
        within_line(label),
        within_line(which),
        within_line(value),
    ensures
        shows(metrics::labelled(name, label, which, value), set![name]),
{
    reveal_strlit("{");
    reveal_strlit("=\"");
    reveal_strlit("\"} ");
    lemma_join_lines("{"@, label);
    lemma_join_lines("{"@ + label, "=\""@);
    lemma_join_lines("{"@ + label + "=\""@, which);
    lemma_join_lines("{"@ + label + "=\""@ + which, "\"} "@);
    lemma_join_lines("{"@ + label + "=\""@ + which + "\"} "@, value);
    let rest = "{"@ + label + "=\""@ + which + "\"} "@ + value;
    assert(rest[0] == '{');
    lemma_line(name, rest);
    assert(metrics::labelled(name, label, which, value) =~= name + rest + "\n"@);
}

proof fn lemma_metric(name: Seq<char>, help: Seq<char>, kind: Seq<char>, value: Seq<char>)
    requires
        is_name(name),
        name.len() > 1,
        within_line(help),
        within_line(kind),
        within_line(value),
    ensures
        shows(metrics::metric(name, help, kind, value), set!["#"@, name]),
        reads(metrics::metric(name, help, kind, value), name, name + " "@ + value),
{
    lemma_heading(name, help, kind);
    lemma_sample(name, value);
    let a = metrics::heading(name, help, kind);
    let b = metrics::sample(name, value);
    lemma_union(a, set!["#"@], b, set![name]);
    assert(set!["#"@].union(set![name]) =~= set!["#"@, name]);
    assert("#"@ != name) by {
        reveal_strlit("#");
    }
    lemma_reads_none(a, set!["#"@], name, name + " "@ + value);
    lemma_reads_on(a, b, name, name + " "@ + value);
}

// ---------------------------------------------------------------- values

proof fn lemma_numeral(s: Seq<char>)
    requires
        double::all_numeral(s),
    ensures
        within_line(s),
{
    assert(!double::is_numeral('\n') && !double::is_numeral('\r'));
}

proof fn lemma_decimal(n: nat)
    ensures
        within_line(text::decimal(n)),
{
    double::lemma_decimal_numeral(n);
    lemma_numeral(text::decimal(n));
}

proof fn lemma_number(n: Number, places: nat)
    ensures
        within_line(double::fixed(n, places)),
        within_line(double::shortest(n)),
{
    double::lemma_number_numeral(n, places);
    lemma_numeral(double::fixed(n, places));
    lemma_numeral(double::shortest(n));
}

proof fn lemma_flag(b: bool)
    ensures
        within_line(metrics::flag(b)),
{
    reveal_strlit("1");
    reveal_strlit("0");
}

proof fn lemma_balance_value(pins: Seq<Pin>)
    ensures
        metrics::balance_value(pins) matches Some(b) ==> within_line(b),
{
    reveal_strlit("+Inf");
    match decode::balance(pins) {
        Some(r) => {
            lemma_number(r, 0);
        },
        None => {},
    }
}

proof fn lemma_condition_id(c: lifecycle::Condition)
    ensures
        within_line(lifecycle::condition_id(c)),
{
    reveal_strlit("overload");
    reveal_strlit("disconnected");
    reveal_strlit("imbalance");
    reveal_strlit("telemetry_lost");
}

proof fn lemma_nothing()
    ensures
        shows(Seq::<char>::empty(), Set::empty()),
{
    let s = Seq::<char>::empty();
    assert(text::pieces(s, '\n') =~= seq![Seq::<char>::empty()]);
    assert(text::lines(s) =~= seq![]);
    assert forall|name: Seq<char>| #[trigger] has_series(s, name) <==> Set::<
        Seq<char>,
    >::empty().contains(name) by {
    }
}

proof fn lemma_volts(pins: Seq<Pin>, n: nat)
    ensures
        shows(
            metrics::volt_samples(pins, n),
            if n == 0 {
                set![]
            } else {
                set!["astral_watch_pin_volts"@]
            },
        ),
    decreases n,
{
    let name = "astral_watch_pin_volts"@;
    reveal_strlit("astral_watch_pin_volts");
    reveal_strlit("pin");
    let s = metrics::volt_samples(pins, n);
    if n == 0 {
        lemma_nothing();
    } else {
        let before = metrics::volt_samples(pins, (n - 1) as nat);
        let had: Set<Seq<char>> = if n == 1 {
            set![]
        } else {
            set![name]
        };
        lemma_volts(pins, (n - 1) as nat);
        lemma_decimal(n);
        lemma_number(double::thousandths(pins[n - 1].millivolts as nat), 0);
        let last = metrics::labelled(name, "pin"@, text::decimal(n), double::shortest(double::thousandths(pins[n - 1].millivolts as nat)));
        lemma_labelled(name, "pin"@, text::decimal(n), double::shortest(double::thousandths(pins[n - 1].millivolts as nat)));
        lemma_union(before, had, last, set![name]);
        assert(had.union(set![name]) =~= set![name]);
    }
}

proof fn lemma_amps(pins: Seq<Pin>, n: nat)
    ensures
        shows(
            metrics::amp_samples(pins, n),
            if n == 0 {
                set![]
            } else {
                set!["astral_watch_pin_amps"@]
            },
        ),
    decreases n,
{
    let name = "astral_watch_pin_amps"@;
    reveal_strlit("astral_watch_pin_amps");
    reveal_strlit("pin");
    let s = metrics::amp_samples(pins, n);
    if n == 0 {
        lemma_nothing();
    } else {
        let before = metrics::amp_samples(pins, (n - 1) as nat);
        let had: Set<Seq<char>> = if n == 1 {
            set![]
        } else {
            set![name]
        };
        lemma_amps(pins, (n - 1) as nat);
        lemma_decimal(n);
        lemma_number(double::thousandths(pins[n - 1].milliamps as nat), 0);
        let last = metrics::labelled(name, "pin"@, text::decimal(n), double::shortest(double::thousandths(pins[n - 1].milliamps as nat)));
        lemma_labelled(name, "pin"@, text::decimal(n), double::shortest(double::thousandths(pins[n - 1].milliamps as nat)));
        lemma_union(before, had, last, set![name]);
        assert(had.union(set![name]) =~= set![name]);
    }
}

proof fn lemma_active(m: Snapshot, n: nat)
    ensures
        shows(
            metrics::active_samples(m, n),
            if n == 0 {
                set![]
            } else {
                set!["astral_watch_alert_active"@]
            },
        ),
    decreases n,
{
    let name = "astral_watch_alert_active"@;
    reveal_strlit("astral_watch_alert_active");
    reveal_strlit("condition");
    let s = metrics::active_samples(m, n);
    if n == 0 {
        lemma_nothing();
    } else {
        let before = metrics::active_samples(m, (n - 1) as nat);
        let had: Set<Seq<char>> = if n == 1 {
            set![]
        } else {
            set![name]
        };
        lemma_active(m, (n - 1) as nat);
        lemma_condition_id(lifecycle::condition_at(n - 1));
        lemma_flag(m.active[n - 1]);
        let last = metrics::labelled(name, "condition"@, lifecycle::condition_id(lifecycle::condition_at(n - 1)), metrics::flag(m.active[n - 1]));
        lemma_labelled(name, "condition"@, lifecycle::condition_id(lifecycle::condition_at(n - 1)), metrics::flag(m.active[n - 1]));
        lemma_union(before, had, last, set![name]);
        assert(had.union(set![name]) =~= set![name]);
    }
}

proof fn lemma_raised(m: Snapshot, n: nat)
    ensures
        shows(
            metrics::raised_samples(m, n),
            if n == 0 {
                set![]
            } else {
                set!["astral_watch_alerts_raised_total"@]
            },
        ),
    decreases n,
{
    let name = "astral_watch_alerts_raised_total"@;
    reveal_strlit("astral_watch_alerts_raised_total");
    reveal_strlit("condition");
    let s = metrics::raised_samples(m, n);
    if n == 0 {
        lemma_nothing();
    } else {
        let before = metrics::raised_samples(m, (n - 1) as nat);
        let had: Set<Seq<char>> = if n == 1 {
            set![]
        } else {
            set![name]
        };
        lemma_raised(m, (n - 1) as nat);
        lemma_condition_id(lifecycle::condition_at(n - 1));
        lemma_decimal(m.raised_total[n - 1] as nat);
        let last = metrics::labelled(name, "condition"@, lifecycle::condition_id(lifecycle::condition_at(n - 1)), text::decimal(m.raised_total[n - 1] as nat));
        lemma_labelled(name, "condition"@, lifecycle::condition_id(lifecycle::condition_at(n - 1)), text::decimal(m.raised_total[n - 1] as nat));
        lemma_union(before, had, last, set![name]);
        assert(had.union(set![name]) =~= set![name]);
    }
}

/// A heading and the samples of one series under it.
proof fn lemma_headed(name: Seq<char>, help: Seq<char>, kind: Seq<char>, samples: Seq<char>)
    requires
        within_line(name),
        within_line(help),
        within_line(kind),
        shows(samples, set![name]),
    ensures
        shows(metrics::heading(name, help, kind) + samples, set!["#"@, name]),
{
    lemma_heading(name, help, kind);
    lemma_union(metrics::heading(name, help, kind), set!["#"@], samples, set![name]);
    assert(set!["#"@].union(set![name]) =~= set!["#"@, name]);
}

proof fn lemma_volts_part(pins: Seq<Pin>)
    ensures
        shows(metrics::volts_part(pins), set!["#"@, "astral_watch_pin_volts"@]),
{
    reveal_strlit("astral_watch_pin_volts");
    reveal_strlit("Per-pin voltage of the 12V-2x6 connector (last reading).");
    reveal_strlit("gauge");
    lemma_volts(pins, 6);
    lemma_headed(
        "astral_watch_pin_volts"@,
        "Per-pin voltage of the 12V-2x6 connector (last reading)."@,
        "gauge"@,
        metrics::volt_samples(pins, 6),
    );
}

proof fn lemma_amps_part(pins: Seq<Pin>)
    ensures
        shows(metrics::amps_part(pins), set!["#"@, "astral_watch_pin_amps"@]),
{
    reveal_strlit("astral_watch_pin_amps");
    reveal_strlit("Per-pin current of the 12V-2x6 connector (last reading).");
    reveal_strlit("gauge");
    lemma_amps(pins, 6);
    lemma_headed(
        "astral_watch_pin_amps"@,
        "Per-pin current of the 12V-2x6 connector (last reading)."@,
        "gauge"@,
        metrics::amp_samples(pins, 6),
    );
}

proof fn lemma_total_amps(pins: Seq<Pin>)
    ensures
        shows(metrics::total_amps_part(pins), set!["#"@, "astral_watch_total_amps"@]),
{
    reveal_strlit("astral_watch_total_amps");
    reveal_strlit("Sum of per-pin current.");
    reveal_strlit("gauge");
    lemma_number(decode::total_amps(pins), 0);
    lemma_metric(
        "astral_watch_total_amps"@,
        "Sum of per-pin current."@,
        "gauge"@,
        double::shortest(decode::total_amps(pins)),
    );
}

proof fn lemma_total_watts(pins: Seq<Pin>)
    ensures
        shows(metrics::total_watts_part(pins), set!["#"@, "astral_watch_total_watts"@]),
{
    reveal_strlit("astral_watch_total_watts");
    reveal_strlit("Sum of per-pin power.");
    reveal_strlit("gauge");
    lemma_number(decode::total_watts(pins), 0);
    lemma_metric(
        "astral_watch_total_watts"@,
        "Sum of per-pin power."@,
        "gauge"@,
        double::shortest(decode::total_watts(pins)),
    );
}

proof fn lemma_age(now: Instant, at: Instant)
    ensures
        shows(metrics::age_part(now, at), set!["#"@, "astral_watch_last_reading_age_seconds"@]),
{
    reveal_strlit("astral_watch_last_reading_age_seconds");
    reveal_strlit("Seconds since the last plausible reading.");
    reveal_strlit("gauge");
    lemma_number(clock::seconds(clock::elapsed(now, at)), 3);
    lemma_metric(
        "astral_watch_last_reading_age_seconds"@,
        "Seconds since the last plausible reading."@,
        "gauge"@,
        metrics::age_text(now, at),
    );
}

proof fn lemma_up(m: Snapshot)
    ensures
        shows(metrics::up_part(m), set!["#"@, "astral_watch_up"@]),
{
    reveal_strlit("astral_watch_up");
    reveal_strlit("1 when the most recent sample produced a plausible reading.");
    reveal_strlit("gauge");
    lemma_flag(m.last_sample_ok);
    lemma_metric(
        "astral_watch_up"@,
        "1 when the most recent sample produced a plausible reading."@,
        "gauge"@,
        metrics::flag(m.last_sample_ok),
    );
}

proof fn lemma_active_part(m: Snapshot)
    ensures
        shows(metrics::active_part(m), set!["#"@, "astral_watch_alert_active"@]),
{
    reveal_strlit("astral_watch_alert_active");
    reveal_strlit("1 while the debounced alert lifecycle holds this condition raised.");
    reveal_strlit("gauge");
    lemma_active(m, 4);
    lemma_headed(
        "astral_watch_alert_active"@,
        "1 while the debounced alert lifecycle holds this condition raised."@,
        "gauge"@,
        metrics::active_samples(m, 4),
    );
}

proof fn lemma_raised_part(m: Snapshot)
    ensures
        shows(metrics::raised_part(m), set!["#"@, "astral_watch_alerts_raised_total"@]),
{
    reveal_strlit("astral_watch_alerts_raised_total");
    reveal_strlit("Debounced alerts raised since start, by condition.");
    reveal_strlit("counter");
    lemma_raised(m, 4);
    lemma_headed(
        "astral_watch_alerts_raised_total"@,
        "Debounced alerts raised since start, by condition."@,
        "counter"@,
        metrics::raised_samples(m, 4),
    );
}

proof fn lemma_samples(m: Snapshot)
    ensures
        shows(metrics::samples_part(m), set!["#"@, "astral_watch_samples_total"@]),
{
    reveal_strlit("astral_watch_samples_total");
    reveal_strlit("Samples attempted since start.");
    reveal_strlit("counter");
    lemma_decimal(m.samples_total as nat);
    lemma_metric(
        "astral_watch_samples_total"@,
        "Samples attempted since start."@,
        "counter"@,
        text::decimal(m.samples_total as nat),
    );
}

proof fn lemma_failures(m: Snapshot)
    ensures
        shows(metrics::failures_part(m), set!["#"@, "astral_watch_read_failures_total"@]),
{
    reveal_strlit("astral_watch_read_failures_total");
    reveal_strlit("Samples whose i2c read failed.");
    reveal_strlit("counter");
    lemma_decimal(m.read_failures_total as nat);
    lemma_metric(
        "astral_watch_read_failures_total"@,
        "Samples whose i2c read failed."@,
        "counter"@,
        text::decimal(m.read_failures_total as nat),
    );
}

proof fn lemma_implausible(m: Snapshot)
    ensures
        shows(metrics::implausible_part(m), set!["#"@, "astral_watch_implausible_readings_total"@]),
{
    reveal_strlit("astral_watch_implausible_readings_total");
    reveal_strlit("Samples that decoded to implausible data.");
    reveal_strlit("counter");
    lemma_decimal(m.implausible_total as nat);
    lemma_metric(
        "astral_watch_implausible_readings_total"@,
        "Samples that decoded to implausible data."@,
        "counter"@,
        text::decimal(m.implausible_total as nat),
    );
}

proof fn lemma_build()
    ensures
        shows(metrics::build_part(), set!["#"@, "astral_watch_build_info"@]),
{
    reveal_strlit("astral_watch_build_info");
    reveal_strlit("Build metadata.");
    reveal_strlit("gauge");
    reveal_strlit("version");
    reveal_strlit("0.5.0");
    reveal_strlit("1");
    lemma_labelled("astral_watch_build_info"@, "version"@, VERSION@, "1"@);
    lemma_headed(
        "astral_watch_build_info"@,
        "Build metadata."@,
        "gauge"@,
        metrics::labelled("astral_watch_build_info"@, "version"@, VERSION@, "1"@),
    );
}

/// The series of the balance part.
spec fn balance_names(pins: Seq<Pin>) -> Set<Seq<char>> {
    if metrics::balance_value(pins) is Some {
        set!["#"@, balance_series()]
    } else {
        set![]
    }
}

proof fn lemma_balance(pins: Seq<Pin>)
    ensures
        shows(metrics::balance_part(pins), balance_names(pins)),
        metrics::balance_value(pins) matches Some(b) ==> reads(
            metrics::balance_part(pins),
            balance_series(),
            balance_series() + " "@ + b,
        ),
{
    reveal_strlit("astral_watch_balance_ratio");
    reveal_strlit("Highest/lowest per-pin current ratio (+Inf when a pin reads ~0 A under load; absent when idle).");
    reveal_strlit("gauge");
    lemma_balance_value(pins);
    match metrics::balance_value(pins) {
        Some(b) => {
            lemma_metric(
                balance_series(),
                "Highest/lowest per-pin current ratio (+Inf when a pin reads ~0 A under load; absent when idle)."@,
                "gauge"@,
                b,
            );
        },
        None => {
            lemma_nothing();
        },
    }
}

/// The series of the reading part.
spec fn reading_names(pins: Seq<Pin>) -> Set<Seq<char>> {
    if metrics::balance_value(pins) is Some {
        reading_series().insert("#"@).insert(balance_series())
    } else {
        reading_series().insert("#"@)
    }
}

proof fn lemma_reading_part(pins: Seq<Pin>, now: Instant, at: Instant)
    ensures
        shows(metrics::reading_part(pins, now, at), reading_names(pins)),
        metrics::balance_value(pins) matches Some(b) ==> reads(
            metrics::reading_part(pins, now, at),
            balance_series(),
            balance_series() + " "@ + b,
        ),
{
    lemma_volts_part(pins);
    let t0 = metrics::volts_part(pins);
    let x0 = set!["#"@, "astral_watch_pin_volts"@];
    lemma_amps_part(pins);
    let t1 = t0 + metrics::amps_part(pins);
    let x1 = x0.union(set!["#"@, "astral_watch_pin_amps"@]);
    lemma_union(t0, x0, metrics::amps_part(pins), set!["#"@, "astral_watch_pin_amps"@]);
    lemma_total_amps(pins);
    let t2 = t1 + metrics::total_amps_part(pins);
    let x2 = x1.union(set!["#"@, "astral_watch_total_amps"@]);
    lemma_union(t1, x1, metrics::total_amps_part(pins), set!["#"@, "astral_watch_total_amps"@]);
    lemma_total_watts(pins);
    let t3 = t2 + metrics::total_watts_part(pins);
    let x3 = x2.union(set!["#"@, "astral_watch_total_watts"@]);
    lemma_union(t2, x2, metrics::total_watts_part(pins), set!["#"@, "astral_watch_total_watts"@]);
    lemma_balance(pins);
    let t4 = t3 + metrics::balance_part(pins);
    let x4 = x3.union(balance_names(pins));
    lemma_union(t3, x3, metrics::balance_part(pins), balance_names(pins));
    lemma_age(now, at);
    let t5 = t4 + metrics::age_part(now, at);
    let x5 = x4.union(set!["#"@, "astral_watch_last_reading_age_seconds"@]);
    lemma_union(t4, x4, metrics::age_part(now, at), set!["#"@, "astral_watch_last_reading_age_seconds"@]);
    assert(x5 =~= reading_names(pins));
    if let Some(b) = metrics::balance_value(pins) {
        let line = balance_series() + " "@ + b;
        lemma_names_are_apart();
        lemma_reads_none(t3, x3, balance_series(), line);
        lemma_reads_on(t3, metrics::balance_part(pins), balance_series(), line);
        lemma_reads_none(
            metrics::age_part(now, at),
            set!["#"@, "astral_watch_last_reading_age_seconds"@],
            balance_series(),
            line,
        );
        lemma_reads_on(t4, metrics::age_part(now, at), balance_series(), line);
    }
}

proof fn lemma_standing_part(m: Snapshot)
    ensures
        shows(metrics::standing_part(m), standing_series().insert("#"@)),
{
    lemma_up(m);
    let t0 = metrics::up_part(m);
    let x0 = set!["#"@, "astral_watch_up"@];
    lemma_active_part(m);
    let t1 = t0 + metrics::active_part(m);
    let x1 = x0.union(set!["#"@, "astral_watch_alert_active"@]);
    lemma_union(t0, x0, metrics::active_part(m), set!["#"@, "astral_watch_alert_active"@]);
    lemma_raised_part(m);
    let t2 = t1 + metrics::raised_part(m);
    let x2 = x1.union(set!["#"@, "astral_watch_alerts_raised_total"@]);
    lemma_union(t1, x1, metrics::raised_part(m), set!["#"@, "astral_watch_alerts_raised_total"@]);
    lemma_samples(m);
    let t3 = t2 + metrics::samples_part(m);
    let x3 = x2.union(set!["#"@, "astral_watch_samples_total"@]);
    lemma_union(t2, x2, metrics::samples_part(m), set!["#"@, "astral_watch_samples_total"@]);
    lemma_failures(m);
    let t4 = t3 + metrics::failures_part(m);
    let x4 = x3.union(set!["#"@, "astral_watch_read_failures_total"@]);
    lemma_union(t3, x3, metrics::failures_part(m), set!["#"@, "astral_watch_read_failures_total"@]);
    lemma_implausible(m);
    let t5 = t4 + metrics::implausible_part(m);
    let x5 = x4.union(set!["#"@, "astral_watch_implausible_readings_total"@]);
    lemma_union(t4, x4, metrics::implausible_part(m), set!["#"@, "astral_watch_implausible_readings_total"@]);
    lemma_build();
    let t6 = t5 + metrics::build_part();
    let x6 = x5.union(set!["#"@, "astral_watch_build_info"@]);
    lemma_union(t5, x5, metrics::build_part(), set!["#"@, "astral_watch_build_info"@]);
    assert(x6 =~= standing_series().insert("#"@));
}

/// The names differ: none is `#`, and the balance, what a reading gives and what is always there
/// have nothing in common.
proof fn lemma_names_are_apart()
    ensures
        balance_series() != "#"@,
        !reading_series().contains(balance_series()),
        !standing_series().contains(balance_series()),
        forall|name: Seq<char>| #[trigger]
            reading_series().contains(name) ==> !standing_series().contains(name) && name != "#"@,
        forall|name: Seq<char>| #[trigger] standing_series().contains(name) ==> name != "#"@,
{
    assert("#"@.len() == 1) by {
        reveal_strlit("#");
    }
    assert("astral_watch_balance_ratio"@.len() > 14 && "astral_watch_balance_ratio"@[13] == 'b' && "astral_watch_balance_ratio"@[14] == 'a') by {
        reveal_strlit("astral_watch_balance_ratio");
    }
    assert("astral_watch_pin_volts"@.len() > 14 && "astral_watch_pin_volts"@[13] == 'p' && "astral_watch_pin_volts"@[14] == 'i') by {
        reveal_strlit("astral_watch_pin_volts");
    }
    assert("astral_watch_pin_amps"@.len() > 14 && "astral_watch_pin_amps"@[13] == 'p' && "astral_watch_pin_amps"@[14] == 'i') by {
        reveal_strlit("astral_watch_pin_amps");
    }
    assert("astral_watch_total_amps"@.len() > 14 && "astral_watch_total_amps"@[13] == 't' && "astral_watch_total_amps"@[14] == 'o') by {
        reveal_strlit("astral_watch_total_amps");
    }
    assert("astral_watch_total_watts"@.len() > 14 && "astral_watch_total_watts"@[13] == 't' && "astral_watch_total_watts"@[14] == 'o') by {
        reveal_strlit("astral_watch_total_watts");
    }
    assert("astral_watch_last_reading_age_seconds"@.len() > 14 && "astral_watch_last_reading_age_seconds"@[13] == 'l' && "astral_watch_last_reading_age_seconds"@[14] == 'a') by {
        reveal_strlit("astral_watch_last_reading_age_seconds");
    }
    assert("astral_watch_up"@.len() > 14 && "astral_watch_up"@[13] == 'u' && "astral_watch_up"@[14] == 'p') by {
        reveal_strlit("astral_watch_up");
    }
    assert("astral_watch_alert_active"@.len() > 14 && "astral_watch_alert_active"@[13] == 'a' && "astral_watch_alert_active"@[14] == 'l') by {
        reveal_strlit("astral_watch_alert_active");
    }
    assert("astral_watch_alerts_raised_total"@.len() > 14 && "astral_watch_alerts_raised_total"@[13] == 'a' && "astral_watch_alerts_raised_total"@[14] == 'l') by {
        reveal_strlit("astral_watch_alerts_raised_total");
    }
    assert("astral_watch_samples_total"@.len() > 14 && "astral_watch_samples_total"@[13] == 's' && "astral_watch_samples_total"@[14] == 'a') by {
        reveal_strlit("astral_watch_samples_total");
    }
    assert("astral_watch_read_failures_total"@.len() > 14 && "astral_watch_read_failures_total"@[13] == 'r' && "astral_watch_read_failures_total"@[14] == 'e') by {
        reveal_strlit("astral_watch_read_failures_total");
    }
    assert("astral_watch_implausible_readings_total"@.len() > 14 && "astral_watch_implausible_readings_total"@[13] == 'i' && "astral_watch_implausible_readings_total"@[14] == 'm') by {
        reveal_strlit("astral_watch_implausible_readings_total");
    }
    assert("astral_watch_build_info"@.len() > 14 && "astral_watch_build_info"@[13] == 'b' && "astral_watch_build_info"@[14] == 'u') by {
        reveal_strlit("astral_watch_build_info");
    }
}

// ---------------------------------------------------------------- laws

/// A scrape shows exactly these series: the flags, the counters and the build always; the pins,
/// the totals and the age exactly when a reading is kept; the balance exactly when that reading
/// has one to show.
pub proof fn law_series_of_the_exposition(m: Snapshot, now: Instant, name: Seq<char>)
    requires
        name != "#"@,
    ensures
        has_series(metrics::exposition(m, now), name) <==> series_shown(m).contains(name),
{
    lemma_standing_part(m);
    match m.reading {
        None => {
            assert(has_series(metrics::exposition(m, now), name) <==> standing_series().insert(
                "#"@,
            ).contains(name));
        },
        Some((r, at)) => {
            lemma_reading_part(r.pins@, now, at);
            lemma_union(
                metrics::reading_part(r.pins@, now, at),
                reading_names(r.pins@),
                metrics::standing_part(m),
                standing_series().insert("#"@),
            );
            assert(has_series(metrics::exposition(m, now), name) <==> reading_names(
                r.pins@,
            ).union(standing_series().insert("#"@)).contains(name));
        },
    }
}

/// The balance line is there exactly when a reading is kept that has a ratio or carries load: it
/// never vanishes at maximal imbalance, and an idle connector shows none. It reads the ratio, or
/// `+Inf` where there is none.
pub proof fn law_the_balance_line(m: Snapshot, now: Instant)
    ensures
        has_series(metrics::exposition(m, now), balance_series()) <==> m.reading is Some && (
        decode::balance((m.reading->0).0.pins@) is Some || double::less(double::thousandths(LOAD_MA as nat), decode::total_amps((m.reading->0).0.pins@))),
        reads(
            metrics::exposition(m, now),
            balance_series(),
            balance_series() + " "@ + (match decode::balance((m.reading->0).0.pins@) {
                Some(b) => double::shortest(b),
                None => "+Inf"@,
            }),
        ),
{
    lemma_names_are_apart();
    law_series_of_the_exposition(m, now, balance_series());
    lemma_standing_part(m);
    let line = balance_series() + " "@ + (match decode::balance((m.reading->0).0.pins@) {
        Some(b) => double::shortest(b),
        None => "+Inf"@,
    });
    lemma_reads_none(
        metrics::standing_part(m),
        standing_series().insert("#"@),
        balance_series(),
        line,
    );
    match m.reading {
        None => {},
        Some((r, at)) => {
            let part = metrics::reading_part(r.pins@, now, at);
            lemma_reading_part(r.pins@, now, at);
            if metrics::balance_value(r.pins@) is None {
                lemma_reads_none(part, reading_names(r.pins@), balance_series(), line);
            }
            lemma_reads_on(part, metrics::standing_part(m), balance_series(), line);
        },
    }
}

/// After any run of samples and events a scrape shows the pins, the totals and the age exactly
/// when one of the samples was plausible, and the balance of the last one that was exactly when
/// that one has a ratio or carries load. The other series are always there.
pub proof fn law_a_scrape_shows_the_last_good_reading(
    m: Snapshot,
    told: Seq<Told>,
    now: Instant,
    name: Seq<char>,
)
    requires
        m.reading is None,
    ensures
        ({
            let out = metrics::exposition(after_all(m, told), now);
            &&& standing_series().contains(name) ==> has_series(out, name)
            &&& reading_series().contains(name) ==> (has_series(out, name) <==> last_good(
                told,
            ) is Some)
            &&& has_series(out, balance_series()) <==> last_good(told) is Some && (decode::balance(
                (last_good(told)->0).0.pins@,
            ) is Some || double::less(
                double::thousandths(LOAD_MA as nat),
                decode::total_amps((last_good(told)->0).0.pins@),
            ))
        }),
{
    let then = after_all(m, told);
    law_the_last_good_reading_is_kept(m, told);
    law_the_balance_line(then, now);
    lemma_names_are_apart();
    if standing_series().contains(name) || reading_series().contains(name) {
        law_series_of_the_exposition(then, now, name);
    }
}

// ---------------------------------------------------------------- what each series reads

/// Those of some lines that belong to a series.
#[verifier::opaque]
pub open spec fn only(lines: Seq<Seq<char>>, name: Seq<char>) -> Seq<Seq<char>>
    decreases lines.len(),
{
    if lines.len() == 0 {
        seq![]
    } else if series_of(lines.last()) == name {
        only(lines.drop_last(), name).push(lines.last())
    } else {
        only(lines.drop_last(), name)
    }
}

/// The lines of a text that belong to a series, in order.
#[verifier::opaque]
pub open spec fn lines_of(s: Seq<char>, name: Seq<char>) -> Seq<Seq<char>> {
    only(text::lines(s), name)
}

proof fn lemma_only_append(a: Seq<Seq<char>>, b: Seq<Seq<char>>, name: Seq<char>)
    ensures
        only(a + b, name) == only(a, name) + only(b, name),
    decreases b.len(),
{
    reveal(only);
    if b.len() == 0 {
        assert(a + b =~= a);
        assert(only(a, name) + only(b, name) =~= only(a, name));
    } else {
        assert((a + b).drop_last() =~= a + b.drop_last());
        assert((a + b).last() == b.last());
        lemma_only_append(a, b.drop_last(), name);
        assert(only(a + b, name) =~= only(a, name) + only(b, name));
    }
}

proof fn lemma_only_none(lines: Seq<Seq<char>>, name: Seq<char>)
    requires
        forall|i: int| 0 <= i < lines.len() ==> #[trigger] series_of(lines[i]) != name,
    ensures
        only(lines, name) == Seq::<Seq<char>>::empty(),
    decreases lines.len(),
{
    reveal(only);
    if lines.len() > 0 {
        let front = lines.drop_last();
        assert forall|i: int| 0 <= i < front.len() implies #[trigger] series_of(front[i])
            != name by {
            assert(series_of(lines[i]) != name);
        }
        lemma_only_none(front, name);
        assert(series_of(lines[lines.len() - 1]) != name);
    }
}

proof fn lemma_lines_none(s: Seq<char>, names: Set<Seq<char>>, name: Seq<char>)
    requires
        shows(s, names),
        !names.contains(name),
    ensures
        lines_of(s, name) == Seq::<Seq<char>>::empty(),
{
    reveal(lines_of);
    assert(!has_series(s, name));
    lemma_only_none(text::lines(s), name);
}

proof fn lemma_lines_on(a: Seq<char>, b: Seq<char>, name: Seq<char>)
    requires
        whole(a),
    ensures
        lines_of(a + b, name) == lines_of(a, name) + lines_of(b, name),
{
    reveal(lines_of);
    lemma_lines_append(a, b);
    lemma_only_append(text::lines(a), text::lines(b), name);
}

/// Some texts, one after the other.
spec fn together(parts: Seq<Seq<char>>) -> Seq<char>
    decreases parts.len(),
{
    if parts.len() == 0 {
        seq![]
    } else {
        together(parts.drop_last()) + parts.last()
    }
}

proof fn lemma_together_whole(parts: Seq<Seq<char>>)
    requires
        forall|i: int| 0 <= i < parts.len() ==> whole(#[trigger] parts[i]),
    ensures
        whole(together(parts)),
    decreases parts.len(),
{
    if parts.len() > 0 {
        let front = parts.drop_last();
        assert forall|i: int| 0 <= i < front.len() implies whole(#[trigger] front[i]) by {
            assert(whole(parts[i]));
        }
        lemma_together_whole(front);
        let last = parts[parts.len() - 1];
        assert(whole(last));
        if last.len() > 0 {
            assert(together(parts).last() == last.last());
        } else {
            assert(together(parts) =~= together(front));
        }
    }
}

/// The lines of a series that only one of the parts shows are those of that part.
proof fn lemma_lines_of_part(
    parts: Seq<Seq<char>>,
    names: Seq<Set<Seq<char>>>,
    k: int,
    name: Seq<char>,
)
    requires
        parts.len() == names.len(),
        forall|i: int| 0 <= i < parts.len() ==> shows(#[trigger] parts[i], names[i]),
        forall|i: int|
            0 <= i < parts.len() && i != k ==> !(#[trigger] names[i]).contains(name),
    ensures
        lines_of(together(parts), name) == (if 0 <= k < parts.len() {
            lines_of(parts[k], name)
        } else {
            Seq::<Seq<char>>::empty()
        }),
    decreases parts.len(),
{
    if parts.len() == 0 {
        lemma_nothing();
        assert(!Set::<Seq<char>>::empty().contains(name));
        lemma_lines_none(seq![], Set::empty(), name);
    } else {
        let n = parts.len() - 1;
        let front = parts.drop_last();
        let rest = names.drop_last();
        assert forall|i: int| 0 <= i < front.len() implies shows(
            #[trigger] front[i],
            rest[i],
        ) by {
            assert(shows(parts[i], names[i]));
        }
        assert forall|i: int| 0 <= i < front.len() && i != k implies !(
        #[trigger] rest[i]).contains(name) by {
            assert(!names[i].contains(name));
        }
        assert forall|i: int| 0 <= i < front.len() implies whole(#[trigger] front[i]) by {
            assert(shows(parts[i], names[i]));
        }
        lemma_lines_of_part(front, rest, k, name);
        lemma_together_whole(front);
        lemma_lines_on(together(front), parts[n], name);
        if k != n {
            assert(shows(parts[n], names[n]) && !names[n].contains(name));
            lemma_lines_none(parts[n], names[n], name);
            assert(lines_of(together(parts), name) =~= lines_of(together(front), name));
        } else {
            assert(lines_of(together(parts), name) =~= lines_of(parts[n], name));
        }
    }
}

proof fn lemma_one_labelled(
    name: Seq<char>,
    label: Seq<char>,
    which: Seq<char>,
    value: Seq<char>,
)
    requires
        is_name(name),
        within_line(label),
        within_line(which),
        within_line(value),
    ensures
        lines_of(metrics::labelled(name, label, which, value), name) == seq![
            name + seq!['{'] + label + seq!['=', '"'] + which + seq!['"', '}', ' '] + value,
        ],
{
    reveal_strlit("{");
    reveal_strlit("=\"");
    reveal_strlit("\"} ");
    lemma_join_lines("{"@, label);
    lemma_join_lines("{"@ + label, "=\""@);
    lemma_join_lines("{"@ + label + "=\""@, which);
    lemma_join_lines("{"@ + label + "=\""@ + which, "\"} "@);
    lemma_join_lines("{"@ + label + "=\""@ + which + "\"} "@, value);
    let rest = "{"@ + label + "=\""@ + which + "\"} "@ + value;
    assert(rest[0] == '{');
    lemma_series(name, rest);
    lemma_join_lines(name, rest);
    lemma_one_line(name + rest);
    let t = metrics::labelled(name, label, which, value);
    assert(t =~= name + rest + "\n"@);
    let line = name + seq!['{'] + label + seq!['=', '"'] + which + seq!['"', '}', ' '] + value;
    assert(line =~= name + rest);
    let all = text::lines(t);
    assert(all.last() == line);
    reveal(only);
    reveal(lines_of);
    assert(only(all.drop_last(), name) =~= seq![]);
    assert(lines_of(t, name) =~= seq![line]);
}

proof fn lemma_one_sample(name: Seq<char>, help: Seq<char>, kind: Seq<char>, value: Seq<char>)
    requires
        is_name(name),
        name.len() > 1,
        within_line(help),
        within_line(kind),
        within_line(value),
    ensures
        lines_of(metrics::metric(name, help, kind, value), name) == seq![name + seq![' '] + value],
{
    reveal_strlit(" ");
    reveal_strlit("#");
    lemma_heading(name, help, kind);
    let a = metrics::heading(name, help, kind);
    let b = metrics::sample(name, value);
    lemma_lines_none(a, set!["#"@], name);
    lemma_lines_on(a, b, name);
    let rest = " "@ + value;
    lemma_join_lines(" "@, value);
    lemma_series(name, rest);
    lemma_join_lines(name, rest);
    lemma_one_line(name + rest);
    assert(b =~= name + rest + "\n"@);
    let line = name + seq![' '] + value;
    assert(line =~= name + rest);
    let all = text::lines(b);
    assert(all.last() == line);
    reveal(only);
    reveal(lines_of);
    assert(only(all.drop_last(), name) =~= seq![]);
    assert(lines_of(b, name) =~= seq![line]);
    assert(lines_of(a + b, name) =~= seq![line]);
}

/// A line with a label.
pub open spec fn labelled_line(
    name: Seq<char>,
    label: Seq<char>,
    which: Seq<char>,
    value: Seq<char>,
) -> Seq<char> {
    name + seq!['{'] + label + seq!['=', '"'] + which + seq!['"', '}', ' '] + value
}

/// The voltage lines of the first `n` pins: the number of the pin, and its own voltage.
pub open spec fn volt_lines(pins: Seq<Pin>, n: nat) -> Seq<Seq<char>> {
    Seq::new(
        n,
        |i: int|
            labelled_line(
                "astral_watch_pin_volts"@,
                "pin"@,
                text::decimal((i + 1) as nat),
                double::shortest(double::thousandths(pins[i].millivolts as nat)),
            ),
    )
}

/// The current lines of the first `n` pins: the number of the pin, and its own current.
pub open spec fn amp_lines(pins: Seq<Pin>, n: nat) -> Seq<Seq<char>> {
    Seq::new(
        n,
        |i: int|
            labelled_line(
                "astral_watch_pin_amps"@,
                "pin"@,
                text::decimal((i + 1) as nat),
                double::shortest(double::thousandths(pins[i].milliamps as nat)),
            ),
    )
}

/// What a condition is called in a scrape.
pub open spec fn label_of(i: int) -> Seq<char> {
    if i == 0 {
        "overload"@
    } else if i == 1 {
        "disconnected"@
    } else if i == 2 {
        "imbalance"@
    } else {
        "telemetry_lost"@
    }
}

/// How a flag reads: `1` for up, `0` for not.
pub open spec fn digit_of(up: bool) -> Seq<char> {
    if up {
        seq!['1']
    } else {
        seq!['0']
    }
}

/// The flag lines of the first `n` conditions: the name of the condition, and its own flag.
pub open spec fn flag_lines(m: Snapshot, n: nat) -> Seq<Seq<char>> {
    Seq::new(
        n,
        |i: int|
            labelled_line(
                "astral_watch_alert_active"@,
                "condition"@,
                label_of(i),
                digit_of(m.active[i]),
            ),
    )
}

/// The counter lines of the first `n` conditions: the name of the condition, and its own counter.
pub open spec fn counter_lines(m: Snapshot, n: nat) -> Seq<Seq<char>> {
    Seq::new(
        n,
        |i: int|
            labelled_line(
                "astral_watch_alerts_raised_total"@,
                "condition"@,
                label_of(i),
                text::decimal(m.raised_total[i] as nat),
            ),
    )
}

proof fn lemma_volt_lines(pins: Seq<Pin>, n: nat)
    ensures
        lines_of(metrics::volt_samples(pins, n), "astral_watch_pin_volts"@) == volt_lines(pins, n),
    decreases n,
{
    let name = "astral_watch_pin_volts"@;
    if n == 0 {
        lemma_nothing();
        lemma_lines_none(seq![], Set::empty(), name);
        assert(volt_lines(pins, 0) =~= Seq::<Seq<char>>::empty());
    } else {
        let before = (n - 1) as nat;
        let which = text::decimal(n);
        let value = double::shortest(double::thousandths(pins[n - 1].millivolts as nat));
        lemma_volt_lines(pins, before);
        lemma_volts(pins, before);
        reveal_strlit("astral_watch_pin_volts");
        reveal_strlit("pin");
        lemma_decimal(n);
        lemma_number(double::thousandths(pins[n - 1].millivolts as nat), 0);
        lemma_one_labelled(name, "pin"@, which, value);
        lemma_lines_on(
            metrics::volt_samples(pins, before),
            metrics::labelled(name, "pin"@, which, value),
            name,
        );
        assert(volt_lines(pins, n) =~= volt_lines(pins, before).push(
            labelled_line(name, "pin"@, which, value),
        ));
        assert(lines_of(metrics::volt_samples(pins, n), name) =~= volt_lines(pins, n));
    }
}

proof fn lemma_amp_lines(pins: Seq<Pin>, n: nat)
    ensures
        lines_of(metrics::amp_samples(pins, n), "astral_watch_pin_amps"@) == amp_lines(pins, n),
    decreases n,
{
    let name = "astral_watch_pin_amps"@;
    if n == 0 {
        lemma_nothing();
        lemma_lines_none(seq![], Set::empty(), name);
        assert(amp_lines(pins, 0) =~= Seq::<Seq<char>>::empty());
    } else {
        let before = (n - 1) as nat;
        let which = text::decimal(n);
        let value = double::shortest(double::thousandths(pins[n - 1].milliamps as nat));
        lemma_amp_lines(pins, before);
        lemma_amps(pins, before);
        reveal_strlit("astral_watch_pin_amps");
        reveal_strlit("pin");
        lemma_decimal(n);
        lemma_number(double::thousandths(pins[n - 1].milliamps as nat), 0);
        lemma_one_labelled(name, "pin"@, which, value);
        lemma_lines_on(
            metrics::amp_samples(pins, before),
            metrics::labelled(name, "pin"@, which, value),
            name,
        );
        assert(amp_lines(pins, n) =~= amp_lines(pins, before).push(
            labelled_line(name, "pin"@, which, value),
        ));
        assert(lines_of(metrics::amp_samples(pins, n), name) =~= amp_lines(pins, n));
    }
}

proof fn lemma_flag_lines(m: Snapshot, n: nat)
    requires
        n <= 4,
    ensures
        lines_of(metrics::active_samples(m, n), "astral_watch_alert_active"@) == flag_lines(m, n),
    decreases n,
{
    let name = "astral_watch_alert_active"@;
    if n == 0 {
        lemma_nothing();
        lemma_lines_none(seq![], Set::empty(), name);
        assert(flag_lines(m, 0) =~= Seq::<Seq<char>>::empty());
    } else {
        let before = (n - 1) as nat;
        let which = lifecycle::condition_id(lifecycle::condition_at(n - 1));
        let value = metrics::flag(m.active[n - 1]);
        lemma_flag_lines(m, before);
        lemma_active(m, before);
        reveal_strlit("astral_watch_alert_active");
        reveal_strlit("condition");
        lemma_condition_id(lifecycle::condition_at(n - 1));
        lemma_flag(m.active[n - 1]);
        lemma_one_labelled(name, "condition"@, which, value);
        lemma_lines_on(
            metrics::active_samples(m, before),
            metrics::labelled(name, "condition"@, which, value),
            name,
        );
        reveal_strlit("1");
        reveal_strlit("0");
        assert(value =~= digit_of(m.active[n - 1]));
        assert(flag_lines(m, n) =~= flag_lines(m, before).push(
            labelled_line(name, "condition"@, which, value),
        ));
        assert(lines_of(metrics::active_samples(m, n), name) =~= flag_lines(m, n));
    }
}

proof fn lemma_counter_lines(m: Snapshot, n: nat)
    requires
        n <= 4,
    ensures
        lines_of(metrics::raised_samples(m, n), "astral_watch_alerts_raised_total"@) == counter_lines(m, n),
    decreases n,
{
    let name = "astral_watch_alerts_raised_total"@;
    if n == 0 {
        lemma_nothing();
        lemma_lines_none(seq![], Set::empty(), name);
        assert(counter_lines(m, 0) =~= Seq::<Seq<char>>::empty());
    } else {
        let before = (n - 1) as nat;
        let which = lifecycle::condition_id(lifecycle::condition_at(n - 1));
        let value = text::decimal(m.raised_total[n - 1] as nat);
        lemma_counter_lines(m, before);
        lemma_raised(m, before);
        reveal_strlit("astral_watch_alerts_raised_total");
        reveal_strlit("condition");
        lemma_condition_id(lifecycle::condition_at(n - 1));
        lemma_decimal(m.raised_total[n - 1] as nat);
        lemma_one_labelled(name, "condition"@, which, value);
        lemma_lines_on(
            metrics::raised_samples(m, before),
            metrics::labelled(name, "condition"@, which, value),
            name,
        );
        assert(counter_lines(m, n) =~= counter_lines(m, before).push(
            labelled_line(name, "condition"@, which, value),
        ));
        assert(lines_of(metrics::raised_samples(m, n), name) =~= counter_lines(m, n));
    }
}

/// The parts of the exposition.
#[verifier::opaque]
spec fn parts_of(m: Snapshot, now: Instant) -> Seq<Seq<char>> {
    let (r, at) = m.reading->0;
    seq![
        metrics::volts_part(r.pins@),
        metrics::amps_part(r.pins@),
        metrics::total_amps_part(r.pins@),
        metrics::total_watts_part(r.pins@),
        metrics::balance_part(r.pins@),
        metrics::age_part(now, at),
    ] + standing_parts(m)
}

#[verifier::opaque]
spec fn standing_parts(m: Snapshot) -> Seq<Seq<char>> {
    seq![
        metrics::up_part(m),
        metrics::active_part(m),
        metrics::raised_part(m),
        metrics::samples_part(m),
        metrics::failures_part(m),
        metrics::implausible_part(m),
        metrics::build_part(),
    ]
}

/// The series of the parts.
#[verifier::opaque]
spec fn names_of(m: Snapshot) -> Seq<Set<Seq<char>>> {
    let (r, at) = m.reading->0;
    seq![
        set!["#"@, "astral_watch_pin_volts"@],
        set!["#"@, "astral_watch_pin_amps"@],
        set!["#"@, "astral_watch_total_amps"@],
        set!["#"@, "astral_watch_total_watts"@],
        balance_names(r.pins@),
        set!["#"@, "astral_watch_last_reading_age_seconds"@],
    ] + standing_names()
}

#[verifier::opaque]
spec fn standing_names() -> Seq<Set<Seq<char>>> {
    seq![
        set!["#"@, "astral_watch_up"@],
        set!["#"@, "astral_watch_alert_active"@],
        set!["#"@, "astral_watch_alerts_raised_total"@],
        set!["#"@, "astral_watch_samples_total"@],
        set!["#"@, "astral_watch_read_failures_total"@],
        set!["#"@, "astral_watch_implausible_readings_total"@],
        set!["#"@, "astral_watch_build_info"@],
    ]
}

proof fn lemma_standing_parts(m: Snapshot)
    ensures
        together(standing_parts(m)) == metrics::standing_part(m),
        standing_parts(m).len() == standing_names().len(),
        forall|i: int|
            0 <= i < standing_parts(m).len() ==> shows(
                #[trigger] standing_parts(m)[i],
                standing_names()[i],
            ),
{
    reveal(standing_parts);
    reveal(standing_names);
    lemma_up(m);
    lemma_active_part(m);
    lemma_raised_part(m);
    lemma_samples(m);
    lemma_failures(m);
    lemma_implausible(m);
    lemma_build();
    let p = standing_parts(m);
    lemma_together_step(p, 7);
    lemma_together_step(p, 6);
    lemma_together_step(p, 5);
    lemma_together_step(p, 4);
    lemma_together_step(p, 3);
    lemma_together_step(p, 2);
    lemma_together_step(p, 1);
    assert(p.take(7) =~= p);
    assert(together(p.take(0)) =~= seq![]);
    assert(together(p.take(1)) =~= p[0]);
}

proof fn lemma_together_step(p: Seq<Seq<char>>, n: int)
    requires
        1 <= n <= p.len(),
    ensures
        together(p.take(n)) == together(p.take(n - 1)) + p[n - 1],
{
    assert(p.take(n).drop_last() =~= p.take(n - 1));
    assert(p.take(n).last() == p[n - 1]);
}

#[verifier::rlimit(40)]
proof fn lemma_parts(m: Snapshot, now: Instant)
    requires
        m.reading is Some,
    ensures
        together(parts_of(m, now)) == metrics::exposition(m, now),
        parts_of(m, now).len() == names_of(m).len(),
        forall|i: int|
            0 <= i < parts_of(m, now).len() ==> shows(
                #[trigger] parts_of(m, now)[i],
                names_of(m)[i],
            ),
{
    reveal(parts_of);
    reveal(names_of);
    let (r, at) = m.reading->0;
    let p = parts_of(m, now);
    let s = standing_parts(m);
    lemma_standing_parts(m);
    assert(s.len() == 7) by {
        reveal(standing_parts);
    }
    lemma_volts_part(r.pins@);
    lemma_amps_part(r.pins@);
    lemma_total_amps(r.pins@);
    lemma_total_watts(r.pins@);
    lemma_balance(r.pins@);
    lemma_age(now, at);
    assert forall|i: int| 0 <= i < p.len() implies shows(#[trigger] p[i], names_of(m)[i]) by {
        if i >= 6 {
            assert(p[i] == s[i - 6]);
            assert(names_of(m)[i] == standing_names()[i - 6]);
        }
    }
    lemma_together_step(p, 6);
    lemma_together_step(p, 5);
    lemma_together_step(p, 4);
    lemma_together_step(p, 3);
    lemma_together_step(p, 2);
    lemma_together_step(p, 1);
    assert(together(p.take(0)) =~= seq![]);
    assert(together(p.take(1)) =~= p[0]);
    let head = metrics::reading_part(r.pins@, now, at);
    assert(together(p.take(6)) =~= head);
    lemma_together_on(p, s, 7);
    assert(p.take(13) =~= p);
    assert(s.take(7) =~= s);
}

proof fn lemma_together_on(p: Seq<Seq<char>>, s: Seq<Seq<char>>, n: int)
    requires
        0 <= n <= s.len(),
        p.len() == 6 + s.len(),
        forall|i: int| 0 <= i < s.len() ==> p[i + 6] == #[trigger] s[i],
    ensures
        together(p.take(6 + n)) == together(p.take(6)) + together(s.take(n)),
    decreases n,
{
    if n == 0 {
        assert(together(s.take(0)) =~= seq![]);
        assert(together(p.take(6)) + together(s.take(0)) =~= together(p.take(6)));
    } else {
        lemma_together_on(p, s, n - 1);
        lemma_together_step(p, 6 + n);
        lemma_together_step(s, n);
        assert(p[n - 1 + 6] == s[n - 1]);
        assert(together(p.take(6)) + together(s.take(n - 1)) + s[n - 1] =~= together(p.take(6)) + (
        together(s.take(n - 1)) + s[n - 1]));
    }
}

/// The series of the parts, in their order.
#[verifier::opaque]
spec fn titles() -> Seq<Seq<char>> {
    seq![
        "astral_watch_pin_volts"@,
        "astral_watch_pin_amps"@,
        "astral_watch_total_amps"@,
        "astral_watch_total_watts"@,
        "astral_watch_balance_ratio"@,
        "astral_watch_last_reading_age_seconds"@,
        "astral_watch_up"@,
        "astral_watch_alert_active"@,
        "astral_watch_alerts_raised_total"@,
        "astral_watch_samples_total"@,
        "astral_watch_read_failures_total"@,
        "astral_watch_implausible_readings_total"@,
        "astral_watch_build_info"@,
    ]
}

/// What tells the titles apart: their length and a letter.
spec fn mark(s: Seq<char>) -> int {
    1000 * s.len() + s[13] as int
}

spec fn marks() -> Seq<int> {
    seq![
        22112,
        21112,
        23116,
        24116,
        26098,
        37108,
        15117,
        25097,
        32097,
        26115,
        32114,
        39105,
        23098,
    ]
}

proof fn lemma_titles_differ(i: int, j: int)
    requires
        0 <= i < 13,
        0 <= j < 13,
    ensures
        titles()[i] != "#"@,
        titles()[i].len() > 1,
        i != j ==> titles()[i] != titles()[j],
{
    lemma_mark(i);
    lemma_mark(j);
    reveal_strlit("#");
}

proof fn lemma_mark(i: int)
    requires
        0 <= i < 13,
    ensures
        mark(titles()[i]) == marks()[i],
        titles()[i].len() > 14,
        is_name(titles()[i]),
{
    reveal(titles);
    if i == 0 {
        reveal_strlit("astral_watch_pin_volts");
    }
    if i == 1 {
        reveal_strlit("astral_watch_pin_amps");
    }
    if i == 2 {
        reveal_strlit("astral_watch_total_amps");
    }
    if i == 3 {
        reveal_strlit("astral_watch_total_watts");
    }
    if i == 4 {
        reveal_strlit("astral_watch_balance_ratio");
    }
    if i == 5 {
        reveal_strlit("astral_watch_last_reading_age_seconds");
    }
    if i == 6 {
        reveal_strlit("astral_watch_up");
    }
    if i == 7 {
        reveal_strlit("astral_watch_alert_active");
    }
    if i == 8 {
        reveal_strlit("astral_watch_alerts_raised_total");
    }
    if i == 9 {
        reveal_strlit("astral_watch_samples_total");
    }
    if i == 10 {
        reveal_strlit("astral_watch_read_failures_total");
    }
    if i == 11 {
        reveal_strlit("astral_watch_implausible_readings_total");
    }
    if i == 12 {
        reveal_strlit("astral_watch_build_info");
    }
}

/// The lines of a series are those of its own part.
proof fn lemma_own_part(m: Snapshot, now: Instant, k: int)
    requires
        0 <= k < 13,
        m.reading is Some || k >= 6,
    ensures
        lines_of(metrics::exposition(m, now), titles()[k]) == (if m.reading is Some {
            lines_of(parts_of(m, now)[k], titles()[k])
        } else {
            lines_of(standing_parts(m)[k - 6], titles()[k])
        }),
{
    let name = titles()[k];
    lemma_sizes(m, now);
    if m.reading is Some {
        lemma_parts(m, now);
        let x = names_of(m);
        assert forall|i: int| 0 <= i < x.len() && i != k implies !(#[trigger] x[i]).contains(
            name,
        ) by {
            lemma_titles_differ(i, k);
            lemma_titles_differ(k, i);
            lemma_name_of(m, i);
        }
        lemma_lines_of_part(parts_of(m, now), x, k, name);
    } else {
        lemma_standing_parts(m);
        let x = standing_names();
        assert forall|i: int| 0 <= i < x.len() && i != k - 6 implies !(#[trigger] x[i]).contains(
            name,
        ) by {
            lemma_titles_differ(i + 6, k);
            lemma_titles_differ(k, i + 6);
            lemma_standing_name_of(i);
        }
        lemma_lines_of_part(standing_parts(m), x, k - 6, name);
    }
}

proof fn lemma_sizes(m: Snapshot, now: Instant)
    ensures
        parts_of(m, now).len() == 13,
        names_of(m).len() == 13,
        standing_parts(m).len() == 7,
        standing_names().len() == 7,
{
    reveal(parts_of);
    reveal(names_of);
    reveal(standing_parts);
    reveal(standing_names);
}

/// Which part each title belongs to.
proof fn lemma_standing_picks(m: Snapshot)
    ensures
        standing_parts(m)[0] == metrics::up_part(m),
        standing_parts(m)[1] == metrics::active_part(m),
        standing_parts(m)[2] == metrics::raised_part(m),
        standing_parts(m)[3] == metrics::samples_part(m),
        standing_parts(m)[4] == metrics::failures_part(m),
        standing_parts(m)[5] == metrics::implausible_part(m),
        titles()[6] == "astral_watch_up"@,
        titles()[7] == "astral_watch_alert_active"@,
        titles()[8] == "astral_watch_alerts_raised_total"@,
        titles()[9] == "astral_watch_samples_total"@,
        titles()[10] == "astral_watch_read_failures_total"@,
        titles()[11] == "astral_watch_implausible_readings_total"@,
{
    reveal(standing_parts);
    reveal(titles);
}

proof fn lemma_picks(m: Snapshot, now: Instant)
    requires
        m.reading is Some,
    ensures
        parts_of(m, now)[0] == metrics::volts_part((m.reading->0).0.pins@),
        parts_of(m, now)[1] == metrics::amps_part((m.reading->0).0.pins@),
        parts_of(m, now)[2] == metrics::total_amps_part((m.reading->0).0.pins@),
        parts_of(m, now)[3] == metrics::total_watts_part((m.reading->0).0.pins@),
        parts_of(m, now)[5] == metrics::age_part(now, (m.reading->0).1),
        forall|k: int| 6 <= k < 13 ==> #[trigger] parts_of(m, now)[k] == standing_parts(m)[k - 6],
        titles()[0] == "astral_watch_pin_volts"@,
        titles()[1] == "astral_watch_pin_amps"@,
        titles()[2] == "astral_watch_total_amps"@,
        titles()[3] == "astral_watch_total_watts"@,
        titles()[5] == "astral_watch_last_reading_age_seconds"@,
{
    reveal(parts_of);
    reveal(titles);
    lemma_sizes(m, now);
}

proof fn lemma_standing_name_of(i: int)
    requires
        0 <= i < 7,
    ensures
        standing_names()[i] == set!["#"@, titles()[i + 6]],
{
    reveal(standing_names);
    reveal(titles);
}

proof fn lemma_name_of(m: Snapshot, i: int)
    requires
        0 <= i < 13,
    ensures
        names_of(m)[i].subset_of(set!["#"@, titles()[i]]),
{
    reveal(names_of);
    reveal(titles);
    assert(standing_names().len() == 7) by {
        reveal(standing_names);
    }
    if i >= 6 {
        lemma_standing_name_of(i - 6);
        assert(names_of(m)[i] == standing_names()[i - 6]);
    }
}

proof fn lemma_under_heading(name: Seq<char>, help: Seq<char>, kind: Seq<char>, samples: Seq<char>)
    requires
        name.len() > 1,
        within_line(name),
        within_line(help),
        within_line(kind),
    ensures
        lines_of(metrics::heading(name, help, kind) + samples, name) == lines_of(samples, name),
{
    reveal_strlit("#");
    lemma_heading(name, help, kind);
    let a = metrics::heading(name, help, kind);
    lemma_lines_none(a, set!["#"@], name);
    lemma_lines_on(a, samples, name);
    assert(lines_of(a + samples, name) =~= lines_of(samples, name));
}

proof fn lemma_volts_part_lines(pins: Seq<Pin>)
    ensures
        lines_of(metrics::volts_part(pins), "astral_watch_pin_volts"@) == volt_lines(pins, 6),
{
    lemma_volt_lines(pins, 6);
    reveal_strlit("astral_watch_pin_volts");
    reveal_strlit("Per-pin voltage of the 12V-2x6 connector (last reading).");
    reveal_strlit("gauge");
    lemma_under_heading(
        "astral_watch_pin_volts"@,
        "Per-pin voltage of the 12V-2x6 connector (last reading)."@,
        "gauge"@,
        metrics::volt_samples(pins, 6),
    );
}

proof fn lemma_amps_part_lines(pins: Seq<Pin>)
    ensures
        lines_of(metrics::amps_part(pins), "astral_watch_pin_amps"@) == amp_lines(pins, 6),
{
    lemma_amp_lines(pins, 6);
    reveal_strlit("astral_watch_pin_amps");
    reveal_strlit("Per-pin current of the 12V-2x6 connector (last reading).");
    reveal_strlit("gauge");
    lemma_under_heading(
        "astral_watch_pin_amps"@,
        "Per-pin current of the 12V-2x6 connector (last reading)."@,
        "gauge"@,
        metrics::amp_samples(pins, 6),
    );
}

proof fn lemma_flags_part_lines(m: Snapshot)
    ensures
        lines_of(metrics::active_part(m), "astral_watch_alert_active"@) == flag_lines(m, 4),
{
    lemma_flag_lines(m, 4);
    reveal_strlit("astral_watch_alert_active");
    reveal_strlit("1 while the debounced alert lifecycle holds this condition raised.");
    reveal_strlit("gauge");
    lemma_under_heading(
        "astral_watch_alert_active"@,
        "1 while the debounced alert lifecycle holds this condition raised."@,
        "gauge"@,
        metrics::active_samples(m, 4),
    );
}

proof fn lemma_counters_part_lines(m: Snapshot)
    ensures
        lines_of(metrics::raised_part(m), "astral_watch_alerts_raised_total"@) == counter_lines(m, 4),
{
    lemma_counter_lines(m, 4);
    reveal_strlit("astral_watch_alerts_raised_total");
    reveal_strlit("Debounced alerts raised since start, by condition.");
    reveal_strlit("counter");
    lemma_under_heading(
        "astral_watch_alerts_raised_total"@,
        "Debounced alerts raised since start, by condition."@,
        "counter"@,
        metrics::raised_samples(m, 4),
    );
}

proof fn lemma_total_amps_line(pins: Seq<Pin>)
    ensures
        lines_of(metrics::total_amps_part(pins), "astral_watch_total_amps"@) == seq![
            "astral_watch_total_amps"@ + seq![' '] + double::shortest(decode::total_amps(pins)),
        ],
{
    reveal_strlit("astral_watch_total_amps");
    reveal_strlit("Sum of per-pin current.");
    reveal_strlit("gauge");
    lemma_number(decode::total_amps(pins), 0);
    lemma_one_sample(
        "astral_watch_total_amps"@,
        "Sum of per-pin current."@,
        "gauge"@,
        double::shortest(decode::total_amps(pins)),
    );
}

proof fn lemma_total_watts_line(pins: Seq<Pin>)
    ensures
        lines_of(metrics::total_watts_part(pins), "astral_watch_total_watts"@) == seq![
            "astral_watch_total_watts"@ + seq![' '] + double::shortest(decode::total_watts(pins)),
        ],
{
    reveal_strlit("astral_watch_total_watts");
    reveal_strlit("Sum of per-pin power.");
    reveal_strlit("gauge");
    lemma_number(decode::total_watts(pins), 0);
    lemma_one_sample(
        "astral_watch_total_watts"@,
        "Sum of per-pin power."@,
        "gauge"@,
        double::shortest(decode::total_watts(pins)),
    );
}

proof fn lemma_age_line(now: Instant, at: Instant)
    ensures
        lines_of(metrics::age_part(now, at), "astral_watch_last_reading_age_seconds"@) == seq![
            "astral_watch_last_reading_age_seconds"@ + seq![' '] + double::fixed(clock::seconds(clock::elapsed(now, at)), 3),
        ],
{
    reveal_strlit("astral_watch_last_reading_age_seconds");
    reveal_strlit("Seconds since the last plausible reading.");
    reveal_strlit("gauge");
    lemma_number(clock::seconds(clock::elapsed(now, at)), 3);
    lemma_one_sample(
        "astral_watch_last_reading_age_seconds"@,
        "Seconds since the last plausible reading."@,
        "gauge"@,
        double::fixed(clock::seconds(clock::elapsed(now, at)), 3),
    );
}

proof fn lemma_up_line(m: Snapshot)
    ensures
        lines_of(metrics::up_part(m), "astral_watch_up"@) == seq![
            "astral_watch_up"@ + seq![' '] + metrics::flag(m.last_sample_ok),
        ],
{
    reveal_strlit("astral_watch_up");
    reveal_strlit("1 when the most recent sample produced a plausible reading.");
    reveal_strlit("gauge");
    lemma_flag(m.last_sample_ok);
    lemma_one_sample(
        "astral_watch_up"@,
        "1 when the most recent sample produced a plausible reading."@,
        "gauge"@,
        metrics::flag(m.last_sample_ok),
    );
}

proof fn lemma_samples_line(m: Snapshot)
    ensures
        lines_of(metrics::samples_part(m), "astral_watch_samples_total"@) == seq![
            "astral_watch_samples_total"@ + seq![' '] + text::decimal(m.samples_total as nat),
        ],
{
    reveal_strlit("astral_watch_samples_total");
    reveal_strlit("Samples attempted since start.");
    reveal_strlit("counter");
    lemma_decimal(m.samples_total as nat);
    lemma_one_sample(
        "astral_watch_samples_total"@,
        "Samples attempted since start."@,
        "counter"@,
        text::decimal(m.samples_total as nat),
    );
}

proof fn lemma_failures_line(m: Snapshot)
    ensures
        lines_of(metrics::failures_part(m), "astral_watch_read_failures_total"@) == seq![
            "astral_watch_read_failures_total"@ + seq![' '] + text::decimal(m.read_failures_total as nat),
        ],
{
    reveal_strlit("astral_watch_read_failures_total");
    reveal_strlit("Samples whose i2c read failed.");
    reveal_strlit("counter");
    lemma_decimal(m.read_failures_total as nat);
    lemma_one_sample(
        "astral_watch_read_failures_total"@,
        "Samples whose i2c read failed."@,
        "counter"@,
        text::decimal(m.read_failures_total as nat),
    );
}

proof fn lemma_implausible_line(m: Snapshot)
    ensures
        lines_of(metrics::implausible_part(m), "astral_watch_implausible_readings_total"@) == seq![
            "astral_watch_implausible_readings_total"@ + seq![' '] + text::decimal(m.implausible_total as nat),
        ],
{
    reveal_strlit("astral_watch_implausible_readings_total");
    reveal_strlit("Samples that decoded to implausible data.");
    reveal_strlit("counter");
    lemma_decimal(m.implausible_total as nat);
    lemma_one_sample(
        "astral_watch_implausible_readings_total"@,
        "Samples that decoded to implausible data."@,
        "counter"@,
        text::decimal(m.implausible_total as nat),
    );
}

/// A scrape with a reading has one voltage line for each pin, from the first to the sixth, each
/// labelled with its own number and reading its own voltage.
pub proof fn law_pins_read_their_own_voltage(m: Snapshot, now: Instant)
    requires
        m.reading is Some,
    ensures
        lines_of(metrics::exposition(m, now), "astral_watch_pin_volts"@) == volt_lines((m.reading->0).0.pins@, 6),
{
    lemma_own_part(m, now, 0);
    lemma_picks(m, now);
    lemma_volts_part_lines((m.reading->0).0.pins@);
}

/// A scrape with a reading has one current line for each pin, from the first to the sixth, each
/// labelled with its own number and reading its own current.
pub proof fn law_pins_read_their_own_current(m: Snapshot, now: Instant)
    requires
        m.reading is Some,
    ensures
        lines_of(metrics::exposition(m, now), "astral_watch_pin_amps"@) == amp_lines((m.reading->0).0.pins@, 6),
{
    lemma_own_part(m, now, 1);
    lemma_picks(m, now);
    lemma_amps_part_lines((m.reading->0).0.pins@);
}

/// A scrape with a reading has one line with its total current.
pub proof fn law_the_total_current_is_read(m: Snapshot, now: Instant)
    requires
        m.reading is Some,
    ensures
        lines_of(metrics::exposition(m, now), "astral_watch_total_amps"@) == seq![
            "astral_watch_total_amps"@ + seq![' '] + double::shortest(decode::total_amps((m.reading->0).0.pins@)),
        ],
{
    lemma_own_part(m, now, 2);
    lemma_picks(m, now);
    lemma_total_amps_line((m.reading->0).0.pins@);
}

/// A scrape with a reading has one line with its total power.
pub proof fn law_the_total_power_is_read(m: Snapshot, now: Instant)
    requires
        m.reading is Some,
    ensures
        lines_of(metrics::exposition(m, now), "astral_watch_total_watts"@) == seq![
            "astral_watch_total_watts"@ + seq![' '] + double::shortest(decode::total_watts((m.reading->0).0.pins@)),
        ],
{
    lemma_own_part(m, now, 3);
    lemma_picks(m, now);
    lemma_total_watts_line((m.reading->0).0.pins@);
}

/// A scrape with a reading has one line with its age in seconds, with three digits.
pub proof fn law_the_age_is_read(m: Snapshot, now: Instant)
    requires
        m.reading is Some,
    ensures
        lines_of(metrics::exposition(m, now), "astral_watch_last_reading_age_seconds"@) == seq![
            "astral_watch_last_reading_age_seconds"@ + seq![' '] + double::fixed(clock::seconds(clock::elapsed(now, (m.reading->0).1)), 3),
        ],
{
    lemma_own_part(m, now, 5);
    lemma_picks(m, now);
    lemma_age_line(now, (m.reading->0).1);
}

/// Every scrape has one flag line for each condition, labelled with its own name and reading its
/// own flag.
pub proof fn law_conditions_read_their_own_flag(m: Snapshot, now: Instant)
    ensures
        lines_of(metrics::exposition(m, now), "astral_watch_alert_active"@) == flag_lines(m, 4),
{
    lemma_own_part(m, now, 7);
    lemma_standing_picks(m);
    if m.reading is Some {
        lemma_picks(m, now);
    }
    lemma_flags_part_lines(m);
}

/// Every scrape has one counter line for each condition, labelled with its own name and reading
/// its own counter.
pub proof fn law_conditions_read_their_own_counter(m: Snapshot, now: Instant)
    ensures
        lines_of(metrics::exposition(m, now), "astral_watch_alerts_raised_total"@) == counter_lines(m, 4),
{
    lemma_own_part(m, now, 8);
    lemma_standing_picks(m);
    if m.reading is Some {
        lemma_picks(m, now);
    }
    lemma_counters_part_lines(m);
}

/// Every scrape has one line that reads `1` when the last sample was good and `0` when it was not.
pub proof fn law_the_last_sample_is_read(m: Snapshot, now: Instant)
    ensures
        lines_of(metrics::exposition(m, now), "astral_watch_up"@) == seq![
            "astral_watch_up"@ + seq![' '] + digit_of(m.last_sample_ok),
        ],
{
    lemma_own_part(m, now, 6);
    lemma_standing_picks(m);
    if m.reading is Some {
        lemma_picks(m, now);
    }
    lemma_up_line(m);
    reveal_strlit("1");
    reveal_strlit("0");
    assert(metrics::flag(m.last_sample_ok) =~= digit_of(m.last_sample_ok));
}

/// Every scrape has one line with the number of samples.
pub proof fn law_samples_are_read(m: Snapshot, now: Instant)
    ensures
        lines_of(metrics::exposition(m, now), "astral_watch_samples_total"@) == seq![
            "astral_watch_samples_total"@ + seq![' '] + text::decimal(m.samples_total as nat),
        ],
{
    lemma_own_part(m, now, 9);
    lemma_standing_picks(m);
    if m.reading is Some {
        lemma_picks(m, now);
    }
    lemma_samples_line(m);
}

/// Every scrape has one line with the number of failed reads.
pub proof fn law_failed_reads_are_read(m: Snapshot, now: Instant)
    ensures
        lines_of(metrics::exposition(m, now), "astral_watch_read_failures_total"@) == seq![
            "astral_watch_read_failures_total"@ + seq![' '] + text::decimal(m.read_failures_total as nat),
        ],
{
    lemma_own_part(m, now, 10);
    lemma_standing_picks(m);
    if m.reading is Some {
        lemma_picks(m, now);
    }
    lemma_failures_line(m);
}

/// Every scrape has one line with the number of implausible readings.
pub proof fn law_implausible_readings_are_read(m: Snapshot, now: Instant)
    ensures
        lines_of(metrics::exposition(m, now), "astral_watch_implausible_readings_total"@) == seq![
            "astral_watch_implausible_readings_total"@ + seq![' '] + text::decimal(m.implausible_total as nat),
        ],
{
    lemma_own_part(m, now, 11);
    lemma_standing_picks(m);
    if m.reading is Some {
        lemma_picks(m, now);
    }
    lemma_implausible_line(m);
}

proof fn lemma_balance_line(pins: Seq<Pin>)
    ensures
        lines_of(metrics::balance_part(pins), "astral_watch_balance_ratio"@) == match
            metrics::balance_value(pins) {
            Some(b) => seq!["astral_watch_balance_ratio"@ + seq![' '] + b],
            None => seq![],
        },
{
    reveal_strlit("astral_watch_balance_ratio");
    reveal_strlit("Highest/lowest per-pin current ratio (+Inf when a pin reads ~0 A under load; absent when idle).");
    reveal_strlit("gauge");
    lemma_balance_value(pins);
    match metrics::balance_value(pins) {
        Some(b) => {
            lemma_one_sample(
                "astral_watch_balance_ratio"@,
                "Highest/lowest per-pin current ratio (+Inf when a pin reads ~0 A under load; absent when idle)."@,
                "gauge"@,
                b,
            );
        },
        None => {
            lemma_no_lines("astral_watch_balance_ratio"@);
        },
    }
}

/// Nothing holds no line.
proof fn lemma_no_lines(name: Seq<char>)
    ensures
        lines_of(seq![], name) == Seq::<Seq<char>>::empty(),
{
    reveal(lines_of);
    reveal(only);
    let none = Seq::<char>::empty();
    let parts = text::pieces(none, '\n');
    assert(parts =~= seq![none]);
    assert(parts.last().len() == 0);
    assert(text::lines(none) =~= seq![]);
}

proof fn lemma_balance_pick(m: Snapshot, now: Instant)
    requires
        m.reading is Some,
    ensures
        parts_of(m, now)[4] == metrics::balance_part((m.reading->0).0.pins@),
        titles()[4] == "astral_watch_balance_ratio"@,
{
    reveal(parts_of);
    reveal(titles);
}

/// A reading has a ratio to show where it is one; above 5 A without one the ratio is beyond all
/// bounds; and idle there is none.
pub proof fn law_when_a_ratio_is_shown(pins: Seq<Pin>)
    ensures
        decode::balance(pins) matches Some(r) ==> metrics::balance_value(pins) == Some(
            double::shortest(r),
        ),
        decode::balance(pins) is None && double::less(
            double::thousandths(5_000),
            decode::total_amps(pins),
        ) ==> metrics::balance_value(pins) == Some("+Inf"@),
        decode::balance(pins) is None && !double::less(
            double::thousandths(5_000),
            decode::total_amps(pins),
        ) ==> metrics::balance_value(pins) is None,
{
}

/// A scrape with a reading has one line with the ratio it has to show, or none.
pub proof fn law_the_ratio_is_read(m: Snapshot, now: Instant)
    requires
        m.reading is Some,
    ensures
        lines_of(metrics::exposition(m, now), "astral_watch_balance_ratio"@) == match
            metrics::balance_value((m.reading->0).0.pins@) {
            Some(b) => seq!["astral_watch_balance_ratio"@ + seq![' '] + b],
            None => seq![],
        },
{
    lemma_own_part(m, now, 4);
    lemma_balance_pick(m, now);
    lemma_balance_line((m.reading->0).0.pins@);
}

} // verus!
