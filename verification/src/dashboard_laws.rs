//! What the dashboard keeps, shows and does: which cards it offers, what its log and history hold,
//! and what every key is for.

use crate::alert;
use crate::alert::Thresholds;
use crate::clock::{Duration, Instant};
use crate::dashboard;
use crate::dashboard::{
    BusAnswer, CardView, Command, HistoryView, Hue, Key, LogLineView, LogView, Outlook,
};
use crate::decode;
use crate::decode::{Pin, Reading};
use crate::double;
use crate::lifecycle;
use crate::lifecycle::{Condition, EventView};
use crate::smi::StatView;
use crate::text;
use vstd::prelude::*;

verus! {

// ---------------------------------------------------------------- cards

/// Whether a tab is that of the answer at `j`, the first plausible one of its card.
pub open spec fn is_tab_of(card: CardView, answers: Seq<BusAnswer>, j: int) -> bool {
    let a = answers[j];
    &&& a.plausible
    &&& card.bus == a.bus
    &&& a.pci matches Some(pci) ==> card.pci == pci@
    &&& a.pci is None ==> card.pci == "i2c-"@ + text::decimal(a.bus as nat)
    &&& a.model matches Some(model) ==> card.model == model@
    &&& a.model is None ==> card.model == "unknown SKU"@
    &&& forall|i: int|
        0 <= i < j && (#[trigger] answers[i]).plausible ==> dashboard::answer_pci(answers[i])
            != card.pci
}

/// Every plausible answer has a tab.
pub proof fn law_every_card_has_a_tab(answers: Seq<BusAnswer>, j: int) -> (k: int)
    requires
        0 <= j < answers.len(),
        answers[j].plausible,
    ensures
        0 <= k < dashboard::cards_among(answers).len(),
        dashboard::cards_among(answers)[k].pci == dashboard::answer_pci(answers[j]),
    decreases answers.len(),
{
    let front = answers.drop_last();
    let before = dashboard::cards_among(front);
    if j < front.len() {
        law_every_card_has_a_tab(front, j)
    } else if dashboard::has_pci(before, dashboard::answer_pci(answers[j])) {
        choose|k: int|
            0 <= k < before.len() && (#[trigger] before[k]).pci == dashboard::answer_pci(answers[j])
    } else {
        before.len() as int
    }
}

/// Every tab is that of the first bus of its card that answered plausibly.
pub proof fn law_every_tab_is_a_card(answers: Seq<BusAnswer>, k: int) -> (j: int)
    requires
        0 <= k < dashboard::cards_among(answers).len(),
    ensures
        0 <= j < answers.len(),
        is_tab_of(dashboard::cards_among(answers)[k], answers, j),
    decreases answers.len(),
{
    let front = answers.drop_last();
    let before = dashboard::cards_among(front);
    let n = answers.len() - 1;
    assert forall|i: int| 0 <= i < n implies #[trigger] answers[i] == front[i] by {}
    if k < before.len() {
        law_every_tab_is_a_card(front, k)
    } else {
        let a = answers.last();
        assert forall|i: int| 0 <= i < n && (#[trigger] answers[i]).plausible implies
            dashboard::answer_pci(answers[i]) != dashboard::answer_pci(a) by {
            let m = law_every_card_has_a_tab(front, i);
            assert(before[m].pci == dashboard::answer_pci(front[i]));
        }
        n
    }
}

/// The row shown for a card is the first of those that bear its id.
pub proof fn law_which_row_is_shown(stats: Seq<StatView>, want: Seq<char>)
    ensures
        match dashboard::first_stat(stats, want) {
            Some(g) => exists|i: int|
                0 <= i < stats.len() && #[trigger] stats[i] == g && g.pci == want && forall|j: int|
                    0 <= j < i ==> (#[trigger] stats[j]).pci != want,
            None => forall|i: int| 0 <= i < stats.len() ==> (#[trigger] stats[i]).pci != want,
        },
    decreases stats.len(),
{
    if stats.len() > 0 && stats[0].pci != want {
        let rest = stats.drop_first();
        law_which_row_is_shown(rest, want);
        match dashboard::first_stat(rest, want) {
            Some(g) => {
                let k = choose|i: int|
                    0 <= i < rest.len() && #[trigger] rest[i] == g && g.pci == want && forall|
                        j: int,
                    |
                        0 <= j < i ==> (#[trigger] rest[j]).pci != want;
                assert(stats[k + 1] == g);
                assert forall|j: int| 0 <= j < k + 1 implies (#[trigger] stats[j]).pci != want by {
                    if j > 0 {
                        assert(rest[j - 1].pci != want);
                    }
                }
            },
            None => {
                assert forall|i: int| 0 <= i < stats.len() implies (#[trigger] stats[i]).pci
                    != want by {
                    if i > 0 {
                        assert(rest[i - 1].pci != want);
                    }
                }
            },
        }
    }
}

// ---------------------------------------------------------------- the log

/// What is pushed stands last, behind the newest of what was there, as many as fit.
pub proof fn law_the_newest_are_kept<A>(s: Seq<A>, x: A, cap: nat, k: int)
    requires
        s.len() <= cap,
        cap > 0,
    ensures
        ({
            let p = dashboard::pushed(s, x, cap);
            &&& p.last() == x
            &&& p.len() == if s.len() < cap {
                s.len() + 1
            } else {
                cap
            }
            &&& 1 <= k < p.len() ==> p[p.len() - 1 - k] == s[s.len() - k]
        }),
{
}

/// The log keeps 200 lines. A view at the end stays there; one that is scrolled back stays on the
/// line it shows for as long as the log keeps that.
pub proof fn law_the_view_stays_on_its_line(l: LogView, line: LogLineView)
    requires
        l.lines.len() <= 200,
        0 <= l.scroll,
        l.scroll == 0 || l.scroll < l.lines.len(),
    ensures
        ({
            let m = dashboard::logged(l, line);
            &&& m.lines.last() == line
            &&& m.lines.len() == if l.lines.len() < 200 {
                l.lines.len() + 1
            } else {
                200
            }
            &&& l.scroll == 0 ==> m.scroll == 0
            &&& l.scroll > 0 && l.scroll + 1 < m.lines.len() ==> m.lines[m.lines.len() - 1
                - m.scroll] == l.lines[l.lines.len() - 1 - l.scroll] && m.scroll == l.scroll + 1
            &&& l.scroll > 0 && l.scroll + 1 >= m.lines.len() ==> m.scroll == m.lines.len() - 1
        }),
{
}

/// Scrolling goes as far as asked within the log, and leaves the lines alone.
pub proof fn law_scrolling_goes_as_far_as_asked(l: LogView, delta: int)
    requires
        0 <= l.scroll,
        l.scroll == 0 || l.scroll < l.lines.len(),
    ensures
        ({
            let m = dashboard::scrolled(l, delta);
            let oldest = if l.lines.len() == 0 {
                0
            } else {
                l.lines.len() - 1
            };
            &&& m.lines == l.lines
            &&& 0 <= l.scroll + delta <= oldest ==> m.scroll == l.scroll + delta
            &&& l.scroll + delta < 0 ==> m.scroll == 0
            &&& l.scroll + delta > oldest ==> m.scroll == oldest
        }),
{
}

/// The pane ends as many lines before the newest as the log is scrolled back, unless that would
/// leave it less than full.
pub proof fn law_the_pane_shows_what_was_scrolled_to(total: nat, scroll: int, rows: nat)
    requires
        0 <= scroll,
    ensures
        ({
            let (start, end) = dashboard::window_of(total, scroll, rows);
            &&& scroll + rows <= total ==> end == total - scroll && start == end - rows
            &&& scroll + rows > total && rows <= total ==> start == 0 && end == rows
            &&& rows > total ==> start == 0 && end == total
        }),
{
}

// ---------------------------------------------------------------- history

/// A reading goes to the history of each pin as its own current, and the 300 latest are kept; the
/// power goes to the history in whole watts.
pub proof fn law_each_pin_keeps_its_own_history(h: HistoryView, pins: Seq<Pin>, i: int, k: int)
    requires
        0 <= i < 6,
        h.pins[i].len() <= 300,
        h.watts.len() <= 300,
    ensures
        ({
            let n = dashboard::with_reading(h, pins);
            let kept = n.pins[i];
            &&& n.pins.len() == 6
            &&& kept.last() == pins[i].milliamps
            &&& kept.len() == if h.pins[i].len() < 300 {
                h.pins[i].len() + 1
            } else {
                300
            }
            &&& 1 <= k < kept.len() ==> kept[kept.len() - 1 - k] == h.pins[i][h.pins[i].len() - k]
            &&& n.watts.last() == double::truncated(
                decode::total_watts(pins),
                0xffff_ffff_ffff_ffff,
            ) as u64
            &&& n.watts.len() == if h.watts.len() < 300 {
                h.watts.len() + 1
            } else {
                300
            }
            &&& 1 <= k < n.watts.len() ==> n.watts[n.watts.len() - 1 - k]
                == h.watts[h.watts.len() - k]
        }),
{
    law_the_newest_are_kept(h.pins[i], pins[i].milliamps, 300, k);
    law_the_newest_are_kept(
        h.watts,
        double::truncated(decode::total_watts(pins), 0xffff_ffff_ffff_ffff) as u64,
        300,
        k,
    );
}

/// A peak is the old one or what was read now, whichever is higher, each pin for itself; a reading
/// without a ratio leaves that peak alone.
pub proof fn law_peaks_are_the_highest(h: HistoryView, pins: Seq<Pin>, i: int)
    requires
        0 <= i < 6,
    ensures
        ({
            let n = dashboard::with_reading(h, pins);
            &&& n.peaks.len() == 6
            &&& n.peaks[i] == if pins[i].milliamps > h.peaks[i] {
                pins[i].milliamps
            } else {
                h.peaks[i]
            }
            &&& n.peak_watts == if double::less(h.peak_watts, decode::total_watts(pins)) {
                decode::total_watts(pins)
            } else {
                h.peak_watts
            }
            &&& decode::balance(pins) is None ==> n.peak_balance == h.peak_balance
            &&& decode::balance(pins) matches Some(b) ==> n.peak_balance == if double::less(
                h.peak_balance,
                b,
            ) {
                b
            } else {
                h.peak_balance
            }
        }),
{
}

/// Resetting forgets the peaks and nothing else; a new card forgets everything.
pub proof fn law_what_is_forgotten(h: HistoryView, i: int)
    requires
        0 <= i < 6,
    ensures
        ({
            let n = dashboard::without_peaks(h);
            &&& n.pins == h.pins && n.watts == h.watts
            &&& n.peaks.len() == 6 && n.peaks[i] == 0
            &&& n.peak_watts == double::zero() && n.peak_balance == double::zero()
        }),
        ({
            let n = dashboard::no_history();
            &&& n.pins.len() == 6 && n.pins[i].len() == 0 && n.watts.len() == 0
            &&& n.peaks.len() == 6 && n.peaks[i] == 0
            &&& n.peak_watts == double::zero() && n.peak_balance == double::zero()
        }),
{
}

// ---------------------------------------------------------------- keys

/// Quitting works from anywhere; with the help open any other key closes it; `Esc` leaves a zoomed
/// panel first.
pub proof fn law_what_quits(key: Key, ctrl: bool, o: Outlook)
    ensures
        ({
            let c = dashboard::command_of(key, ctrl, o);
            let quits = key == Key::Char('q') || (key == Key::Char('c') && ctrl);
            &&& c == Command::Quit <==> quits || (key == Key::Esc && !o.show_help && o.focus is None)
            &&& c == Command::CloseHelp <==> o.show_help && !quits
            &&& c == Command::Unzoom <==> !o.show_help && ((key == Key::Esc && o.focus is Some)
                || key == Key::Char('0'))
        }),
{
}

/// What every other key does while the help is closed.
pub proof fn law_what_each_key_does(key: Key, ctrl: bool, o: Outlook)
    requires
        !o.show_help,
    ensures
        ({
            let c = dashboard::command_of(key, ctrl, o);
            &&& c == Command::TogglePause <==> key == Key::Char(' ')
            &&& c == Command::ResetPeaks <==> key == Key::Char('r')
            &&& c == Command::ShowHelp <==> key == Key::Char('?')
            &&& c == Command::Faster <==> key == Key::Char('+') || key == Key::Char('=')
            &&& c == Command::Slower <==> key == Key::Char('-') || key == Key::Char('_')
            &&& c is Zoom <==> (key matches Key::Char(d) && '1' <= d <= '5')
            &&& c matches Command::Zoom(p) ==> key matches Key::Char(d) && p == d as int - '1' as int
            &&& c == Command::NextCard <==> key == Key::Tab || key == Key::Right
            &&& c == Command::PreviousCard <==> key == Key::BackTab || key == Key::Left
            &&& c == Command::Scroll(1) <==> key == Key::Up
            &&& c == Command::Scroll(10) <==> key == Key::PageUp
            &&& c matches Command::Scroll(d) ==> d == 1 || d == 10 || d == -1 || d == -10
            &&& key == Key::Down ==> c is Scroll && c->Scroll_0 == -1
            &&& key == Key::PageDown ==> c is Scroll && c->Scroll_0 == -10
            &&& c is Scroll <==> key == Key::Up || key == Key::Down || key == Key::PageUp || key
                == Key::PageDown
        }),
{
}

/// A command changes of the outlook what it is for, and nothing else.
pub proof fn law_what_a_command_changes(o: Outlook, c: Command)
    ensures
        ({
            let n = dashboard::outlook_after(o, c);
            &&& n.paused != o.paused <==> c == Command::TogglePause
            &&& n.show_help == if c == Command::ShowHelp {
                true
            } else if c == Command::CloseHelp {
                false
            } else {
                o.show_help
            }
            &&& n.focus == match c {
                Command::Unzoom => None,
                Command::Zoom(p) => Some(p),
                _ => o.focus,
            }
            &&& c != Command::Faster && c != Command::Slower ==> n.interval == o.interval
            &&& c == Command::Faster ==> n.interval == dashboard::faster(o.interval)
            &&& c == Command::Slower ==> n.interval == dashboard::slower(o.interval)
        }),
{
}

/// The keys halve and double the interval between a tenth of a second and five seconds, and one
/// undoes the other away from the ends.
pub proof fn law_the_rate_is_halved_and_doubled(d: Duration)
    ensures
        dashboard::faster(d).nanos >= 100_000_000,
        dashboard::slower(d).nanos <= 5_000_000_000,
        d.nanos >= 200_000_000 ==> 2 * dashboard::faster(d).nanos <= d.nanos && d.nanos < 2
            * dashboard::faster(d).nanos + 2,
        d.nanos < 200_000_000 ==> dashboard::faster(d).nanos == 100_000_000,
        d.nanos <= 2_500_000_000 ==> dashboard::slower(d).nanos == 2 * d.nanos,
        d.nanos > 2_500_000_000 ==> dashboard::slower(d).nanos == 5_000_000_000,
        100_000_000 <= d.nanos <= 2_500_000_000 ==> dashboard::faster(dashboard::slower(d)) == d,
{
}

/// The next card is the one behind, round the end; going back undoes it, and with one card nothing
/// is switched.
pub proof fn law_the_cards_go_round(selected: usize, n: nat)
    requires
        selected < n,
        n <= usize::MAX,
    ensures
        ({
            let next = dashboard::selected_after(selected, n, Command::NextCard);
            let previous = dashboard::selected_after(selected, n, Command::PreviousCard);
            &&& 0 <= next < n && 0 <= previous < n
            &&& selected + 1 < n ==> next == selected + 1
            &&& selected + 1 == n ==> next == 0
            &&& selected > 0 ==> previous == selected - 1
            &&& selected == 0 ==> previous == n - 1
            &&& dashboard::switches(n, Command::NextCard) <==> n >= 2
            &&& dashboard::switches(n, Command::PreviousCard) <==> n >= 2
        }),
{
    if n >= 2 {
        let m = n as int;
        if selected + 1 < n {
            vstd::arithmetic::div_mod::lemma_small_mod((selected + 1) as nat, n);
        } else {
            assert(m % m == 0) by (nonlinear_arith)
                requires
                    m > 0,
            ;
        }
        if selected > 0 {
            vstd::arithmetic::div_mod::lemma_mod_add_multiples_vanish(selected as int - 1, m);
            vstd::arithmetic::div_mod::lemma_small_mod((selected - 1) as nat, n);
            assert((selected + n - 1) % m == (m + (selected as int - 1)) % m);
        } else {
            vstd::arithmetic::div_mod::lemma_small_mod((n - 1) as nat, n);
        }
    }
}

/// Nothing but the two card keys brings another card into view, and with none other in view the
/// same one stays.
pub proof fn law_only_the_card_keys_switch(selected: usize, n: nat, c: Command)
    requires
        c != Command::NextCard,
        c != Command::PreviousCard,
    ensures
        !dashboard::switches(n, c),
        dashboard::selected_after(selected, n, c) == selected,
{
}

/// What a command leaves in the log: a switch names the card now in view, a pause and its end are
/// told apart, and the rest of the keys leave nothing.
pub proof fn law_what_commands_are_remarked_on(
    l: LogView,
    o: Outlook,
    cards: Seq<CardView>,
    selected: usize,
    c: Command,
    ts: Seq<char>,
)
    ensures
        ({
            let n = dashboard::log_after(l, o, cards, selected, c, ts);
            let said = |s: Seq<char>|
                dashboard::logged(l, LogLineView { ts, text: s, hue: Hue::Gray });
            &&& c == Command::TogglePause ==> n == said(
                if o.paused {
                    "resumed"@
                } else {
                    "paused"@
                },
            )
            &&& c == Command::ResetPeaks ==> n == said("peaks reset"@)
            &&& (c == Command::NextCard || c == Command::PreviousCard) && cards.len() >= 2 ==> {
                let card = cards[dashboard::selected_after(selected, cards.len(), c)];
                n == said("viewing "@ + (card.model + " ("@ + card.pci + ")"@))
            }
            &&& c is Scroll ==> n.lines == l.lines
            &&& c == Command::Faster || c == Command::Slower || c == Command::ShowHelp || c
                == Command::CloseHelp || c == Command::Unzoom || c is Zoom || c == Command::Nothing
                || c == Command::Quit ==> n == l
        }),
{
}

// ---------------------------------------------------------------- events

/// A raised condition is active, once; a resolved one is not; a repeat changes nothing; and no
/// event touches another condition.
pub proof fn law_what_is_active(
    active: Seq<Condition>,
    events: Seq<EventView>,
    e: EventView,
    c: Condition,
)
    ensures
        ({
            let before = dashboard::active_after(active, events);
            let after = dashboard::active_after(active, events.push(e));
            &&& e matches EventView::Raised { condition, detail } ==> (after.contains(c) <==> c
                == condition || before.contains(c))
            &&& e matches EventView::Resolved { condition, active_for } ==> (after.contains(c) <==> c
                != condition && before.contains(c))
            &&& e is Repeated ==> after == before
            &&& before.no_duplicates() ==> after.no_duplicates()
        }),
        dashboard::active_after(active, seq![]) == active,
{
    let before = dashboard::active_after(active, events);
    let after = dashboard::active_after(active, events.push(e));
    assert(events.push(e).drop_last() =~= events);
    match e {
        EventView::Raised { condition, detail } => {
            if !before.contains(condition) {
                assert(after[before.len() as int] == condition);
                assert forall|x: Condition| before.contains(x) implies after.contains(x) by {
                    let i = choose|i: int| 0 <= i < before.len() && before[i] == x;
                    assert(after[i] == x);
                }
            }
        },
        EventView::Resolved { condition, active_for } => {
            let keep = |x: Condition| x != condition;
            if before.contains(c) && c != condition {
                let i = choose|i: int| 0 <= i < before.len() && before[i] == c;
                assert(keep(before[i]));
                before.lemma_filter_contains(keep, i);
            }
            if after.contains(c) {
                let i = choose|i: int| 0 <= i < after.len() && after[i] == c;
                before.lemma_filter_pred(keep, i);
                before.lemma_filter_contains_rev(keep, c);
            }
            if before.no_duplicates() {
                lemma_filter_keeps_apart(before, condition);
            }
        },
        EventView::Repeated { condition, detail, active_for } => {},
    }
}

proof fn lemma_filter_keeps_apart(s: Seq<Condition>, c: Condition)
    requires
        s.no_duplicates(),
    ensures
        s.filter(|x: Condition| x != c).no_duplicates(),
    decreases s.len(),
{
    reveal(Seq::filter);
    let keep = |x: Condition| x != c;
    if s.len() > 0 {
        let front = s.drop_last();
        lemma_filter_keeps_apart(front, c);
        let kept = front.filter(keep);
        if keep(s.last()) {
            assert(!kept.contains(s.last())) by {
                if kept.contains(s.last()) {
                    front.lemma_filter_contains_rev(keep, s.last());
                    let j = choose|j: int| 0 <= j < front.len() && front[j] == s.last();
                    assert(s[j] == s[s.len() - 1]);
                }
            }
        }
    }
}

/// A raise is red, a resolve green and a repeat yellow, and each event is a line of its own in its
/// own words, in order.
pub proof fn law_events_are_logged_in_their_color(
    l: LogView,
    events: Seq<EventView>,
    e: EventView,
    ts: Seq<char>,
)
    ensures
        dashboard::log_with_events(l, events.push(e), ts) == dashboard::logged(
            dashboard::log_with_events(l, events, ts),
            LogLineView {
                ts,
                text: lifecycle::event_text(e),
                hue: match e {
                    EventView::Raised { .. } => Hue::Red,
                    EventView::Repeated { .. } => Hue::Yellow,
                    EventView::Resolved { .. } => Hue::Green,
                },
            },
        ),
        dashboard::log_with_events(l, seq![], ts) == l,
{
    assert(events.push(e).drop_last() =~= events);
}

/// A sample can be used exactly when it was read and is plausible. It then says its alerts and the
/// status is in order; otherwise it says that telemetry is lost, and the status why.
pub proof fn law_what_a_sample_means(sample: Result<Reading, String>, t: Thresholds)
    ensures
        dashboard::usable(sample) <==> sample is Ok && decode::is_plausible(sample->Ok_0.pins@),
        dashboard::usable(sample) ==> dashboard::sample_status(sample) == "ok"@
            && dashboard::sample_says(sample, t) == lifecycle::conditions_in(
            alert::alerts_of(sample->Ok_0.pins@, t),
        ),
        !dashboard::usable(sample) ==> dashboard::sample_says(sample, t).len() == 1
            && dashboard::sample_says(sample, t)[0].0 == Condition::TelemetryLost,
        sample matches Err(e) ==> dashboard::sample_status(sample) == "read failed: "@ + e@
            && dashboard::sample_says(sample, t)[0].1 == "read failed: "@ + e@,
        sample is Ok && !dashboard::usable(sample) ==> dashboard::sample_status(sample)
            == "implausible reading (wrong device or GPU resetting?)"@ && dashboard::sample_says(
            sample,
            t,
        )[0].1 == "implausible reading"@,
{
}

/// There is always a tab. A named bus has the only one; else every card that answered has one, and
/// the bus stands in where none did.
pub proof fn law_there_is_always_a_tab(answers: Seq<BusAnswer>, auto: bool, own: BusAnswer)
    ensures
        ({
            let tabs = dashboard::tabs_for(answers, auto, own);
            &&& tabs.len() > 0
            &&& !auto || dashboard::cards_among(answers).len() == 0 ==> tabs.len() == 1
                && tabs[0].bus == own.bus
            &&& auto && dashboard::cards_among(answers).len() > 0 ==> tabs
                == dashboard::cards_among(answers)
        }),
{
}

/// A paused dashboard takes no samples; another takes one as soon as its time has come.
pub proof fn law_when_a_sample_is_due(paused: bool, now: Instant, next: Instant)
    ensures
        paused ==> !dashboard::is_due(paused, now, next),
        !paused ==> (dashboard::is_due(paused, now, next) <==> next.nanos <= now.nanos),
{
}

/// A key is waited for no longer than the interval, and than 150 thousandths of a second.
pub proof fn law_how_long_a_key_is_waited_for(interval: Duration)
    ensures
        dashboard::key_wait(interval) <= interval.nanos,
        dashboard::key_wait(interval) <= 150_000_000,
        dashboard::key_wait(interval) == interval.nanos || dashboard::key_wait(interval)
            == 150_000_000,
{
}

} // verus!
