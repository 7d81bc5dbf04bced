//! State of the live full-screen dashboard: the cards, the latest readout, session history and
//! peaks, the scrollable log, and what the keys do.
//!
//! Keys: `q`/`Ctrl-C` quit · `space` pause · `r` reset peaks · `+`/`-` rate · `Tab` card ·
//! `1`-`5` zoom a panel (`0`/`Esc` back) · `↑`/`↓`/wheel scroll the log · `?` help.

use crate::alert;
use crate::alert::{evaluate_with, Thresholds};
use crate::clock::{Duration, Instant};
use crate::decode;
use crate::decode::{Pin, Reading};
use crate::double;
use crate::double::Number;
use crate::i2c;
use crate::i2c::{norm_pci, REDETECT_AFTER};
use crate::lifecycle;
use crate::lifecycle::{conditions, Condition, Event, EventView, Lifecycle};
use crate::metrics;
use crate::safety;
use crate::smi;
use crate::smi::GpuStat;
use crate::text;
use crate::text::{decimal_text, same_text};
use std::collections::VecDeque;
use vstd::prelude::*;

verus! {

/// Samples kept for the trend chart and the sparkline.
pub const HISTORY: usize = 300;

/// Alert-log lines retained.
pub const LOG_CAP: usize = 200;

/// Fastest sampling the keys reach: 100 ms, in nanoseconds.
pub const MIN_INTERVAL_NANOS: u128 = 100_000_000;

/// Slowest sampling the keys reach: five seconds, in nanoseconds.
pub const MAX_INTERVAL_NANOS: u128 = 5_000_000_000;

/// Longest wait for a key: 150 ms, in nanoseconds.
pub const POLL_NANOS: u128 = 150_000_000;

/// A color of the terminal's palette; `Reset` is the terminal's own.
#[derive(Debug, Clone, Copy, PartialEq, Eq, Structural)]
pub enum Hue {
    Reset,
    Gray,
    DarkGray,
    White,
    Cyan,
    Green,
    Yellow,
    Magenta,
    Blue,
    LightRed,
    Red,
}

// ---------------------------------------------------------------- cards

/// One monitorable card (a GPU answering with plausible telemetry).
#[derive(Debug, PartialEq)]
pub struct CardTab {
    pub bus: u32,
    pub pci: String,
    pub model: String,
}

/// What a [`CardTab`] holds.
#[verifier::ext_equal]
pub struct CardView {
    pub bus: u32,
    pub pci: Seq<char>,
    pub model: Seq<char>,
}

impl View for CardTab {
    type V = CardView;

    open spec fn view(&self) -> CardView {
        CardView { bus: self.bus, pci: self.pci@, model: self.model@ }
    }
}

/// What a list of cards holds.
pub open spec fn card_views(v: Seq<CardTab>) -> Seq<CardView> {
    v.map_values(|c: CardTab| c@)
}

impl CardTab {
    /// The card in words.
    pub fn title(&self) -> (s: String)
        ensures
            s@ == self.model@ + " ("@ + self.pci@ + ")"@,
    {
        let mut s = self.model.clone();
        s.append(" (");
        s.append(self.pci.as_str());
        s.append(")");
        s
    }
}

/// What is known about a bus that may carry a card.
#[derive(Debug, PartialEq)]
pub struct BusAnswer {
    pub bus: u32,
    /// Whether it answered with plausible telemetry.
    pub plausible: bool,
    /// PCI id of the GPU it belongs to, if known.
    pub pci: Option<String>,
    /// Model of that GPU, if known.
    pub model: Option<String>,
}

/// The PCI id of a bus's card, or a stand-in.
pub open spec fn answer_pci(a: BusAnswer) -> Seq<char> {
    match a.pci {
        Some(s) => s@,
        None => "i2c-"@ + text::decimal(a.bus as nat),
    }
}

/// The card behind a bus.
pub open spec fn card_of(a: BusAnswer) -> CardView {
    CardView {
        bus: a.bus,
        pci: answer_pci(a),
        model: match a.model {
            Some(s) => s@,
            None => "unknown SKU"@,
        },
    }
}

/// Whether a list holds a card with this PCI id.
pub open spec fn has_pci(cards: Seq<CardView>, pci: Seq<char>) -> bool {
    exists|i: int| 0 <= i < cards.len() && (#[trigger] cards[i]).pci == pci
}

/// The cards among the answers: the plausible ones, one per PCI id, the first bus of each.
pub open spec fn cards_among(answers: Seq<BusAnswer>) -> Seq<CardView>
    decreases answers.len(),
{
    if answers.len() == 0 {
        seq![]
    } else {
        let before = cards_among(answers.drop_last());
        let a = answers.last();
        if a.plausible && !has_pci(before, answer_pci(a)) {
            before.push(card_of(a))
        } else {
            before
        }
    }
}

fn make_card(a: &BusAnswer) -> (c: CardTab)
    ensures
        c@ == card_of(*a),
{
    let pci = match &a.pci {
        Some(s) => s.clone(),
        None => {
            let mut s = "i2c-".to_owned();
            s.append(decimal_text(a.bus as u128).as_str());
            s
        },
    };
    let model = match &a.model {
        Some(s) => s.clone(),
        None => "unknown SKU".to_owned(),
    };
    CardTab { bus: a.bus, pci, model }
}

fn knows_pci(cards: &Vec<CardTab>, pci: &str) -> (r: bool)
    ensures
        r == has_pci(card_views(cards@), pci@),
{
    let ghost all = card_views(cards@);
    let mut i: usize = 0;
    while i < cards.len()
        invariant
            i <= cards.len(),
            all == card_views(cards@),
            forall|j: int| 0 <= j < i ==> (#[trigger] all[j]).pci != pci@,
        decreases cards.len() - i,
    {
        assert(all[i as int] == cards@[i as int]@);
        if same_text(cards[i].pci.as_str(), pci) {
            assert(all[i as int].pci == pci@);
            return true;
        }
        i = i + 1;
    }
    false
}

/// The tabs there are: those of the cards that answered, or the named bus's alone.
pub open spec fn tabs_for(answers: Seq<BusAnswer>, auto: bool, own: BusAnswer) -> Seq<CardView> {
    if auto && cards_among(answers).len() > 0 {
        cards_among(answers)
    } else {
        seq![card_of(own)]
    }
}

/// Discover monitorable cards: every NVIDIA bus that answers with plausible telemetry, one
/// per physical card (deduped by PCI id). A named bus yields exactly that bus; it also stands in
/// when nothing else answers.
pub fn discover_cards(answers: &Vec<BusAnswer>, auto: bool, own: &BusAnswer) -> (out: Vec<CardTab>)
    ensures
        out.len() > 0,
        card_views(out@) == (if auto && cards_among(answers@).len() > 0 {
            cards_among(answers@)
        } else {
            seq![card_of(*own)]
        }),
        card_views(out@) == tabs_for(answers@, auto, *own),
{
    let mut out: Vec<CardTab> = Vec::new();
    assert(card_views(out@) =~= seq![]);
    if auto {
        let mut i: usize = 0;
        assert(answers@.take(0) =~= seq![]);
        while i < answers.len()
            invariant
                i <= answers.len(),
                card_views(out@) == cards_among(answers@.take(i as int)),
            decreases answers.len() - i,
        {
            let ghost had = card_views(out@);
            assert(answers@.take(i + 1).drop_last() =~= answers@.take(i as int));
            if answers[i].plausible {
                let c = make_card(&answers[i]);
                if !knows_pci(&out, c.pci.as_str()) {
                    let ghost x = c@;
                    out.push(c);
                    assert(card_views(out@) =~= had.push(x));
                }
            }
            i = i + 1;
        }
        assert(answers@.take(answers@.len() as int) =~= answers@);
    }
    if out.len() == 0 {
        let c = make_card(own);
        let ghost x = c@;
        out.push(c);
        assert(card_views(out@) =~= seq![x]);
    }
    out
}

/// No two tabs show the same physical card.
pub proof fn law_one_tab_per_card(answers: Seq<BusAnswer>, i: int, j: int)
    requires
        0 <= i < j < cards_among(answers).len(),
    ensures
        cards_among(answers)[i].pci != cards_among(answers)[j].pci,
    decreases answers.len(),
{
    let all = cards_among(answers);
    let before = cards_among(answers.drop_last());
    if j < before.len() {
        law_one_tab_per_card(answers.drop_last(), i, j);
        assert(all[i] == before[i] && all[j] == before[j]);
    } else {
        assert(all[i] == before[i]);
        assert(!has_pci(before, answer_pci(answers.last())));
    }
}

/// The cards there are and the one in view.
#[derive(Debug, PartialEq)]
pub struct Deck {
    pub addr: u16,
    pub cards: Vec<CardTab>,
    pub selected: usize,
    /// Whether the bus was found rather than named.
    pub auto: bool,
}

impl Deck {
    /// The card in view exists.
    pub open spec fn wf(&self) -> bool {
        self.selected < self.cards.len()
    }

    /// The bus of the card in view.
    pub fn current_bus(&self) -> (b: u32)
        requires
            self.wf(),
        ensures
            b == self.cards@[self.selected as int].bus,
    {
        self.cards[self.selected].bus
    }

    /// The latest `nvidia-smi` row for the card in view, if any.
    pub fn gpu_stat(&self, stats: &Vec<GpuStat>) -> (g: Option<GpuStat>)
        requires
            self.wf(),
        ensures
            ({
                let want = i2c::normal_pci(self.cards@[self.selected as int].pci@);
                match g {
                    Some(g) => first_stat(smi::stat_views(stats@), want) == Some(g@),
                    None => first_stat(smi::stat_views(stats@), want) is None,
                }
            }),
    {
        let want = norm_pci(self.cards[self.selected].pci.as_str());
        let ghost all = smi::stat_views(stats@);
        let mut i: usize = 0;
        assert(all.skip(0) =~= all);
        while i < stats.len()
            invariant
                i <= stats.len(),
                all == smi::stat_views(stats@),
                self.wf(),
                want@ == i2c::normal_pci(self.cards@[self.selected as int].pci@),
                first_stat(all, want@) == first_stat(all.skip(i as int), want@),
            decreases stats.len() - i,
        {
            assert(all.skip(i as int)[0] == stats@[i as int]@);
            assert(all.skip(i as int).drop_first() =~= all.skip(i + 1));
            if same_text(stats[i].pci.as_str(), want.as_str()) {
                return Some(stats[i].clone());
            }
            i = i + 1;
        }
        None
    }
}

/// The first row about the GPU with this PCI id.
pub open spec fn first_stat(stats: Seq<smi::StatView>, want: Seq<char>) -> Option<smi::StatView>
    decreases stats.len(),
{
    if stats.len() == 0 {
        None
    } else if stats[0].pci == want {
        Some(stats[0])
    } else {
        first_stat(stats.drop_first(), want)
    }
}

// ---------------------------------------------------------------- the log

/// A line of the log.
#[derive(Debug, PartialEq)]
pub struct LogLine {
    pub ts: String,
    pub text: String,
    pub hue: Hue,
}

/// What a [`LogLine`] says.
#[verifier::ext_equal]
pub struct LogLineView {
    pub ts: Seq<char>,
    pub text: Seq<char>,
    pub hue: Hue,
}

impl View for LogLine {
    type V = LogLineView;

    open spec fn view(&self) -> LogLineView {
        LogLineView { ts: self.ts@, text: self.text@, hue: self.hue }
    }
}

/// The newest `cap` elements, one of them new.
pub open spec fn pushed<A>(s: Seq<A>, x: A, cap: nat) -> Seq<A> {
    if s.len() == cap {
        s.drop_first().push(x)
    } else {
        s.push(x)
    }
}

/// The log and how far it is scrolled back from the newest line (zero while tailing).
#[derive(Debug, PartialEq)]
pub struct Logbook {
    pub lines: VecDeque<LogLine>,
    pub scroll: usize,
}

/// What a [`Logbook`] holds.
#[verifier::ext_equal]
pub struct LogView {
    pub lines: Seq<LogLineView>,
    pub scroll: int,
}

impl View for Logbook {
    type V = LogView;

    open spec fn view(&self) -> LogView {
        LogView {
            lines: self.lines@.map_values(|l: LogLine| l@),
            scroll: self.scroll as int,
        }
    }
}

/// The log with one more line: the oldest makes way when it is full, and a view that is scrolled
/// back stays anchored, but bounded.
pub open spec fn logged(l: LogView, line: LogLineView) -> LogView {
    let lines = pushed(l.lines, line, LOG_CAP as nat);
    LogView {
        lines,
        scroll: if l.scroll == 0 {
            0
        } else if l.scroll + 1 <= lines.len() - 1 {
            l.scroll + 1
        } else {
            lines.len() - 1
        },
    }
}

/// The log scrolled back by `delta` lines, within its bounds.
pub open spec fn scrolled(l: LogView, delta: int) -> LogView {
    let most = if l.lines.len() > 0 {
        l.lines.len() - 1
    } else {
        0
    };
    let next = l.scroll + delta;
    LogView {
        scroll: if next < 0 {
            0
        } else if next > most {
            most
        } else {
            next
        },
        ..l
    }
}

/// Which lines a pane of `rows` rows shows: from the first, up to but without the second.
pub open spec fn window_of(total: nat, scroll: int, rows: nat) -> (int, int) {
    let most = if total > rows {
        total - rows
    } else {
        0
    };
    let s = if scroll <= most {
        scroll
    } else {
        most
    };
    let end = total - s;
    (
        if end > rows {
            end - rows
        } else {
            0
        },
        end,
    )
}

impl Logbook {
    /// An empty log.
    pub fn new() -> (l: Logbook)
        ensures
            l.wf(),
            l@ == (LogView { lines: seq![], scroll: 0 }),
    {
        let l = Logbook { lines: VecDeque::new(), scroll: 0 };
        assert(l@.lines =~= seq![]);
        l
    }

    /// The log holds no more than its cap.
    pub open spec fn wf(&self) -> bool {
        self.lines@.len() <= LOG_CAP
    }

    /// Add a line.
    pub fn push_log(&mut self, ts: &str, text: String, hue: Hue)
        requires
            old(self).wf(),
        ensures
            final(self).wf(),
            final(self)@ == logged(old(self)@, (LogLineView { ts: ts@, text: text@, hue })),
    {
        let ghost had = self@.lines;
        let line = LogLine { ts: ts.to_owned(), text, hue };
        let ghost x = line@;
        if self.lines.len() == LOG_CAP {
            let _ = self.lines.pop_front();
            assert(self@.lines =~= had.drop_first());
        }
        let ghost mid = self@.lines;
        self.lines.push_back(line);
        assert(self@.lines =~= mid.push(x));
        if self.scroll > 0 {
            let most: usize = self.lines.len() - 1;
            self.scroll = if self.scroll < most {
                self.scroll + 1
            } else {
                most
            };
        }
        assert(self@ =~= logged(old(self)@, x));
    }

    /// Scroll back (or forward, below zero).
    pub fn scroll_log(&mut self, delta: i32)
        requires
            old(self).wf(),
        ensures
            final(self).wf(),
            final(self)@ == scrolled(old(self)@, delta as int),
            final(self).lines == old(self).lines,
    {
        let most: usize = if self.lines.len() > 0 {
            self.lines.len() - 1
        } else {
            0
        };
        let next: i128 = self.scroll as i128 + delta as i128;
        self.scroll = if next < 0 {
            0
        } else if next > most as i128 {
            most
        } else {
            next as usize
        };
        assert(self@ =~= scrolled(old(self)@, delta as int));
    }

    /// Which lines a pane of `rows` rows shows. Newest at the bottom; scrolled back at most as far
    /// as fills the pane, so the window never shrinks below a full page or blanks out.
    pub fn window(&self, rows: usize) -> (r: (usize, usize))
        ensures
            (r.0 as int, r.1 as int) == window_of(self@.lines.len(), self@.scroll, rows as nat),
            r.0 <= r.1 <= self.lines@.len(),
    {
        let total: usize = self.lines.len();
        let most: usize = if total > rows {
            total - rows
        } else {
            0
        };
        let s: usize = if self.scroll <= most {
            self.scroll
        } else {
            most
        };
        let end: usize = total - s;
        let start: usize = if end > rows {
            end - rows
        } else {
            0
        };
        (start, end)
    }
}

/// However far the log is scrolled, the pane is full as long as there are lines to fill it.
pub proof fn law_the_pane_stays_full(total: nat, scroll: int, rows: nat)
    requires
        scroll >= 0,
    ensures
        ({
            let (start, end) = window_of(total, scroll, rows);
            &&& 0 <= start <= end <= total
            &&& end - start == (if rows <= total {
                rows as int
            } else {
                total as int
            })
        }),
{
}

/// Scrolling far enough back reaches the oldest line; not scrolling shows the newest.
pub proof fn law_the_ends_of_the_log_are_reached(total: nat, scroll: int, rows: nat)
    requires
        scroll >= 0,
    ensures
        scroll >= total ==> window_of(total, scroll, rows).0 == 0,
        scroll == 0 ==> window_of(total, scroll, rows).1 == total,
{
}

/// Scrolling stays within the log, and the log within its cap, whatever is logged meanwhile.
pub proof fn law_the_log_is_bounded(l: LogView, line: LogLineView, delta: int)
    requires
        l.lines.len() <= LOG_CAP,
        l.scroll >= 0,
    ensures
        logged(l, line).lines.len() <= LOG_CAP,
        0 <= logged(l, line).scroll < logged(l, line).lines.len(),
        logged(l, line).lines.last() == line,
        0 <= scrolled(l, delta).scroll,
        l.lines.len() > 0 ==> scrolled(l, delta).scroll < l.lines.len(),
{
}

// ---------------------------------------------------------------- history and peaks

/// What was read in this session: the recent past and the peaks. Currents are in milliamps, power
/// in watts.
#[derive(Debug)]
pub struct History {
    pub pins: Vec<VecDeque<u16>>,
    pub peaks: [u16; 6],
    /// Whole watts.
    pub watts: VecDeque<u64>,
    pub peak_watts: Number,
    /// The highest balance ratio; zero while there was none.
    pub peak_balance: Number,
}

/// What a [`History`] holds.
#[verifier::ext_equal]
pub struct HistoryView {
    pub pins: Seq<Seq<u16>>,
    pub peaks: Seq<u16>,
    pub watts: Seq<u64>,
    pub peak_watts: Number,
    pub peak_balance: Number,
}

impl View for History {
    type V = HistoryView;

    open spec fn view(&self) -> HistoryView {
        HistoryView {
            pins: self.pins@.map_values(|h: VecDeque<u16>| h@),
            peaks: self.peaks@,
            watts: self.watts@,
            peak_watts: self.peak_watts,
            peak_balance: self.peak_balance,
        }
    }
}

/// Nothing read yet.
pub open spec fn no_history() -> HistoryView {
    HistoryView {
        pins: seq![seq![], seq![], seq![], seq![], seq![], seq![]],
        peaks: seq![0, 0, 0, 0, 0, 0],
        watts: seq![],
        peak_watts: double::zero(),
        peak_balance: double::zero(),
    }
}

/// The higher of a peak and a new value.
pub open spec fn risen(peak: Number, x: Number) -> Number {
    if double::less(peak, x) {
        x
    } else {
        peak
    }
}

/// The higher of two readings.
pub open spec fn higher(a: u16, b: u16) -> u16 {
    if b > a {
        b
    } else {
        a
    }
}

/// The history with one more reading.
pub open spec fn with_reading(h: HistoryView, pins: Seq<Pin>) -> HistoryView {
    HistoryView {
        pins: Seq::new(6, |i: int| pushed(h.pins[i], pins[i].milliamps, HISTORY as nat)),
        peaks: Seq::new(6, |i: int| higher(h.peaks[i], pins[i].milliamps)),
        watts: pushed(
            h.watts,
            double::truncated(decode::total_watts(pins), u64::MAX as nat) as u64,
            HISTORY as nat,
        ),
        peak_watts: risen(h.peak_watts, decode::total_watts(pins)),
        peak_balance: match decode::balance(pins) {
            Some(b) => risen(h.peak_balance, b),
            None => h.peak_balance,
        },
    }
}

/// The history without its peaks.
pub open spec fn without_peaks(h: HistoryView) -> HistoryView {
    HistoryView {
        peaks: seq![0, 0, 0, 0, 0, 0],
        peak_watts: double::zero(),
        peak_balance: double::zero(),
        ..h
    }
}

impl History {
    /// There is a history for each pin, none longer than the cap.
    pub open spec fn wf(&self) -> bool {
        &&& self@.pins.len() == 6
        &&& forall|i: int| 0 <= i < 6 ==> (#[trigger] self@.pins[i]).len() <= HISTORY
        &&& self@.watts.len() <= HISTORY
    }

    /// Nothing read yet.
    pub fn new() -> (h: History)
        ensures
            h.wf(),
            h@ == no_history(),
    {
        let mut pins: Vec<VecDeque<u16>> = Vec::new();
        let mut i: usize = 0;
        while i < 6
            invariant
                i <= 6,
                pins@.len() == i,
                forall|j: int| 0 <= j < i ==> (#[trigger] pins@[j])@ == Seq::<u16>::empty(),
            decreases 6 - i,
        {
            let q: VecDeque<u16> = VecDeque::new();
            assert(q@ =~= Seq::<u16>::empty());
            pins.push(q);
            i = i + 1;
        }
        let h = History {
            pins,
            peaks: [0, 0, 0, 0, 0, 0],
            watts: VecDeque::new(),
            peak_watts: Number::zero(),
            peak_balance: Number::zero(),
        };
        assert(h@.pins =~= no_history().pins);
        assert(h@.peaks =~= no_history().peaks);
        assert(h@.watts =~= no_history().watts);
        h
    }

    fn push_pin(&mut self, i: usize, milliamps: u16)
        requires
            old(self).wf(),
            i < 6,
        ensures
            final(self).wf(),
            final(self)@ == (HistoryView {
                pins: old(self)@.pins.update(
                    i as int,
                    pushed(old(self)@.pins[i as int], milliamps, HISTORY as nat),
                ),
                peaks: old(self)@.peaks.update(
                    i as int,
                    higher(old(self)@.peaks[i as int], milliamps),
                ),
                ..old(self)@
            }),
    {
        let ghost had = self@;
        let ghost before = self.pins@;
        assert(before[i as int]@ == had.pins[i as int]);
        if self.pins[i].len() == HISTORY {
            let _ = self.pins[i].pop_front();
        }
        self.pins[i].push_back(milliamps);
        assert(self.pins@[i as int]@ =~= pushed(had.pins[i as int], milliamps, HISTORY as nat));
        if milliamps > self.peaks[i] {
            self.peaks[i] = milliamps;
        }
        assert(self@.peaks =~= had.peaks.update(i as int, higher(had.peaks[i as int], milliamps)));
        assert forall|j: int| 0 <= j < 6 && j != i implies #[trigger] self.pins@[j] == before[j] by {
        }
        assert(self@.pins =~= had.pins.update(
            i as int,
            pushed(had.pins[i as int], milliamps, HISTORY as nat),
        ));
        assert forall|j: int| 0 <= j < 6 implies (#[trigger] self@.pins[j]).len() <= HISTORY by {
            if j != i {
                assert(self@.pins[j] == had.pins[j]);
            }
        }
    }

    /// Take in a reading.
    pub fn push_hist(&mut self, r: &Reading)
        requires
            old(self).wf(),
        ensures
            final(self).wf(),
            final(self)@ == with_reading(old(self)@, r.pins@),
    {
        let ghost had = self@;
        let mut i: usize = 0;
        while i < 6
            invariant
                i <= 6,
                self.wf(),
                had.pins.len() == 6,
                had.peaks.len() == 6,
                self@.peaks.len() == 6,
                self@.watts == had.watts,
                self@.peak_watts == had.peak_watts,
                self@.peak_balance == had.peak_balance,
                forall|j: int|
                    0 <= j < 6 ==> #[trigger] self@.pins[j] == (if j < i {
                        pushed(had.pins[j], r.pins@[j].milliamps, HISTORY as nat)
                    } else {
                        had.pins[j]
                    }),
                forall|j: int|
                    0 <= j < 6 ==> #[trigger] self@.peaks[j] == (if j < i {
                        higher(had.peaks[j], r.pins@[j].milliamps)
                    } else {
                        had.peaks[j]
                    }),
            decreases 6 - i,
        {
            self.push_pin(i, r.pins[i].milliamps);
            i = i + 1;
        }
        let w = r.total_watts();
        if self.watts.len() == HISTORY {
            let _ = self.watts.pop_front();
        }
        self.watts.push_back(w.truncated(u64::MAX));
        if self.peak_watts.less(w) {
            self.peak_watts = w;
        }
        if let Some(b) = r.balance() {
            if self.peak_balance.less(b) {
                self.peak_balance = b;
            }
        }
        assert(self@.pins =~= with_reading(had, r.pins@).pins);
        assert(self@.peaks =~= with_reading(had, r.pins@).peaks);
        assert(self@.watts =~= with_reading(had, r.pins@).watts);
    }

    /// Forget everything.
    pub fn clear_history(&mut self)
        ensures
            final(self).wf(),
            final(self)@ == no_history(),
    {
        *self = History::new();
    }

    /// Forget the peaks.
    pub fn reset_peaks(&mut self)
        requires
            old(self).wf(),
        ensures
            final(self).wf(),
            final(self)@ == without_peaks(old(self)@),
    {
        self.peaks = [0, 0, 0, 0, 0, 0];
        self.peak_watts = Number::zero();
        self.peak_balance = Number::zero();
        assert(self@.peaks =~= without_peaks(old(self)@).peaks);
    }
}

/// A peak never goes down while readings come in.
pub proof fn law_peaks_only_rise(h: HistoryView, pins: Seq<Pin>, i: int)
    requires
        0 <= i < 6,
        h.peaks.len() == 6,
    ensures
        with_reading(h, pins).peaks[i] >= h.peaks[i],
        with_reading(h, pins).peaks[i] >= pins[i].milliamps,
        !double::less(with_reading(h, pins).peak_watts, h.peak_watts),
        !double::less(with_reading(h, pins).peak_balance, h.peak_balance),
{
}

// ---------------------------------------------------------------- the app

/// The latest readout.
#[derive(Debug)]
pub struct Readout {
    pub reading: Option<Reading>,
    /// Whether the reading is from the most recent sample.
    pub live: bool,
    /// Current PCIe link, and whether it is at the card's maximum.
    pub link: Option<(String, bool)>,
    pub status: String,
    /// The conditions the lifecycle holds raised.
    pub active: Vec<Condition>,
    /// Consecutive unusable samples.
    pub misses: u32,
    pub samples: u64,
}

/// How the dashboard is looked at.
#[derive(Debug, Clone, Copy, PartialEq, Eq, Structural)]
pub struct Outlook {
    pub paused: bool,
    pub show_help: bool,
    /// The zoomed panel.
    pub focus: Option<usize>,
    pub interval: Duration,
}

/// The dashboard.
#[derive(Debug)]
pub struct App {
    pub deck: Deck,
    pub readout: Readout,
    pub history: History,
    pub logbook: Logbook,
    pub outlook: Outlook,
}

/// A key.
#[derive(Debug, Clone, Copy, PartialEq, Eq, Structural)]
pub enum Key {
    Char(char),
    Esc,
    Tab,
    BackTab,
    Left,
    Right,
    Up,
    Down,
    PageUp,
    PageDown,
    Other,
}

/// What follows a key.
#[derive(Debug, Clone, Copy, PartialEq, Eq, Structural)]
pub enum Reply {
    Quit,
    Stay,
    /// Another card is in view: its PCIe link is to be read.
    Switched,
}

/// What a key does.
#[derive(Debug, Clone, Copy, PartialEq, Eq, Structural)]
pub enum Command {
    Quit,
    CloseHelp,
    Unzoom,
    TogglePause,
    ResetPeaks,
    ShowHelp,
    Faster,
    Slower,
    Zoom(usize),
    NextCard,
    PreviousCard,
    Scroll(i32),
    Nothing,
}

/// What a key does: quitting works from anywhere, any other key closes the help, and `Esc` first
/// leaves a zoomed panel.
pub open spec fn command_of(key: Key, ctrl: bool, o: Outlook) -> Command {
    if key == Key::Char('q') || (key == Key::Char('c') && ctrl) {
        Command::Quit
    } else if o.show_help {
        Command::CloseHelp
    } else {
        match key {
            Key::Esc => if o.focus is Some {
                Command::Unzoom
            } else {
                Command::Quit
            },
            Key::Char(c) => if c == ' ' {
                Command::TogglePause
            } else if c == 'r' {
                Command::ResetPeaks
            } else if c == '?' {
                Command::ShowHelp
            } else if c == '+' || c == '=' {
                Command::Faster
            } else if c == '-' || c == '_' {
                Command::Slower
            } else if c == '0' {
                Command::Unzoom
            } else if c == '1' {
                Command::Zoom(0)
            } else if c == '2' {
                Command::Zoom(1)
            } else if c == '3' {
                Command::Zoom(2)
            } else if c == '4' {
                Command::Zoom(3)
            } else if c == '5' {
                Command::Zoom(4)
            } else {
                Command::Nothing
            },
            Key::Tab => Command::NextCard,
            Key::Right => Command::NextCard,
            Key::BackTab => Command::PreviousCard,
            Key::Left => Command::PreviousCard,
            Key::Up => Command::Scroll(1),
            Key::Down => Command::Scroll((-1) as i32),
            Key::PageUp => Command::Scroll(10),
            Key::PageDown => Command::Scroll((-10) as i32),
            Key::Other => Command::Nothing,
        }
    }
}

/// Half the interval, no faster than the fastest.
pub open spec fn faster(d: Duration) -> Duration {
    Duration {
        nanos: if d.nanos / 2 >= MIN_INTERVAL_NANOS {
            d.nanos / 2
        } else {
            MIN_INTERVAL_NANOS
        },
    }
}

/// Twice the interval, no slower than the slowest.
pub open spec fn slower(d: Duration) -> Duration {
    Duration {
        nanos: if d.nanos * 2 <= MAX_INTERVAL_NANOS {
            (d.nanos * 2) as u128
        } else {
            MAX_INTERVAL_NANOS
        },
    }
}

/// How the dashboard is looked at after a command.
pub open spec fn outlook_after(o: Outlook, c: Command) -> Outlook {
    match c {
        Command::CloseHelp => Outlook { show_help: false, ..o },
        Command::Unzoom => Outlook { focus: None, ..o },
        Command::TogglePause => Outlook { paused: !o.paused, ..o },
        Command::ShowHelp => Outlook { show_help: true, ..o },
        Command::Faster => Outlook { interval: faster(o.interval), ..o },
        Command::Slower => Outlook { interval: slower(o.interval), ..o },
        Command::Zoom(p) => Outlook { focus: Some(p), ..o },
        _ => o,
    }
}

/// A remark in the log.
pub open spec fn remark(ts: Seq<char>, text: Seq<char>) -> LogLineView {
    LogLineView { ts, text, hue: Hue::Gray }
}

/// The card in view after a command.
pub open spec fn selected_after(selected: usize, n: nat, c: Command) -> int {
    if n < 2 {
        selected as int
    } else if c == Command::NextCard {
        (selected + 1) % (n as int)
    } else if c == Command::PreviousCard {
        (selected + n - 1) % (n as int)
    } else {
        selected as int
    }
}

/// Whether a command brings another card into view.
pub open spec fn switches(n: nat, c: Command) -> bool {
    n >= 2 && (c == Command::NextCard || c == Command::PreviousCard)
}

/// The log after a command.
pub open spec fn log_after(
    l: LogView,
    o: Outlook,
    cards: Seq<CardView>,
    selected: usize,
    c: Command,
    ts: Seq<char>,
) -> LogView {
    if switches(cards.len(), c) {
        let card = cards[selected_after(selected, cards.len(), c)];
        logged(l, remark(ts, "viewing "@ + (card.model + " ("@ + card.pci + ")"@)))
    } else {
        match c {
            Command::TogglePause => logged(
                l,
                remark(
                    ts,
                    if o.paused {
                        "resumed"@
                    } else {
                        "paused"@
                    },
                ),
            ),
            Command::ResetPeaks => logged(l, remark(ts, "peaks reset"@)),
            Command::Scroll(d) => scrolled(l, d as int),
            _ => l,
        }
    }
}

fn command(key: Key, ctrl: bool, o: &Outlook) -> (c: Command)
    ensures
        c == command_of(key, ctrl, *o),
        c matches Command::Zoom(p) ==> p < 5,
{
    if key == Key::Char('q') || (key == Key::Char('c') && ctrl) {
        return Command::Quit;
    }
    if o.show_help {
        return Command::CloseHelp;
    }
    match key {
        Key::Esc => {
            if o.focus.is_some() {
                Command::Unzoom
            } else {
                Command::Quit
            }
        },
        Key::Char(c) => {
            if c == ' ' {
                Command::TogglePause
            } else if c == 'r' {
                Command::ResetPeaks
            } else if c == '?' {
                Command::ShowHelp
            } else if c == '+' || c == '=' {
                Command::Faster
            } else if c == '-' || c == '_' {
                Command::Slower
            } else if c == '0' {
                Command::Unzoom
            } else if c == '1' {
                Command::Zoom(0)
            } else if c == '2' {
                Command::Zoom(1)
            } else if c == '3' {
                Command::Zoom(2)
            } else if c == '4' {
                Command::Zoom(3)
            } else if c == '5' {
                Command::Zoom(4)
            } else {
                Command::Nothing
            }
        },
        Key::Tab => Command::NextCard,
        Key::Right => Command::NextCard,
        Key::BackTab => Command::PreviousCard,
        Key::Left => Command::PreviousCard,
        Key::Up => Command::Scroll(1),
        Key::Down => Command::Scroll(-1),
        Key::PageUp => Command::Scroll(10),
        Key::PageDown => Command::Scroll(-10),
        Key::Other => Command::Nothing,
    }
}

/// Whether a sample is due at `now` when the next is planned for `next`.
pub open spec fn is_due(paused: bool, now: Instant, next: Instant) -> bool {
    !paused && now.nanos >= next.nanos
}

/// How long to wait for a key between samples so far apart.
pub open spec fn key_wait(interval: Duration) -> u128 {
    if interval.nanos <= POLL_NANOS {
        interval.nanos
    } else {
        POLL_NANOS
    }
}

impl Outlook {
    /// A zoomed panel is one of the five.
    pub open spec fn wf(&self) -> bool {
        self.focus is None || self.focus->0 < 5
    }

    fn apply(&mut self, c: Command)
        requires
            old(self).wf(),
            c matches Command::Zoom(p) ==> p < 5,
        ensures
            final(self).wf(),
            *final(self) == outlook_after(*old(self), c),
    {
        match c {
            Command::CloseHelp => {
                self.show_help = false;
            },
            Command::Unzoom => {
                self.focus = None;
            },
            Command::TogglePause => {
                self.paused = !self.paused;
            },
            Command::ShowHelp => {
                self.show_help = true;
            },
            Command::Faster => {
                let half: u128 = self.interval.nanos / 2;
                self.interval = Duration {
                    nanos: if half >= MIN_INTERVAL_NANOS {
                        half
                    } else {
                        MIN_INTERVAL_NANOS
                    },
                };
            },
            Command::Slower => {
                let now: u128 = self.interval.nanos;
                self.interval = Duration {
                    nanos: if now <= MAX_INTERVAL_NANOS / 2 {
                        now * 2
                    } else {
                        MAX_INTERVAL_NANOS
                    },
                };
            },
            Command::Zoom(p) => {
                self.focus = Some(p);
            },
            _ => {},
        }
    }

    /// Whether a sample is due.
    pub fn sample_due(&self, now: Instant, next: Instant) -> (r: bool)
        ensures
            r == (!self.paused && now.nanos >= next.nanos),
            r == is_due(self.paused, now, next),
    {
        !self.paused && now.nanos >= next.nanos
    }

    /// How long to wait for a key.
    pub fn poll_time(&self) -> (d: Duration)
        ensures
            d.nanos == (if self.interval.nanos <= POLL_NANOS {
                self.interval.nanos
            } else {
                POLL_NANOS
            }),
            d.nanos == key_wait(self.interval),
    {
        self.interval.min(Duration { nanos: POLL_NANOS })
    }
}

/// The conditions that are active after some events.
pub open spec fn active_after(active: Seq<Condition>, events: Seq<EventView>) -> Seq<Condition>
    decreases events.len(),
{
    if events.len() == 0 {
        active
    } else {
        let before = active_after(active, events.drop_last());
        match events.last() {
            EventView::Raised { condition, detail } => if before.contains(condition) {
                before
            } else {
                before.push(condition)
            },
            EventView::Resolved { condition, active_for } => before.filter(
                |c: Condition| c != condition,
            ),
            EventView::Repeated { condition, detail, active_for } => before,
        }
    }
}

/// The color an event is logged in.
pub open spec fn event_hue(e: EventView) -> Hue {
    match e {
        EventView::Raised { condition, detail } => Hue::Red,
        EventView::Resolved { condition, active_for } => Hue::Green,
        EventView::Repeated { condition, detail, active_for } => Hue::Yellow,
    }
}

/// The log after some events.
pub open spec fn log_with_events(l: LogView, events: Seq<EventView>, ts: Seq<char>) -> LogView
    decreases events.len(),
{
    if events.len() == 0 {
        l
    } else {
        logged(
            log_with_events(l, events.drop_last(), ts),
            LogLineView {
                ts,
                text: lifecycle::event_text(events.last()),
                hue: event_hue(events.last()),
            },
        )
    }
}

/// What a sample says to the lifecycle.
pub open spec fn sample_says(sample: Result<Reading, String>, t: Thresholds) -> Seq<
    (Condition, Seq<char>),
> {
    match sample {
        Ok(r) => if decode::is_plausible(r.pins@) {
            lifecycle::conditions_in(alert::alerts_of(r.pins@, t))
        } else {
            seq![(Condition::TelemetryLost, "implausible reading"@)]
        },
        Err(e) => seq![(Condition::TelemetryLost, "read failed: "@ + e@)],
    }
}

/// The status after a sample.
pub open spec fn sample_status(sample: Result<Reading, String>) -> Seq<char> {
    match sample {
        Ok(r) => if decode::is_plausible(r.pins@) {
            "ok"@
        } else {
            "implausible reading (wrong device or GPU resetting?)"@
        },
        Err(e) => "read failed: "@ + e@,
    }
}

/// Whether a sample can be used.
pub open spec fn usable(sample: Result<Reading, String>) -> bool {
    sample is Ok && decode::is_plausible(sample->Ok_0.pins@)
}

fn without(active: &Vec<Condition>, c: Condition) -> (out: Vec<Condition>)
    ensures
        out@ == active@.filter(|x: Condition| x != c),
{
    let mut out: Vec<Condition> = Vec::new();
    let mut i: usize = 0;
    assert(active@.take(0).filter(|x: Condition| x != c) =~= seq![]) by {
        reveal(Seq::filter);
    }
    while i < active.len()
        invariant
            i <= active.len(),
            out@ == active@.take(i as int).filter(|x: Condition| x != c),
        decreases active.len() - i,
    {
        assert(active@.take(i + 1).drop_last() =~= active@.take(i as int));
        assert(active@.take(i + 1).filter(|x: Condition| x != c) == if active@[i as int] != c {
            active@.take(i as int).filter(|x: Condition| x != c).push(active@[i as int])
        } else {
            active@.take(i as int).filter(|x: Condition| x != c)
        }) by {
            reveal(Seq::filter);
        }
        if active[i] != c {
            out.push(active[i]);
        }
        i = i + 1;
    }
    assert(active@.take(active@.len() as int) =~= active@);
    out
}

fn holds(active: &Vec<Condition>, c: Condition) -> (r: bool)
    ensures
        r == active@.contains(c),
{
    let mut i: usize = 0;
    while i < active.len()
        invariant
            i <= active.len(),
            forall|j: int| 0 <= j < i ==> active@[j] != c,
        decreases active.len() - i,
    {
        if active[i] == c {
            assert(active@[i as int] == c);
            return true;
        }
        i = i + 1;
    }
    false
}

impl App {
    /// Every part is in order.
    pub open spec fn wf(&self) -> bool {
        self.deck.wf() && self.history.wf() && self.logbook.wf() && self.outlook.wf()
    }

    /// A dashboard that has sampled nothing yet.
    pub fn new(
        addr: u16,
        cards: Vec<CardTab>,
        auto: bool,
        interval: Duration,
        link: Option<(String, bool)>,
        ts: &str,
    ) -> (a: App)
        requires
            cards.len() > 0,
        ensures
            a.wf(),
            a.deck.addr == addr,
            a.deck.cards == cards,
            a.deck.selected == 0,
            a.deck.auto == auto,
            a.readout.reading is None,
            !a.readout.live,
            a.readout.link == link,
            a.readout.status@ == "starting…"@,
            a.readout.active@ == Seq::<Condition>::empty(),
            a.readout.misses == 0,
            a.readout.samples == 0,
            a.history@ == no_history(),
            a.logbook@ == logged(
                (LogView { lines: seq![], scroll: 0 }),
                remark(ts@, "dashboard started"@),
            ),
            a.outlook == (Outlook { paused: false, show_help: false, focus: None, interval }),
    {
        let mut logbook = Logbook::new();
        logbook.push_log(ts, "dashboard started".to_owned(), Hue::Gray);
        App {
            deck: Deck { addr, cards, selected: 0, auto },
            readout: Readout {
                reading: None,
                live: false,
                link,
                status: "starting…".to_owned(),
                active: Vec::new(),
                misses: 0,
                samples: 0,
            },
            history: History::new(),
            logbook,
            outlook: Outlook { paused: false, show_help: false, focus: None, interval },
        }
    }

    fn switch_card(&mut self, next: usize, ts: &str)
        requires
            old(self).wf(),
            next < old(self).deck.cards.len(),
        ensures
            final(self).wf(),
            final(self).deck.addr == old(self).deck.addr,
            final(self).deck.cards == old(self).deck.cards,
            final(self).deck.auto == old(self).deck.auto,
            final(self).deck.selected == next,
            final(self).history@ == no_history(),
            final(self).readout.reading is None,
            !final(self).readout.live,
            final(self).readout.misses == 0,
            final(self).readout.link == old(self).readout.link,
            final(self).readout.status == old(self).readout.status,
            final(self).readout.active == old(self).readout.active,
            final(self).readout.samples == old(self).readout.samples,
            final(self).outlook == old(self).outlook,
            final(self).logbook@ == logged(
                old(self).logbook@,
                remark(
                    ts@,
                    "viewing "@ + (old(self).deck.cards@[next as int].model@ + " ("@ + old(
                        self,
                    ).deck.cards@[next as int].pci@ + ")"@),
                ),
            ),
    {
        self.deck.selected = next;
        self.history.clear_history();
        self.readout.reading = None;
        self.readout.live = false;
        self.readout.misses = 0;
        let mut s = "viewing ".to_owned();
        s.append(self.deck.cards[next].title().as_str());
        self.logbook.push_log(ts, s, Hue::Gray);
    }

    /// A key was pressed; `ctrl` says whether the control key was held.
    pub fn on_key(&mut self, key: Key, ctrl: bool, ts: &str) -> (r: Reply)
        requires
            old(self).wf(),
        ensures
            final(self).wf(),
            ({
                let c = command_of(key, ctrl, old(self).outlook);
                let n = old(self).deck.cards@.len();
                &&& r == (if c == Command::Quit {
                    Reply::Quit
                } else if switches(n, c) {
                    Reply::Switched
                } else {
                    Reply::Stay
                })
                &&& final(self).outlook == outlook_after(old(self).outlook, c)
                &&& final(self).deck.addr == old(self).deck.addr
                &&& final(self).deck.cards == old(self).deck.cards
                &&& final(self).deck.auto == old(self).deck.auto
                &&& final(self).deck.selected == selected_after(old(self).deck.selected, n, c)
                &&& final(self).logbook@ == log_after(
                    old(self).logbook@,
                    old(self).outlook,
                    card_views(old(self).deck.cards@),
                    old(self).deck.selected,
                    c,
                    ts@,
                )
                &&& final(self).history@ == (if switches(n, c) {
                    no_history()
                } else if c == Command::ResetPeaks {
                    without_peaks(old(self).history@)
                } else {
                    old(self).history@
                })
                &&& switches(n, c) ==> final(self).readout.reading is None
                    && !final(self).readout.live && final(self).readout.misses == 0
                &&& !switches(n, c) ==> final(self).readout.reading == old(self).readout.reading
                    && final(self).readout.live == old(self).readout.live
                    && final(self).readout.misses == old(self).readout.misses
                &&& final(self).readout.link == old(self).readout.link
                &&& final(self).readout.status == old(self).readout.status
                &&& final(self).readout.active == old(self).readout.active
                &&& final(self).readout.samples == old(self).readout.samples
            }),
    {
        let c = command(key, ctrl, &self.outlook);
        let was_paused = self.outlook.paused;
        let n: usize = self.deck.cards.len();
        let at: usize = self.deck.selected;
        let ghost cards = card_views(self.deck.cards@);
        self.outlook.apply(c);
        match c {
            Command::Quit => Reply::Quit,
            Command::TogglePause => {
                let what = if was_paused {
                    "resumed"
                } else {
                    "paused"
                };
                self.logbook.push_log(ts, what.to_owned(), Hue::Gray);
                Reply::Stay
            },
            Command::ResetPeaks => {
                self.history.reset_peaks();
                self.logbook.push_log(ts, "peaks reset".to_owned(), Hue::Gray);
                Reply::Stay
            },
            Command::Scroll(d) => {
                self.logbook.scroll_log(d);
                Reply::Stay
            },
            Command::NextCard => {
                if n < 2 {
                    return Reply::Stay;
                }
                let next: usize = if at + 1 < n {
                    at + 1
                } else {
                    0
                };
                assert(next == (at + 1) % (n as int)) by (nonlinear_arith)
                    requires
                        at < n,
                        next == (if at + 1 < n {
                            at + 1
                        } else {
                            0
                        }),
                ;
                assert(cards[next as int] == self.deck.cards@[next as int]@);
                self.switch_card(next, ts);
                Reply::Switched
            },
            Command::PreviousCard => {
                if n < 2 {
                    return Reply::Stay;
                }
                let next: usize = if at > 0 {
                    at - 1
                } else {
                    n - 1
                };
                assert(next == (at + n - 1) % (n as int)) by (nonlinear_arith)
                    requires
                        at < n,
                        next == (if at > 0 {
                            at - 1
                        } else {
                            n - 1
                        }),
                ;
                assert(cards[next as int] == self.deck.cards@[next as int]@);
                self.switch_card(next, ts);
                Reply::Switched
            },
            _ => Reply::Stay,
        }
    }

    fn take_events(&mut self, events: &Vec<Event>, ts: &str)
        requires
            old(self).wf(),
        ensures
            final(self).wf(),
            final(self).deck == old(self).deck,
            final(self).history == old(self).history,
            final(self).outlook == old(self).outlook,
            final(self).logbook@ == log_with_events(
                old(self).logbook@,
                lifecycle::event_views(events@),
                ts@,
            ),
            final(self).readout.active@ == active_after(
                old(self).readout.active@,
                lifecycle::event_views(events@),
            ),
            final(self).readout.reading == old(self).readout.reading,
            final(self).readout.live == old(self).readout.live,
            final(self).readout.link == old(self).readout.link,
            final(self).readout.status == old(self).readout.status,
            final(self).readout.misses == old(self).readout.misses,
            final(self).readout.samples == old(self).readout.samples,
    {
        let ghost all = lifecycle::event_views(events@);
        let mut i: usize = 0;
        assert(all.take(0) =~= seq![]);
        while i < events.len()
            invariant
                i <= events.len(),
                all == lifecycle::event_views(events@),
                self.wf(),
                self.deck == old(self).deck,
                self.history == old(self).history,
                self.outlook == old(self).outlook,
                self.logbook@ == log_with_events(old(self).logbook@, all.take(i as int), ts@),
                self.readout.active@ == active_after(
                    old(self).readout.active@,
                    all.take(i as int),
                ),
                self.readout.reading == old(self).readout.reading,
                self.readout.live == old(self).readout.live,
                self.readout.link == old(self).readout.link,
                self.readout.status == old(self).readout.status,
                self.readout.misses == old(self).readout.misses,
                self.readout.samples == old(self).readout.samples,
            decreases events.len() - i,
        {
            assert(all.take(i + 1).drop_last() =~= all.take(i as int));
            assert(all.take(i + 1).last() == events@[i as int]@);
            let text = events[i].to_string();
            match &events[i] {
                Event::Raised { condition, .. } => {
                    if !holds(&self.readout.active, *condition) {
                        self.readout.active.push(*condition);
                    }
                    self.logbook.push_log(ts, text, Hue::Red);
                },
                Event::Resolved { condition, .. } => {
                    self.readout.active = without(&self.readout.active, *condition);
                    self.logbook.push_log(ts, text, Hue::Green);
                },
                Event::Repeated { .. } => {
                    self.logbook.push_log(ts, text, Hue::Yellow);
                },
            }
            i = i + 1;
        }
        assert(all.take(all.len() as int) =~= all);
    }

    /// Take in a sample of the card in view, and its PCIe link. The events are what the metrics
    /// are to be told.
    pub fn sample(
        &mut self,
        sample: &Result<Reading, String>,
        link: Option<(String, bool)>,
        lifecycle: &mut Lifecycle,
        thresholds: &Thresholds,
        ts: &str,
        now: Instant,
    ) -> (events: Vec<Event>)
        requires
            old(self).wf(),
            old(lifecycle).wf(),
        ensures
            final(self).wf(),
            final(self).deck == old(self).deck,
            final(self).outlook == old(self).outlook,
            final(lifecycle).wf(),
            final(lifecycle).policy() == old(lifecycle).policy(),
            forall|i: int|
                0 <= i < 4 ==> #[trigger] final(lifecycle).phases()[i] == lifecycle::advance_at(
                    old(lifecycle).policy(),
                    old(lifecycle).phases(),
                    now,
                    sample_says(*sample, *thresholds),
                    i,
                ).0,
            lifecycle::event_views(events@) == lifecycle::announced(
                old(lifecycle).policy(),
                old(lifecycle).phases(),
                now,
                sample_says(*sample, *thresholds),
                4,
            ),
            final(self).logbook@ == log_with_events(
                old(self).logbook@,
                lifecycle::event_views(events@),
                ts@,
            ),
            final(self).readout.active@ == active_after(
                old(self).readout.active@,
                lifecycle::event_views(events@),
            ),
            final(self).readout.link == link,
            final(self).readout.status@ == sample_status(*sample),
            final(self).readout.live == usable(*sample),
            final(self).readout.reading == (if usable(*sample) {
                Some(sample->Ok_0)
            } else {
                old(self).readout.reading
            }),
            final(self).readout.misses == (if usable(*sample) {
                0
            } else {
                safety::missed(old(self).readout.misses)
            }),
            final(self).readout.samples == metrics::counted(old(self).readout.samples),
            final(self).history@ == (if usable(*sample) {
                with_reading(old(self).history@, sample->Ok_0.pins@)
            } else {
                old(self).history@
            }),
            final(self).readout.misses == safety::misses_after(
                usable(*sample),
                old(self).readout.misses,
            ),
    {
        self.readout.link = link;
        let mut good = false;
        let present: Vec<(Condition, String)> = match sample {
            Ok(r) => {
                if r.plausible() {
                    good = true;
                    self.history.push_hist(r);
                    self.readout.status = "ok".to_owned();
                    self.readout.reading = Some(*r);
                    conditions(&evaluate_with(r, thresholds))
                } else {
                    self.readout.status =
                        "implausible reading (wrong device or GPU resetting?)".to_owned();
                    let mut v: Vec<(Condition, String)> = Vec::new();
                    v.push((Condition::TelemetryLost, "implausible reading".to_owned()));
                    assert(lifecycle::said(v@) =~= sample_says(*sample, *thresholds));
                    v
                }
            },
            Err(e) => {
                let mut s = "read failed: ".to_owned();
                s.append(e.as_str());
                self.readout.status = s.clone();
                let mut v: Vec<(Condition, String)> = Vec::new();
                v.push((Condition::TelemetryLost, s));
                assert(lifecycle::said(v@) =~= sample_says(*sample, *thresholds));
                v
            },
        };
        self.readout.live = good;
        self.readout.misses = if good {
            0
        } else if self.readout.misses < u32::MAX {
            self.readout.misses + 1
        } else {
            self.readout.misses
        };
        let events = lifecycle.observe(now, present.as_slice());
        self.take_events(&events, ts);
        if self.readout.samples < u64::MAX {
            self.readout.samples = self.readout.samples + 1;
        }
        events
    }

    /// Whether the card in view is to be looked for again, after sustained failure on a bus that
    /// was found rather than named; asking starts the count anew.
    pub fn redetect_due(&mut self) -> (r: bool)
        requires
            old(self).wf(),
        ensures
            final(self).wf(),
            r == (old(self).deck.auto && old(self).readout.misses >= REDETECT_AFTER),
            final(self).readout.misses == (if r { 0 } else { old(self).readout.misses }),
            final(self).deck == old(self).deck,
            final(self).history == old(self).history,
            final(self).logbook == old(self).logbook,
            final(self).outlook == old(self).outlook,
            final(self).readout.reading == old(self).readout.reading,
            final(self).readout.live == old(self).readout.live,
            final(self).readout.link == old(self).readout.link,
            final(self).readout.status == old(self).readout.status,
            final(self).readout.active == old(self).readout.active,
            final(self).readout.samples == old(self).readout.samples,
            r == crate::monitor::gives_up_the_bus(old(self).deck.auto, old(self).readout.misses),
    {
        if self.deck.auto && self.readout.misses >= REDETECT_AFTER {
            self.readout.misses = 0;
            true
        } else {
            false
        }
    }
}

/// Quitting works from anywhere, even with the help open or a panel zoomed.
pub proof fn law_quit_works_from_anywhere(o: Outlook)
    ensures
        command_of(Key::Char('q'), false, o) == Command::Quit,
        command_of(Key::Char('c'), true, o) == Command::Quit,
{
}

/// The rate keys stay within their bounds, whatever the interval was.
pub proof fn law_rate_keys_stay_in_bounds(d: Duration)
    ensures
        faster(d).nanos >= MIN_INTERVAL_NANOS,
        slower(d).nanos <= MAX_INTERVAL_NANOS,
{
}

/// Going to the next card and back shows the same card again.
pub proof fn law_next_and_previous_undo_each_other(selected: usize, n: nat)
    requires
        selected < n,
        n <= usize::MAX,
    ensures
        selected_after(
            selected_after(selected, n, Command::NextCard) as usize,
            n,
            Command::PreviousCard,
        ) == selected,
        selected_after(
            selected_after(selected, n, Command::PreviousCard) as usize,
            n,
            Command::NextCard,
        ) == selected,
        selected_after(selected, n, Command::NextCard) < n,
        selected_after(selected, n, Command::PreviousCard) < n,
{
    let m = n as int;
    if n >= 2 {
        if selected + 1 < n {
            assert((selected + 1) % m == selected + 1) by (nonlinear_arith)
                requires
                    0 <= selected + 1 < m,
            ;
            assert((selected + 1 + n - 1) % m == selected as int) by (nonlinear_arith)
                requires
                    0 <= selected < m,
                    m == n,
            ;
        } else {
            assert((selected + 1) % m == 0) by (nonlinear_arith)
                requires
                    selected + 1 == m,
                    m > 0,
            ;
            assert((0 + n - 1) % m == n - 1) by (nonlinear_arith)
                requires
                    m == n,
                    m > 0,
            ;
        }
        if selected > 0 {
            assert((selected + n - 1) % m == selected - 1) by (nonlinear_arith)
                requires
                    0 < selected < m,
                    m == n,
            ;
            assert((selected - 1 + 1) % m == selected as int) by (nonlinear_arith)
                requires
                    0 <= selected < m,
            ;
        } else {
            assert((selected + n - 1) % m == n - 1) by (nonlinear_arith)
                requires
                    selected == 0,
                    m == n,
                    m > 0,
            ;
            assert((n - 1 + 1) % m == 0) by (nonlinear_arith)
                requires
                    m == n,
                    m > 0,
            ;
        }
    }
}

} // verus!
