//! What the panels of the dashboard show: texts with their styles, the cells of the bar chart,
//! gauges, and which panels fit.
//!
//! Styling is terminal-theme-respecting: emphasis uses reverse-video rather than hardcoded
//! backgrounds, and without color everything collapses to the terminal's own.

use crate::alert::IMBALANCE_RATIO;
use crate::dashboard;
use crate::dashboard::{App, Deck, History, Hue, LogLine, Logbook, Outlook, Readout};
use crate::decode;
use crate::decode::{Pin, Reading};
use crate::double;
use crate::double::{Double, Number};
use crate::i2c;
use crate::i2c::hex_address_text;
use crate::lifecycle;
use crate::lifecycle::Condition;
use crate::number;
use crate::number::signed_to_text;
use crate::smi::GpuStat;
use crate::text;
use crate::text::{chars_of, decimal_text, repeat_char};
use std::collections::VecDeque;
use vstd::arithmetic::power2::pow2;
use vstd::prelude::*;

verus! {

/// Top of the bar chart, in amps.
pub const AMPS_CEILING: u128 = 10;

/// The per-pin limit: 9.2 A, in milliamps.
pub const LIMIT_MA: u16 = 9_200;

/// Title of the device header.
pub const DEVICE_TITLE: &'static str = " device ";

/// Title of the bar chart.
pub const BARS_TITLE: &'static str = " per-pin current — limit 9.2A · ▔ peak ";

/// Title of the trend chart.
pub const TREND_TITLE: &'static str = " per-pin trend — divergence precedes a melt ";

/// Title of the totals panel.
pub const TOTALS_TITLE: &'static str = " totals ";

/// Title of the power sparkline.
pub const WATTS_TITLE: &'static str = " total watts ";

/// Title of the log pane.
pub const LOG_TITLE: &'static str = " alert log ";

/// Title of the help.
pub const HELP_TITLE: &'static str = " help ";

/// The share of the limit above which a pin is shown as close to it, in thousandths.
pub const NEAR_LIMIT: u64 = 850;

// ---------------------------------------------------------------- styles

/// How a text stands out.
#[derive(Debug, Clone, Copy, PartialEq, Eq, Structural)]
pub enum Look {
    Plain,
    Bold,
    Dim,
    /// Bold, in reverse video.
    Badge,
}

/// The style of a text; without a color it has the terminal's own.
#[derive(Debug, Clone, Copy, PartialEq, Eq, Structural)]
pub struct Style {
    pub fg: Option<Hue>,
    pub look: Look,
}

/// Whether there is color; there is none when `NO_COLOR` is set.
#[derive(Debug, Clone, Copy, PartialEq, Eq, Structural)]
pub struct Theme {
    pub color: bool,
}

/// A color, or the terminal's own where there is none.
pub open spec fn tint(t: Theme, h: Hue) -> Hue {
    if t.color {
        h
    } else {
        Hue::Reset
    }
}

/// Plain text in a color.
pub open spec fn plain(t: Theme, h: Hue) -> Style {
    Style { fg: Some(tint(t, h)), look: Look::Plain }
}

/// Emphasis that adapts to light and dark.
pub open spec fn badge(t: Theme, h: Hue) -> Style {
    Style {
        fg: if t.color {
            Some(h)
        } else {
            None
        },
        look: Look::Badge,
    }
}

/// Text with no style of its own.
pub open spec fn raw() -> Style {
    Style { fg: None, look: Look::Plain }
}

impl Theme {
    /// A color, or the terminal's own where there is none.
    pub fn c(&self, h: Hue) -> (r: Hue)
        ensures
            r == tint(*self, h),
    {
        if self.color {
            h
        } else {
            Hue::Reset
        }
    }

    /// Plain text in a color.
    pub fn plain(&self, h: Hue) -> (s: Style)
        ensures
            s == plain(*self, h),
    {
        Style { fg: Some(self.c(h)), look: Look::Plain }
    }

    /// Emphasis that adapts to light and dark.
    pub fn badge(&self, h: Hue) -> (s: Style)
        ensures
            s == badge(*self, h),
    {
        if self.color {
            Style { fg: Some(h), look: Look::Badge }
        } else {
            Style { fg: None, look: Look::Badge }
        }
    }
}

/// Without color no style asks for one.
pub proof fn law_no_color_means_none(t: Theme, h: Hue)
    requires
        !t.color,
    ensures
        plain(t, h).fg == Some(Hue::Reset),
        badge(t, h).fg is None,
{
}

/// A piece of text with its style.
#[derive(Debug, PartialEq)]
pub struct Span {
    pub text: String,
    pub style: Style,
}

/// What a [`Span`] shows.
#[verifier::ext_equal]
pub struct SpanView {
    pub text: Seq<char>,
    pub style: Style,
}

impl View for Span {
    type V = SpanView;

    open spec fn view(&self) -> SpanView {
        SpanView { text: self.text@, style: self.style }
    }
}

/// What a line shows.
pub open spec fn span_views(v: Seq<Span>) -> Seq<SpanView> {
    v.map_values(|s: Span| s@)
}

/// What some lines show.
pub open spec fn line_views(v: Seq<Vec<Span>>) -> Seq<Seq<SpanView>> {
    v.map_values(|l: Vec<Span>| span_views(l@))
}

/// A piece of text.
pub open spec fn span(text: Seq<char>, style: Style) -> SpanView {
    SpanView { text, style }
}

fn put(line: &mut Vec<Span>, text: String, style: Style)
    ensures
        span_views(final(line)@) == span_views(old(line)@).push(span(text@, style)),
{
    let ghost had = span_views(line@);
    let s = Span { text, style };
    let ghost x = s@;
    line.push(s);
    assert(span_views(line@) =~= had.push(x));
}

fn new_line() -> (line: Vec<Span>)
    ensures
        span_views(line@) == Seq::<SpanView>::empty(),
{
    let line: Vec<Span> = Vec::new();
    assert(span_views(line@) =~= Seq::<SpanView>::empty());
    line
}

fn one_line(text: String, style: Style) -> (line: Vec<Span>)
    ensures
        span_views(line@) == seq![span(text@, style)],
{
    let ghost t = text@;
    let mut line = new_line();
    put(&mut line, text, style);
    assert(span_views(line@) =~= seq![span(t, style)]);
    line
}

// ---------------------------------------------------------------- numbers

/// Total current with one digit after the point.
pub open spec fn amps_text(pins: Seq<Pin>) -> Seq<char> {
    double::fixed(decode::total_amps(pins), 1)
}

/// Power in whole watts.
pub open spec fn watts_text(watts: Number) -> Seq<char> {
    double::fixed(watts, 0)
}

/// A voltage with two digits after the point.
pub open spec fn volts_text(millivolts: u16) -> Seq<char> {
    double::fixed(double::thousandths(millivolts as nat), 2)
}

/// The lowest and highest pin voltage.
pub open spec fn volts_range(pins: Seq<Pin>) -> Seq<char> {
    volts_text(decode::min_volts(pins)) + "–"@ + volts_text(decode::max_volts(pins)) + " V"@
}

fn amps_of(r: &Reading) -> (s: String)
    ensures
        s@ == amps_text(r.pins@),
{
    r.total_amps().fixed(1)
}

fn watts_of(watts: Number) -> (s: String)
    ensures
        s@ == watts_text(watts),
{
    watts.fixed(0)
}

fn volts_of(r: &Reading) -> (s: String)
    ensures
        s@ == volts_range(r.pins@),
{
    let mut s = Number::thousandths(r.min_volts() as u64).fixed(2);
    s.append("–");
    s.append(Number::thousandths(r.max_volts() as u64).fixed(2).as_str());
    s.append(" V");
    s
}

// ---------------------------------------------------------------- tabs and titles

/// The tabs of the first `n` cards.
pub open spec fn tab_spans(
    cards: Seq<dashboard::CardView>,
    selected: int,
    t: Theme,
    n: nat,
) -> Seq<SpanView>
    decreases n,
{
    if n == 0 {
        seq![]
    } else {
        tab_spans(cards, selected, t, (n - 1) as nat).push(
            span(
                " "@ + cards[n - 1].model + " "@,
                if n - 1 == selected {
                    badge(t, Hue::Cyan)
                } else {
                    plain(t, Hue::Gray)
                },
            ),
        ).push(span(" "@, raw()))
    }
}

/// The tabs, one per card.
pub fn tabs(deck: &Deck, t: &Theme) -> (line: Vec<Span>)
    ensures
        span_views(line@) == tab_spans(
            dashboard::card_views(deck.cards@),
            deck.selected as int,
            *t,
            deck.cards@.len(),
        ),
{
    let ghost cards = dashboard::card_views(deck.cards@);
    let mut line = new_line();
    let mut i: usize = 0;
    while i < deck.cards.len()
        invariant
            i <= deck.cards.len(),
            cards == dashboard::card_views(deck.cards@),
            span_views(line@) == tab_spans(cards, deck.selected as int, *t, i as nat),
        decreases deck.cards.len() - i,
    {
        assert(cards[i as int] == deck.cards@[i as int]@);
        let mut s = " ".to_owned();
        s.append(deck.cards[i].model.as_str());
        s.append(" ");
        let style = if i == deck.selected {
            t.badge(Hue::Cyan)
        } else {
            t.plain(Hue::Gray)
        };
        put(&mut line, s, style);
        put(&mut line, " ".to_owned(), Style { fg: None, look: Look::Plain });
        i = i + 1;
    }
    line
}

/// The color of a link: yellow when down-trained.
pub open spec fn link_hue(at_max: bool) -> Hue {
    if at_max {
        Hue::Green
    } else {
        Hue::Yellow
    }
}

/// The link, where it is known.
pub open spec fn link_spans(link: Option<(String, bool)>, t: Theme) -> Seq<SpanView> {
    match link {
        Some((l, at_max)) => seq![span("  PCIe "@ + l@, plain(t, link_hue(at_max)))],
        None => seq![],
    }
}

/// The mark of a paused dashboard.
pub open spec fn pause_spans(paused: bool, t: Theme) -> Seq<SpanView> {
    if paused {
        seq![span("  ⏸ PAUSED"@, badge(t, Hue::Yellow))]
    } else {
        seq![]
    }
}

fn put_link(line: &mut Vec<Span>, link: &Option<(String, bool)>, t: &Theme)
    ensures
        span_views(final(line)@) == span_views(old(line)@) + link_spans(*link, *t),
{
    let ghost had = span_views(line@);
    if let Some((l, at_max)) = link {
        let mut s = "  PCIe ".to_owned();
        s.append(l.as_str());
        let h = if *at_max {
            Hue::Green
        } else {
            Hue::Yellow
        };
        put(line, s, t.plain(h));
    }
    assert(span_views(line@) =~= had + link_spans(*link, *t));
}

fn put_pause(line: &mut Vec<Span>, paused: bool, t: &Theme)
    ensures
        span_views(final(line)@) == span_views(old(line)@) + pause_spans(paused, *t),
{
    let ghost had = span_views(line@);
    if paused {
        put(line, "  ⏸ PAUSED".to_owned(), t.badge(Hue::Yellow));
    }
    assert(span_views(line@) =~= had + pause_spans(paused, *t));
}

/// The one-line header of a short terminal.
pub fn title_compact(app: &App, t: &Theme) -> (line: Vec<Span>)
    requires
        app.wf(),
    ensures
        span_views(line@) == seq![
            span(" astral-watch "@, badge(*t, Hue::Cyan)),
            span(" "@, raw()),
            span(
                app.deck.cards@[app.deck.selected as int].model@,
                plain(*t, Hue::White),
            ),
        ] + link_spans(app.readout.link, *t) + pause_spans(app.outlook.paused, *t),
{
    let card = &app.deck.cards[app.deck.selected];
    let mut line = new_line();
    put(&mut line, " astral-watch ".to_owned(), t.badge(Hue::Cyan));
    put(&mut line, " ".to_owned(), Style { fg: None, look: Look::Plain });
    put(&mut line, card.model.clone(), t.plain(Hue::White));
    assert(span_views(line@) =~= seq![
        span(" astral-watch "@, badge(*t, Hue::Cyan)),
        span(" "@, raw()),
        span(app.deck.cards@[app.deck.selected as int].model@, plain(*t, Hue::White)),
    ]);
    put_link(&mut line, &app.readout.link, t);
    put_pause(&mut line, app.outlook.paused, t);
    line
}

// ---------------------------------------------------------------- the device header

/// The zoomable panels, in key order.
pub open spec fn panel_name(p: int) -> Seq<char> {
    if p == 0 {
        "bars"@
    } else if p == 1 {
        "trend"@
    } else if p == 2 {
        "balance"@
    } else if p == 3 {
        "watts"@
    } else {
        "log"@
    }
}

fn panel_text(p: usize) -> (s: &'static str)
    ensures
        s@ == panel_name(p as int),
{
    if p == 0 {
        "bars"
    } else if p == 1 {
        "trend"
    } else if p == 2 {
        "balance"
    } else if p == 3 {
        "watts"
    } else {
        "log"
    }
}

/// The mark of a down-trained link.
pub open spec fn downtrained_spans(link: Option<(String, bool)>, t: Theme) -> Seq<SpanView> {
    if link is Some && !(link->0).1 {
        seq![span(" ↓"@, plain(t, Hue::Yellow))]
    } else {
        seq![]
    }
}

/// The mark of a zoomed panel.
pub open spec fn focus_spans(focus: Option<usize>, t: Theme) -> Seq<SpanView> {
    match focus {
        Some(p) => seq![span("  ["@ + panel_name(p as int) + "]"@, plain(t, Hue::Cyan))],
        None => seq![],
    }
}

/// The first line of the device header: identity and PCIe link.
pub fn identity_line(app: &App, t: &Theme) -> (line: Vec<Span>)
    requires
        app.wf(),
    ensures
        ({
            let card = app.deck.cards@[app.deck.selected as int];
            span_views(line@) == (seq![
                span(" astral-watch "@, badge(*t, Hue::Cyan)),
                span("  "@, raw()),
                span(
                    card.model@,
                    (Style { fg: Some(tint(*t, Hue::White)), look: Look::Bold }),
                ),
                span("  "@ + card.pci@, plain(*t, Hue::DarkGray)),
            ] + link_spans(app.readout.link, *t) + downtrained_spans(app.readout.link, *t)).push(
                span(
                    "  i2c-"@ + text::decimal(card.bus as nat) + " @ "@ + i2c::hex_address(
                        app.deck.addr as nat,
                    ),
                    plain(*t, Hue::DarkGray),
                ),
            ) + focus_spans(app.outlook.focus, *t) + pause_spans(app.outlook.paused, *t)
        }),
{
    let card = &app.deck.cards[app.deck.selected];
    let mut line = new_line();
    put(&mut line, " astral-watch ".to_owned(), t.badge(Hue::Cyan));
    put(&mut line, "  ".to_owned(), Style { fg: None, look: Look::Plain });
    put(
        &mut line,
        card.model.clone(),
        Style { fg: Some(t.c(Hue::White)), look: Look::Bold },
    );
    let mut pci = "  ".to_owned();
    pci.append(card.pci.as_str());
    put(&mut line, pci, t.plain(Hue::DarkGray));
    assert(span_views(line@) =~= seq![
        span(" astral-watch "@, badge(*t, Hue::Cyan)),
        span("  "@, raw()),
        span(card.model@, (Style { fg: Some(tint(*t, Hue::White)), look: Look::Bold })),
        span("  "@ + card.pci@, plain(*t, Hue::DarkGray)),
    ]);
    put_link(&mut line, &app.readout.link, t);
    let ghost had = span_views(line@);
    if let Some((_, at_max)) = &app.readout.link {
        if !*at_max {
            put(&mut line, " ↓".to_owned(), t.plain(Hue::Yellow));
        }
    }
    assert(span_views(line@) =~= had + downtrained_spans(app.readout.link, *t));
    let mut bus = "  i2c-".to_owned();
    bus.append(decimal_text(card.bus as u128).as_str());
    bus.append(" @ ");
    bus.append(hex_address_text(app.deck.addr).as_str());
    put(&mut line, bus, t.plain(Hue::DarkGray));
    let ghost had = span_views(line@);
    if let Some(p) = app.outlook.focus {
        let mut s = "  [".to_owned();
        s.append(panel_text(p));
        s.append("]");
        put(&mut line, s, t.plain(Hue::Cyan));
    }
    assert(span_views(line@) =~= had + focus_spans(app.outlook.focus, *t));
    put_pause(&mut line, app.outlook.paused, t);
    line
}

/// A share brought into the range from nothing to the whole; what is not a number stays.
pub open spec fn within_one(share: Number) -> Number {
    if double::less(share, double::zero()) {
        double::zero()
    } else if double::less(double::whole(1), share) {
        double::whole(1)
    } else {
        share
    }
}

/// How many of `width` cells a share fills, halves up; none for what is not a number.
pub open spec fn filled(share: Number, width: nat) -> nat {
    double::rounded_off(double::times(within_one(share), double::whole(width)), width)
}

/// An inline text gauge: `LABEL ████░░ value`.
pub open spec fn gauge_spans(
    t: Theme,
    label: Seq<char>,
    fill: nat,
    hue: Hue,
    width: nat,
    value: Seq<char>,
) -> Seq<SpanView> {
    seq![
        span(label + " "@, plain(t, Hue::Gray)),
        span(text::repeated('█', fill), plain(t, hue)),
        span(text::repeated('░', (width - fill) as nat), plain(t, Hue::DarkGray)),
        span(" "@ + value, plain(t, Hue::White)),
    ]
}

fn fill_of(share: Number, width: u16) -> (n: u16)
    ensures
        n == filled(share, width as nat),
        n <= width,
{
    let zero = Number::zero();
    let one = Number::whole(1);
    let share = if share.less(zero) {
        zero
    } else if one.less(share) {
        one
    } else {
        share
    };
    share.times(Number::whole(width as u128)).rounded_off(width as u64) as u16
}

fn put_gauge(
    line: &mut Vec<Span>,
    t: &Theme,
    label: &str,
    fill: usize,
    hue: Hue,
    width: usize,
    value: &str,
)
    requires
        fill <= width,
    ensures
        span_views(final(line)@) == span_views(old(line)@) + gauge_spans(
            *t,
            label@,
            fill as nat,
            hue,
            width as nat,
            value@,
        ),
{
    let ghost had = span_views(line@);
    let mut head = label.to_owned();
    head.append(" ");
    put(line, head, t.plain(Hue::Gray));
    put(line, repeat_char('█', fill), t.plain(hue));
    put(line, repeat_char('░', width - fill), t.plain(Hue::DarkGray));
    let mut tail = " ".to_owned();
    tail.append(value);
    put(line, tail, t.plain(Hue::White));
    assert(span_views(line@) =~= had + gauge_spans(
        *t,
        label@,
        fill as nat,
        hue,
        width as nat,
        value@,
    ));
}

/// The color of a share: red close to the limit, yellow before that.
pub open spec fn power_hue(share: Number) -> Hue {
    if double::less(double::thousandths(970), share) {
        Hue::Red
    } else if double::less(double::thousandths(850), share) {
        Hue::Yellow
    } else {
        Hue::Green
    }
}

/// The color of a temperature.
pub open spec fn temp_hue(c: i32) -> Hue {
    if c >= 85 {
        Hue::Red
    } else if c >= 75 {
        Hue::Yellow
    } else {
        Hue::Green
    }
}

/// Whether a limit is above zero.
pub open spec fn positive_limit(limit: Option<Number>) -> bool {
    limit is Some && double::less(double::zero(), limit->0)
}

/// The load gauge.
pub open spec fn util_spans(util: Option<u8>, t: Theme) -> Seq<SpanView> {
    match util {
        Some(u) => gauge_spans(
            t,
            "GPU"@,
            filled(double::over(double::whole(u as nat), double::whole(100)), 10),
            Hue::Cyan,
            10,
            text::decimal(u as nat) + "%"@,
        ).push(span("   "@, raw())),
        None => seq![],
    }
}

/// The power gauge, or only the draw where the limit is unknown.
pub open spec fn power_spans(draw: Option<Number>, limit: Option<Number>, t: Theme) -> Seq<SpanView> {
    match draw {
        None => seq![],
        Some(d) => if positive_limit(limit) {
            let share = double::over(d, limit->0);
            gauge_spans(
                t,
                "PWR"@,
                filled(share, 10),
                power_hue(share),
                10,
                double::fixed(d, 0) + "/"@ + double::fixed(limit->0, 0) + "W"@,
            ).push(span("   "@, raw()))
        } else {
            seq![span("PWR "@ + double::fixed(d, 0) + "W   "@, plain(t, Hue::White))]
        },
    }
}

/// Temperature and fan.
pub open spec fn thermal_spans(temp: Option<i32>, fan: Option<u8>, t: Theme) -> Seq<SpanView> {
    (match temp {
        Some(c) => seq![
            span(number::signed_text(c as int) + "°C  "@, plain(t, temp_hue(c))),
        ],
        None => seq![],
    }) + (match fan {
        Some(f) => seq![span("fan "@ + text::decimal(f as nat) + "%"@, plain(t, Hue::Gray))],
        None => seq![],
    })
}

fn put_util(line: &mut Vec<Span>, util: Option<u8>, t: &Theme)
    ensures
        span_views(final(line)@) == span_views(old(line)@) + util_spans(util, *t),
{
    let ghost had = span_views(line@);
    if let Some(u) = util {
        let mut v = decimal_text(u as u128);
        v.append("%");
        let share = Number::whole(u as u128).over(Number::whole(100));
        put_gauge(line, t, "GPU", fill_of(share, 10) as usize, Hue::Cyan, 10, v.as_str());
        put(line, "   ".to_owned(), Style { fg: None, look: Look::Plain });
    }
    assert(span_views(line@) =~= had + util_spans(util, *t));
}

fn put_power(line: &mut Vec<Span>, draw: Option<Number>, limit: Option<Number>, t: &Theme)
    ensures
        span_views(final(line)@) == span_views(old(line)@) + power_spans(draw, limit, *t),
{
    let ghost had = span_views(line@);
    if let Some(d) = draw {
        let positive = match limit {
            Some(l) => Number::zero().less(l),
            None => false,
        };
        match limit {
            Some(l) if positive => {
                let share = d.over(l);
                let hue = if Number::thousandths(970).less(share) {
                    Hue::Red
                } else if Number::thousandths(850).less(share) {
                    Hue::Yellow
                } else {
                    Hue::Green
                };
                let mut v = d.fixed(0);
                v.append("/");
                v.append(l.fixed(0).as_str());
                v.append("W");
                put_gauge(line, t, "PWR", fill_of(share, 10) as usize, hue, 10, v.as_str());
                put(line, "   ".to_owned(), Style { fg: None, look: Look::Plain });
            },
            _ => {
                let mut s = "PWR ".to_owned();
                s.append(d.fixed(0).as_str());
                s.append("W   ");
                put(line, s, t.plain(Hue::White));
            },
        }
    }
    assert(span_views(line@) =~= had + power_spans(draw, limit, *t));
}

fn put_thermal(line: &mut Vec<Span>, temp: Option<i32>, fan: Option<u8>, t: &Theme)
    ensures
        span_views(final(line)@) == span_views(old(line)@) + thermal_spans(temp, fan, *t),
{
    let ghost had = span_views(line@);
    if let Some(c) = temp {
        let mut s = signed_to_text(c);
        s.append("°C  ");
        let h = if c >= 85 {
            Hue::Red
        } else if c >= 75 {
            Hue::Yellow
        } else {
            Hue::Green
        };
        put(line, s, t.plain(h));
    }
    if let Some(f) = fan {
        let mut s = "fan ".to_owned();
        s.append(decimal_text(f as u128).as_str());
        s.append("%");
        put(line, s, t.plain(Hue::Gray));
    }
    assert(span_views(line@) =~= had + thermal_spans(temp, fan, *t));
}

/// The second line of the device header: load, power, temperature and fan, or a note when
/// `nvidia-smi` says nothing about the card.
pub fn gpu_line(stat: &Option<GpuStat>, t: &Theme) -> (line: Vec<Span>)
    ensures
        span_views(line@) == (match *stat {
            Some(g) => util_spans(g.util, *t) + power_spans(g.draw_w, g.limit_w, *t)
                + thermal_spans(g.temp_c, g.fan, *t),
            None => seq![
                span(
                    "GPU stats: nvidia-smi not available (connector data only)"@,
                    plain(*t, Hue::DarkGray),
                ),
            ],
        }),
{
    match stat {
        Some(g) => {
            let mut line = new_line();
            put_util(&mut line, g.util, t);
            assert(span_views(line@) =~= util_spans(g.util, *t));
            put_power(&mut line, g.draw_w, g.limit_w, t);
            put_thermal(&mut line, g.temp_c, g.fan, t);
            line
        },
        None => one_line(
            "GPU stats: nvidia-smi not available (connector data only)".to_owned(),
            t.plain(Hue::DarkGray),
        ),
    }
}

/// The balance ratio in words.
pub open spec fn balance_words(pins: Seq<Pin>) -> Seq<char> {
    match decode::balance(pins) {
        Some(r) => double::fixed(r, 2) + "×"@,
        None => "—"@,
    }
}

/// The third line of the device header: what the connector carries, marked when stale, or the
/// status while nothing was read.
pub fn connector_line(o: &Readout, t: &Theme) -> (line: Vec<Span>)
    ensures
        span_views(line@) == seq![
            match o.reading {
                Some(r) => span(
                    (if o.live {
                        "connector  "@
                    } else {
                        "STALE · connector  "@
                    }) + amps_text(r.pins@) + " A · "@ + watts_text(decode::total_watts(r.pins@))
                        + " W · balance "@ + balance_words(r.pins@) + " · pins "@ + volts_range(
                        r.pins@,
                    ),
                    plain(
                        *t,
                        if o.live {
                            Hue::Gray
                        } else {
                            Hue::Yellow
                        },
                    ),
                ),
                None => span(o.status@, plain(*t, Hue::Yellow)),
            },
        ],
{
    match &o.reading {
        Some(r) => {
            let mut s = (if o.live {
                "connector  "
            } else {
                "STALE · connector  "
            }).to_owned();
            s.append(amps_of(r).as_str());
            s.append(" A · ");
            s.append(watts_of(r.total_watts()).as_str());
            s.append(" W · balance ");
            let bal = match r.balance() {
                Some(b) => {
                    let mut x = b.fixed(2);
                    x.append("×");
                    x
                },
                None => "—".to_owned(),
            };
            s.append(bal.as_str());
            s.append(" · pins ");
            s.append(volts_of(r).as_str());
            let h = if o.live {
                Hue::Gray
            } else {
                Hue::Yellow
            };
            one_line(s, t.plain(h))
        },
        None => one_line(o.status.clone(), t.plain(Hue::Yellow)),
    }
}

// ---------------------------------------------------------------- the alarm banner

/// The labels of the active conditions.
pub open spec fn labels(active: Seq<Condition>) -> Seq<Seq<char>> {
    active.map_values(|c: Condition| lifecycle::condition_label(c))
}

/// The alarm banner.
pub fn alarm_text(active: &Vec<Condition>) -> (s: String)
    ensures
        s@ == "  ⚠  ALERT: "@ + text::joined(labels(active@), "  +  "@) + "  ⚠"@,
{
    let ghost all = labels(active@);
    let mut names: Vec<String> = Vec::new();
    let mut i: usize = 0;
    assert(text::views(names@) =~= all.take(0));
    while i < active.len()
        invariant
            i <= active.len(),
            all == labels(active@),
            text::views(names@) == all.take(i as int),
        decreases active.len() - i,
    {
        let ghost had = text::views(names@);
        let n = active[i].label().to_owned();
        let ghost said = n@;
        names.push(n);
        assert(text::views(names@) =~= had.push(said));
        assert(all.take(i + 1) =~= had.push(said));
        i = i + 1;
    }
    assert(all.take(all.len() as int) =~= all);
    let mut s = "  ⚠  ALERT: ".to_owned();
    s.append(text::join(&names, "  +  ").as_str());
    s.append("  ⚠");
    s
}

// ---------------------------------------------------------------- the bar chart

/// The color of a pin's bar.
pub open spec fn pin_hue(milliamps: u16, live: bool) -> Hue {
    if !live {
        Hue::DarkGray
    } else if milliamps > LIMIT_MA {
        Hue::Red
    } else if is_near_limit(milliamps) {
        Hue::Yellow
    } else if milliamps == 0 {
        Hue::DarkGray
    } else {
        Hue::Green
    }
}

/// Whether a current is close to the limit.
pub open spec fn is_near_limit(milliamps: u16) -> bool {
    double::less(
        double::times(double::thousandths(LIMIT_MA as nat), double::thousandths(NEAR_LIMIT as nat)),
        double::thousandths(milliamps as nat),
    )
}

fn near_limit(milliamps: u16) -> (r: bool)
    ensures
        r == is_near_limit(milliamps),
{
    let limit = Number::thousandths(LIMIT_MA as u64).times(Number::thousandths(NEAR_LIMIT));
    limit.less(Number::thousandths(milliamps as u64))
}

/// The color of a pin's bar.
pub fn pin_color(milliamps: u16, live: bool) -> (h: Hue)
    ensures
        h == pin_hue(milliamps, live),
{
    if !live {
        Hue::DarkGray
    } else if milliamps > LIMIT_MA {
        Hue::Red
    } else if near_limit(milliamps) {
        Hue::Yellow
    } else if milliamps == 0 {
        Hue::DarkGray
    } else {
        Hue::Green
    }
}

/// How many rows of a bar chart of `height` rows a current fills.
pub open spec fn rows_for(milliamps: u16, height: nat) -> nat {
    filled(
        double::over(double::thousandths(milliamps as nat), double::whole(AMPS_CEILING as nat)),
        height,
    )
}

/// The level (counted from the bottom) at which a current ends.
pub open spec fn top_level(milliamps: u16, height: nat) -> nat {
    let n = rows_for(milliamps, height);
    if n > 0 {
        (n - 1) as nat
    } else {
        0
    }
}

/// The character of a text centered in a slot at a column, if the text reaches there.
pub open spec fn centered(s: Seq<char>, slot: nat, col: int) -> Option<char> {
    let off = if slot > s.len() {
        (slot - s.len()) / 2
    } else {
        0
    };
    if off <= col < off + s.len() {
        Some(s[col - off])
    } else {
        None
    }
}

/// A character in a cell.
#[derive(Debug, Clone, Copy, PartialEq, Eq, Structural)]
pub struct Glyph {
    pub ch: char,
    pub style: Style,
}

/// What is charted.
#[derive(Debug, Clone, Copy, PartialEq, Eq)]
pub struct Bars {
    /// Columns of the chart.
    pub width: u16,
    /// Rows of the chart, the labels included.
    pub height: u16,
    /// Current per pin, in milliamps.
    pub amps: [u16; 6],
    /// Session peak per pin, in milliamps.
    pub peaks: [u16; 6],
    pub live: bool,
    /// How many rows each pin fills.
    pub rows: [u16; 6],
    /// The level of each peak.
    pub tops: [u16; 6],
    /// The level of the limit.
    pub limit: u16,
    /// The color of each pin.
    pub hues: [Hue; 6],
}

/// Rows of the bars, without the labels.
pub open spec fn bar_rows(height: u16) -> nat {
    if height >= 2 {
        (height - 2) as nat
    } else {
        0
    }
}

/// A centered text in a style.
pub open spec fn text_glyph(s: Seq<char>, slot: nat, col: int, style: Style) -> Option<Glyph> {
    match centered(s, slot, col) {
        Some(ch) => Some(Glyph { ch, style }),
        None => None,
    }
}

/// The cell in column `x` and row `y` of the chart: one slot per pin, with the label in the last
/// row, the value above it, and the bar over both; the session peak caps a bar, and the limit is
/// drawn across where nothing else is.
pub open spec fn bar_glyph(b: Bars, t: Theme, x: int, y: int) -> Option<Glyph> {
    let slot = b.width as int / 6;
    if b.width < 6 || b.height < 3 || x < 0 || x >= slot * 6 || y < 0 || y >= b.height {
        None
    } else {
        let pin = x / slot;
        let col = x % slot;
        let bar_width = if slot > 1 {
            slot - 1
        } else {
            1
        };
        let bar_height = (b.height - 2) as nat;
        let level = b.height - 3 - y;
        let amps = b.amps@[pin];
        let peak = b.peaks@[pin];
        if y == b.height - 1 {
            text_glyph(
                "p"@ + text::decimal((pin + 1) as nat),
                slot as nat,
                col,
                plain(t, Hue::Gray),
            )
        } else if y == b.height - 2 {
            text_glyph(
                double::fixed(double::thousandths(amps as nat), 1),
                slot as nat,
                col,
                plain(t, pin_hue(amps, b.live)),
            )
        } else if col < bar_width && peak > 0 && level == top_level(peak, bar_height) {
            Some(
                Glyph {
                    ch: '▔',
                    style: Style { fg: Some(tint(t, Hue::White)), look: Look::Dim },
                },
            )
        } else if col < bar_width && level < rows_for(amps, bar_height) {
            Some(Glyph { ch: '█', style: plain(t, pin_hue(amps, b.live)) })
        } else if level == top_level(LIMIT_MA, bar_height) {
            Some(
                Glyph {
                    ch: '┄',
                    style: Style { fg: Some(tint(t, Hue::Red)), look: Look::Dim },
                },
            )
        } else {
            None
        }
    }
}

fn rows_of(milliamps: u16, height: u16) -> (n: u16)
    ensures
        n == rows_for(milliamps, height as nat),
        n <= height,
{
    let share = Number::thousandths(milliamps as u64).over(Number::whole(AMPS_CEILING));
    fill_of(share, height)
}

fn top_of(milliamps: u16, height: u16) -> (n: u16)
    ensures
        n == top_level(milliamps, height as nat),
        n <= height,
{
    let n: u16 = rows_of(milliamps, height);
    if n > 0 {
        n - 1
    } else {
        0
    }
}

fn centered_glyph(s: &str, slot: u16, col: u16, style: Style) -> (g: Option<Glyph>)
    requires
        col < slot,
    ensures
        g == text_glyph(s@, slot as nat, col as int, style),
{
    let v = chars_of(s);
    let off: usize = if slot as usize > v.len() {
        (slot as usize - v.len()) / 2
    } else {
        0
    };
    let c: usize = col as usize;
    if off <= c && c - off < v.len() {
        Some(Glyph { ch: v[c - off], style })
    } else {
        None
    }
}

impl Bars {
    /// What a chart of this size shows of a readout and the session's peaks.
    pub fn new(width: u16, height: u16, o: &Readout, peaks: &[u16; 6]) -> (b: Bars)
        ensures
            b.wf(),
            b.width == width,
            b.height == height,
            b.peaks == *peaks,
            b.live == o.live,
            forall|i: int|
                0 <= i < 6 ==> #[trigger] b.amps@[i] == (match o.reading {
                    Some(r) => r.pins@[i].milliamps,
                    None => 0,
                }),
    {
        let amps: [u16; 6] = match &o.reading {
            Some(r) => [
                r.pins[0].milliamps,
                r.pins[1].milliamps,
                r.pins[2].milliamps,
                r.pins[3].milliamps,
                r.pins[4].milliamps,
                r.pins[5].milliamps,
            ],
            None => [0, 0, 0, 0, 0, 0],
        };
        let inner: u16 = if height >= 2 {
            height - 2
        } else {
            0
        };
        let mut rows: [u16; 6] = [0, 0, 0, 0, 0, 0];
        let mut tops: [u16; 6] = [0, 0, 0, 0, 0, 0];
        let mut hues: [Hue; 6] = [Hue::Gray, Hue::Gray, Hue::Gray, Hue::Gray, Hue::Gray, Hue::Gray];
        let mut i: usize = 0;
        while i < 6
            invariant
                i <= 6,
                forall|j: int|
                    0 <= j < i ==> #[trigger] rows@[j] == rows_for(amps@[j], inner as nat),
                forall|j: int|
                    0 <= j < i ==> #[trigger] tops@[j] == top_level(peaks@[j], inner as nat),
                forall|j: int| 0 <= j < i ==> #[trigger] hues@[j] == pin_hue(amps@[j], o.live),
            decreases 6 - i,
        {
            rows[i] = rows_of(amps[i], inner);
            tops[i] = top_of(peaks[i], inner);
            hues[i] = pin_color(amps[i], o.live);
            i = i + 1;
        }
        let limit: u16 = top_of(LIMIT_MA, inner);
        Bars { width, height, amps, peaks: *peaks, live: o.live, rows, tops, limit, hues }
    }

    /// What was worked out for the chart is right for its size and currents.
    pub open spec fn wf(&self) -> bool {
        &&& forall|i: int|
            0 <= i < 6 ==> #[trigger] self.rows@[i] == rows_for(self.amps@[i], bar_rows(self.height))
        &&& forall|i: int|
            0 <= i < 6 ==> #[trigger] self.tops@[i] == top_level(self.peaks@[i], bar_rows(self.height))
        &&& forall|i: int|
            0 <= i < 6 ==> #[trigger] self.hues@[i] == pin_hue(self.amps@[i], self.live)
        &&& self.limit == top_level(LIMIT_MA, bar_rows(self.height))
    }

    /// The cell in column `x` and row `y`, if anything is drawn there.
    pub fn cell(&self, t: &Theme, x: u16, y: u16) -> (g: Option<Glyph>)
        requires
            self.wf(),
        ensures
            g == bar_glyph(*self, *t, x as int, y as int),
    {
        if self.width < 6 || self.height < 3 {
            return None;
        }
        let slot: u16 = self.width / 6;
        if x >= slot * 6 || y >= self.height {
            return None;
        }
        let pin: u16 = x / slot;
        let col: u16 = x % slot;
        assert(0 <= pin < 6) by (nonlinear_arith)
            requires
                pin == x / slot,
                0 <= x < slot * 6,
                slot > 0,
        ;
        let amps: u16 = self.amps[pin as usize];
        let peak: u16 = self.peaks[pin as usize];
        if y == self.height - 1 {
            let mut s = "p".to_owned();
            s.append(decimal_text(pin as u128 + 1).as_str());
            return centered_glyph(s.as_str(), slot, col, t.plain(Hue::Gray));
        }
        if y == self.height - 2 {
            return centered_glyph(
                Number::thousandths(amps as u64).fixed(1).as_str(),
                slot,
                col,
                t.plain(self.hues[pin as usize]),
            );
        }
        let bar_width: u16 = if slot > 1 {
            slot - 1
        } else {
            1
        };
        let level: u16 = self.height - 3 - y;
        if col < bar_width && peak > 0 && level == self.tops[pin as usize] {
            Some(
                Glyph {
                    ch: '▔',
                    style: Style { fg: Some(t.c(Hue::White)), look: Look::Dim },
                },
            )
        } else if col < bar_width && level < self.rows[pin as usize] {
            Some(Glyph { ch: '█', style: t.plain(self.hues[pin as usize]) })
        } else if level == self.limit {
            Some(
                Glyph { ch: '┄', style: Style { fg: Some(t.c(Hue::Red)), look: Look::Dim } },
            )
        } else {
            None
        }
    }
}

/// The limit line never punches holes through a bar: where a bar is filled, the limit is not
/// drawn.
pub proof fn law_the_limit_line_leaves_bars_whole(b: Bars, t: Theme, x: int, y: int)
    requires
        bar_glyph(b, t, x, y) is Some,
        bar_glyph(b, t, x, y)->0.ch == '┄',
        0 <= y < b.height - 2,
    ensures
        ({
            let slot = b.width as int / 6;
            let bar_width = if slot > 1 {
                slot - 1
            } else {
                1
            };
            x % slot >= bar_width || b.height - 3 - y >= rows_for(
                b.amps@[x / slot],
                (b.height - 2) as nat,
            )
        }),
{
}

/// A higher current never gives a lower bar, and none fills more than the chart.
pub proof fn law_bars_grow_with_current(a: u16, b: u16, height: u16)
    requires
        a <= b,
    ensures
        rows_for(a, height as nat) <= rows_for(b, height as nat) <= height,
{
    double::lemma_thousandths(a as nat, b as nat);
    double::lemma_whole(1);
    double::lemma_whole(10);
    double::lemma_whole(height as nat);
    let ten = double::whole(10)->size;
    let one = double::whole(1)->size;
    let tall = double::whole(height as nat)->size;
    let x = double::thousandths(a as nat)->size;
    let y = double::thousandths(b as nat)->size;
    assert(double::above(ten) >= double::below(ten) && ten.significand > 0) by {
        double::lemma_size_positive(ten);
    }
    double::lemma_quotient_grows(x, y, ten);
    let p = double::quotient(x, ten)->0;
    let q = double::quotient(y, ten)->0;
    let u = lemma_within_one(p);
    let v = lemma_within_one(q);
    double::lemma_product_grows(u, v, tall);
    double::lemma_rounded_off_grows(
        double::product(u, tall)->0,
        double::product(v, tall)->0,
        height as nat,
    );
}

/// A size that is brought down to one, if it is above.
pub proof fn lemma_within_one(x: Double) -> (y: Double)
    requires
        x.wf(),
    ensures
        within_one(Number::Finite { negative: false, size: x }) == (Number::Finite {
            negative: false,
            size: y,
        }),
        y.wf(),
        double::weight(y) == (if double::weight(x) <= pow2(1074) {
            double::weight(x)
        } else {
            pow2(1074)
        }),
{
    double::lemma_whole(1);
    let one = double::whole(1)->size;
    double::lemma_smaller_by_weight(one, x);
    double::lemma_size_positive(x);
    assert(1 * pow2(1074) == pow2(1074)) by (nonlinear_arith);
    let none = double::zero_size();
    double::lemma_size_positive(none);
    let (p, q, r) = (double::above(x), double::below(x), double::below(none));
    assert(p * r >= 0 && 0 * q == 0) by (nonlinear_arith)
        requires
            p >= 0,
            r >= 0,
    ;
    if double::smaller(one, x) {
        one
    } else {
        x
    }
}

// ---------------------------------------------------------------- the trend chart

/// `top` is the highest current in the history, or the limit where nothing is higher.
pub open spec fn is_trend_top(h: dashboard::HistoryView, top: u16) -> bool {
    &&& top >= LIMIT_MA
    &&& forall|i: int, j: int|
        0 <= i < h.pins.len() && 0 <= j < h.pins[i].len() ==> #[trigger] h.pins[i][j] <= top
    &&& top == LIMIT_MA || exists|i: int, j: int|
        0 <= i < h.pins.len() && 0 <= j < h.pins[i].len() && #[trigger] h.pins[i][j] == top
}

/// The top of the trend chart, in milliamps.
pub fn trend_top(h: &History) -> (top: u16)
    ensures
        is_trend_top(h@, top),
{
    let ghost all = h@.pins;
    let mut top: u16 = LIMIT_MA;
    let mut i: usize = 0;
    while i < h.pins.len()
        invariant
            i <= h.pins.len(),
            all == h@.pins,
            all.len() == h.pins@.len(),
            top >= LIMIT_MA,
            forall|a: int, b: int|
                0 <= a < i && 0 <= b < all[a].len() ==> #[trigger] all[a][b] <= top,
            top == LIMIT_MA || exists|a: int, b: int|
                0 <= a < all.len() && 0 <= b < all[a].len() && #[trigger] all[a][b] == top,
        decreases h.pins.len() - i,
    {
        assert(all[i as int] == h.pins@[i as int]@);
        let q: &VecDeque<u16> = &h.pins[i];
        let mut j: usize = 0;
        while j < q.len()
            invariant
                i < h.pins.len(),
                j <= q@.len(),
                q@ == all[i as int],
                all.len() == h.pins@.len(),
                top >= LIMIT_MA,
                forall|a: int, b: int|
                    0 <= a < i && 0 <= b < all[a].len() ==> #[trigger] all[a][b] <= top,
                forall|b: int| 0 <= b < j ==> #[trigger] all[i as int][b] <= top,
                top == LIMIT_MA || exists|a: int, b: int|
                    0 <= a < all.len() && 0 <= b < all[a].len() && #[trigger] all[a][b] == top,
            decreases q@.len() - j,
        {
            let x: u16 = q[j];
            assert(all[i as int][j as int] == x);
            if x > top {
                top = x;
            }
            j = j + 1;
        }
        i = i + 1;
    }
    top
}

/// The label at the top of the trend chart.
pub fn trend_label(top: u16) -> (s: String)
    ensures
        s@ == double::fixed(double::thousandths(top as nat), 0) + "A"@,
{
    let mut s = Number::thousandths(top as u64).fixed(0);
    s.append("A");
    s
}

/// The color of a pin's line.
pub open spec fn line_hue(pin: int) -> Hue {
    if pin == 0 {
        Hue::Cyan
    } else if pin == 1 {
        Hue::Green
    } else if pin == 2 {
        Hue::Yellow
    } else if pin == 3 {
        Hue::Magenta
    } else if pin == 4 {
        Hue::Blue
    } else {
        Hue::LightRed
    }
}

/// The color of a pin's line.
pub fn line_color(pin: usize, t: &Theme) -> (h: Hue)
    ensures
        h == tint(*t, line_hue(pin as int)),
{
    t.c(
        if pin == 0 {
            Hue::Cyan
        } else if pin == 1 {
            Hue::Green
        } else if pin == 2 {
            Hue::Yellow
        } else if pin == 3 {
            Hue::Magenta
        } else if pin == 4 {
            Hue::Blue
        } else {
            Hue::LightRed
        },
    )
}

// ---------------------------------------------------------------- totals

/// The lines of the totals panel.
pub open spec fn stats_view(o: Readout, peak_watts: Number, t: Theme) -> Seq<Seq<SpanView>> {
    match o.reading {
        Some(r) => seq![
            seq![
                span(
                    (if o.live {
                        ""@
                    } else {
                        "STALE "@
                    }) + amps_text(r.pins@) + " A"@,
                    plain(
                        t,
                        if o.live {
                            Hue::White
                        } else {
                            Hue::Yellow
                        },
                    ),
                ),
                span(
                    "   ~"@ + watts_text(decode::total_watts(r.pins@)) + " W"@,
                    plain(t, Hue::White),
                ),
                span("   peak "@ + watts_text(peak_watts) + " W"@, plain(t, Hue::DarkGray)),
            ],
            seq![
                span(
                    "pins "@ + volts_range(r.pins@) + "   ·   samples "@ + text::decimal(
                        o.samples as nat,
                    ),
                    plain(t, Hue::Gray),
                ),
            ],
        ],
        None => seq![seq![span(o.status@, plain(t, Hue::Yellow))]],
    }
}

/// The lines of the totals panel.
pub fn stats_lines(o: &Readout, peak_watts: Number, t: &Theme) -> (lines: Vec<Vec<Span>>)
    ensures
        line_views(lines@) == stats_view(*o, peak_watts, *t),
{
    let mut lines: Vec<Vec<Span>> = Vec::new();
    match &o.reading {
        Some(r) => {
            let mut first = new_line();
            let mut amps = (if o.live {
                ""
            } else {
                "STALE "
            }).to_owned();
            amps.append(amps_of(r).as_str());
            amps.append(" A");
            let h = if o.live {
                Hue::White
            } else {
                Hue::Yellow
            };
            put(&mut first, amps, t.plain(h));
            let mut watts = "   ~".to_owned();
            watts.append(watts_of(r.total_watts()).as_str());
            watts.append(" W");
            put(&mut first, watts, t.plain(Hue::White));
            let mut peak = "   peak ".to_owned();
            peak.append(watts_of(peak_watts).as_str());
            peak.append(" W");
            put(&mut first, peak, t.plain(Hue::DarkGray));
            let mut s = "pins ".to_owned();
            s.append(volts_of(r).as_str());
            s.append("   ·   samples ");
            s.append(decimal_text(o.samples as u128).as_str());
            let second = one_line(s, t.plain(Hue::Gray));
            let ghost expected = stats_view(*o, peak_watts, *t);
            assert(span_views(first@) =~= expected[0]);
            assert(span_views(second@) =~= expected[1]);
            lines.push(first);
            lines.push(second);
            assert(line_views(lines@) =~= expected);
        },
        None => {
            let only = one_line(o.status.clone(), t.plain(Hue::Yellow));
            lines.push(only);
            assert(line_views(lines@) =~= stats_view(*o, peak_watts, *t));
        },
    }
    lines
}

// ---------------------------------------------------------------- the balance gauge

/// Where a balance ratio stands.
#[derive(Debug, Clone, Copy, PartialEq, Eq, Structural)]
pub enum Zone {
    Normal,
    Warn,
    Alarm,
    Idle,
}

/// The balance ratio above which there is a warning: two thirds of the way from 1 to the alarm.
pub open spec fn warn_ratio() -> Number {
    let span = double::minus(double::thousandths(IMBALANCE_RATIO as nat), double::whole(1));
    double::plus(double::whole(1), double::times(span, double::thousandths(660)))
}

/// Where a balance ratio stands.
pub open spec fn zone_of(balance: Option<Number>) -> Zone {
    match balance {
        Some(r) => if double::less(double::thousandths(IMBALANCE_RATIO as nat), r) {
            Zone::Alarm
        } else if double::less(warn_ratio(), r) {
            Zone::Warn
        } else {
            Zone::Normal
        },
        None => Zone::Idle,
    }
}

/// The color of a zone.
pub open spec fn zone_hue(z: Zone) -> Hue {
    match z {
        Zone::Normal => Hue::Green,
        Zone::Warn => Hue::Yellow,
        Zone::Alarm => Hue::Red,
        Zone::Idle => Hue::DarkGray,
    }
}

/// The word for a zone.
pub open spec fn zone_word(z: Zone) -> Seq<char> {
    match z {
        Zone::Normal => "NORMAL"@,
        Zone::Warn => "WARN"@,
        Zone::Alarm => "ALARM"@,
        Zone::Idle => "idle"@,
    }
}

/// How far a ratio has come from 1 towards the alarm.
pub open spec fn balance_share(balance: Option<Number>) -> Number {
    match balance {
        Some(r) => within_one(
            double::over(
                double::minus(r, double::whole(1)),
                double::minus(double::thousandths(IMBALANCE_RATIO as nat), double::whole(1)),
            ),
        ),
        None => double::zero(),
    }
}

/// The balance gauge.
#[derive(Debug, PartialEq)]
pub struct BalanceGauge {
    pub title: String,
    pub label: String,
    pub hue: Hue,
    /// The filled share.
    pub share: Number,
}

/// The balance ratio of the readout.
pub open spec fn readout_balance(o: Readout) -> Option<Number> {
    match o.reading {
        Some(r) => decode::balance(r.pins@),
        None => None,
    }
}

/// The balance gauge: green, yellow or red with a status word, empty while nothing is live.
pub fn balance_gauge(o: &Readout, peak: Number, t: &Theme) -> (g: BalanceGauge)
    ensures
        g.share.wf(),
        ({
            let bal = readout_balance(*o);
            &&& g.hue == tint(*t, zone_hue(zone_of(bal)))
            &&& g.label@ == (match bal {
                Some(r) => double::fixed(r, 2) + "×  "@ + zone_word(zone_of(bal)),
                None => "—  idle"@,
            })
            &&& g.title@ == " balance hi/lo · alarm >1.5× · peak "@ + double::fixed(peak, 2) + "× "@
            &&& g.share == (if o.live {
                balance_share(bal)
            } else {
                double::zero()
            })
        }),
{
    let bal = match &o.reading {
        Some(r) => r.balance(),
        None => None,
    };
    let zero = Number::zero();
    let one = Number::whole(1);
    let alarm = Number::thousandths(IMBALANCE_RATIO);
    let span = alarm.minus(one);
    let (hue, label, share): (Hue, String, Number) = match bal {
        Some(r) => {
            let (hue, word) = if alarm.less(r) {
                (Hue::Red, "ALARM")
            } else if one.plus(span.times(Number::thousandths(660))).less(r) {
                (Hue::Yellow, "WARN")
            } else {
                (Hue::Green, "NORMAL")
            };
            let mut label = r.fixed(2);
            label.append("×  ");
            label.append(word);
            let share = r.minus(one).over(span);
            let share = if share.less(zero) {
                zero
            } else if one.less(share) {
                one
            } else {
                share
            };
            (hue, label, share)
        },
        None => (Hue::DarkGray, "—  idle".to_owned(), zero),
    };
    let mut title = " balance hi/lo · alarm >1.5× · peak ".to_owned();
    title.append(peak.fixed(2).as_str());
    title.append("× ");
    BalanceGauge {
        title,
        label,
        hue: t.c(hue),
        share: if o.live {
            share
        } else {
            zero
        },
    }
}

// ---------------------------------------------------------------- the log pane

/// A line of the log.
pub open spec fn log_spans(l: dashboard::LogLineView, t: Theme) -> Seq<SpanView> {
    seq![span(l.ts + " "@, plain(t, Hue::DarkGray)), span(l.text, plain(t, l.hue))]
}

/// The lines a log pane of `rows` rows shows.
pub fn log_lines(log: &Logbook, rows: usize, t: &Theme) -> (lines: Vec<Vec<Span>>)
    ensures
        ({
            let w = dashboard::window_of(log@.lines.len(), log@.scroll, rows as nat);
            line_views(lines@) == log@.lines.subrange(w.0, w.1).map_values(
                |l: dashboard::LogLineView| log_spans(l, *t),
            )
        }),
{
    let (start, end) = log.window(rows);
    let ghost all = log@.lines;
    let ghost expected = all.subrange(start as int, end as int).map_values(
        |l: dashboard::LogLineView| log_spans(l, *t),
    );
    let mut lines: Vec<Vec<Span>> = Vec::new();
    let mut i: usize = start;
    assert(line_views(lines@) =~= expected.take(0));
    while i < end
        invariant
            start <= i <= end,
            end <= log.lines@.len(),
            all == log@.lines,
            expected == all.subrange(start as int, end as int).map_values(
                |l: dashboard::LogLineView| log_spans(l, *t),
            ),
            line_views(lines@) == expected.take(i - start),
        decreases end - i,
    {
        let ghost had = line_views(lines@);
        let l: &LogLine = &log.lines[i];
        assert(all[i as int] == l@);
        let mut ts = l.ts.clone();
        ts.append(" ");
        let mut line = new_line();
        put(&mut line, ts, t.plain(Hue::DarkGray));
        put(&mut line, l.text.clone(), t.plain(l.hue));
        assert(span_views(line@) =~= log_spans(l@, *t));
        lines.push(line);
        assert(line_views(lines@) =~= had.push(log_spans(l@, *t)));
        assert(expected[i - start] == log_spans(l@, *t));
        assert(expected.take(i + 1 - start) =~= had.push(log_spans(l@, *t)));
        i = i + 1;
    }
    assert(expected.take(end - start) =~= expected);
    lines
}

// ---------------------------------------------------------------- the key bar and the help

/// A key and what it does.
pub open spec fn key_spans(key: Seq<char>, what: Seq<char>, t: Theme) -> Seq<SpanView> {
    seq![
        span(" "@ + key + " "@, badge(t, Hue::Gray)),
        span(" "@ + what + "  "@, plain(t, Hue::Gray)),
    ]
}

fn put_key(line: &mut Vec<Span>, key: &str, what: &str, t: &Theme)
    ensures
        span_views(final(line)@) == span_views(old(line)@) + key_spans(key@, what@, *t),
{
    let ghost had = span_views(line@);
    let mut k = " ".to_owned();
    k.append(key);
    k.append(" ");
    put(line, k, t.badge(Hue::Gray));
    let mut d = " ".to_owned();
    d.append(what);
    d.append("  ");
    put(line, d, t.plain(Hue::Gray));
    assert(span_views(line@) =~= had + key_spans(key@, what@, *t));
}

/// The key bar; switching cards is only offered where there are several.
pub fn keybar(paused: bool, cards: usize, t: &Theme) -> (line: Vec<Span>)
    ensures
        span_views(line@) == key_spans("q"@, "quit"@, *t) + key_spans(
            "space"@,
            if paused {
                "resume"@
            } else {
                "pause"@
            },
            *t,
        ) + key_spans("1-5"@, "zoom"@, *t) + key_spans("↑↓"@, "log"@, *t) + key_spans(
            "+/-"@,
            "rate"@,
            *t,
        ) + (if cards > 1 {
            key_spans("tab"@, "card"@, *t)
        } else {
            seq![]
        }) + key_spans("?"@, "help"@, *t),
{
    let mut line = new_line();
    put_key(&mut line, "q", "quit", t);
    assert(span_views(line@) =~= key_spans("q"@, "quit"@, *t));
    let what = if paused {
        "resume"
    } else {
        "pause"
    };
    put_key(&mut line, "space", what, t);
    put_key(&mut line, "1-5", "zoom", t);
    put_key(&mut line, "↑↓", "log", t);
    put_key(&mut line, "+/-", "rate", t);
    let ghost had = span_views(line@);
    if cards > 1 {
        put_key(&mut line, "tab", "card", t);
    }
    assert(span_views(line@) =~= had + (if cards > 1 {
        key_spans("tab"@, "card"@, *t)
    } else {
        seq![]
    }));
    put_key(&mut line, "?", "help", t);
    line
}

/// The plain lines of the help, first part.
pub open spec fn help_keys() -> Seq<Seq<char>> {
    seq![
        ""@,
        "  q / Ctrl-C   quit (from anywhere)"@,
        "  space        pause / resume sampling"@,
        "  r            reset session peaks"@,
        "  + / -        faster / slower sample rate"@,
        "  1 - 5        zoom a panel · 0 / Esc back"@,
        "  ↑ / ↓ wheel  scroll the alert log"@,
        "  Tab / ← →    switch GPU (multi-card)"@,
        "  ? / Esc      toggle / close this help"@,
        ""@,
    ]
}

/// The help.
pub open spec fn help_view(t: Theme) -> Seq<Seq<SpanView>> {
    seq![
        seq![
            span("astral-watch — live dashboard"@, (Style { fg: None, look: Look::Bold })),
        ],
    ] + help_keys().map_values(|s: Seq<char>| seq![span(s, raw())]) + seq![
        seq![
            span("  thresholds:  overload "@, raw()),
            span("9.2A"@, plain(t, Hue::Red)),
            span("/pin · imbalance 1.5×"@, raw()),
        ],
        seq![span("               (alarms gate above 5A total)"@, plain(t, Hue::Gray))],
        seq![span(""@, raw())],
        seq![span("  watch the trend chart for a pin drifting"@, plain(t, Hue::Gray))],
        seq![span("  away from the pack — the melt tell."@, plain(t, Hue::Gray))],
    ]
}

fn push_line(lines: &mut Vec<Vec<Span>>, line: Vec<Span>)
    ensures
        line_views(final(lines)@) == line_views(old(lines)@).push(span_views(line@)),
{
    let ghost had = line_views(lines@);
    let ghost x = span_views(line@);
    lines.push(line);
    assert(line_views(lines@) =~= had.push(x));
}

fn plain_text() -> (s: Style)
    ensures
        s == raw(),
{
    Style { fg: None, look: Look::Plain }
}

fn help_key_lines() -> (keys: [&'static str; 10])
    ensures
        keys@.map_values(|s: &'static str| s@) == help_keys(),
{
    let keys = [
        "",
        "  q / Ctrl-C   quit (from anywhere)",
        "  space        pause / resume sampling",
        "  r            reset session peaks",
        "  + / -        faster / slower sample rate",
        "  1 - 5        zoom a panel · 0 / Esc back",
        "  ↑ / ↓ wheel  scroll the alert log",
        "  Tab / ← →    switch GPU (multi-card)",
        "  ? / Esc      toggle / close this help",
        "",
    ];
    assert(keys@.map_values(|s: &'static str| s@) =~= help_keys());
    keys
}

/// The help.
pub fn help_lines(t: &Theme) -> (lines: Vec<Vec<Span>>)
    ensures
        line_views(lines@) == help_view(*t),
{
    let mut lines: Vec<Vec<Span>> = Vec::new();
    assert(line_views(lines@) =~= seq![]);
    push_line(
        &mut lines,
        one_line(
            "astral-watch — live dashboard".to_owned(),
            Style { fg: None, look: Look::Bold },
        ),
    );
    let ghost first = line_views(lines@);
    let ghost middle = help_keys().map_values(|s: Seq<char>| seq![span(s, raw())]);
    let keys = help_key_lines();
    let mut i: usize = 0;
    assert(first + middle.take(0) =~= first);
    while i < 10
        invariant
            i <= 10,
            keys@.map_values(|s: &'static str| s@) == help_keys(),
            middle == help_keys().map_values(|s: Seq<char>| seq![span(s, raw())]),
            line_views(lines@) == first + middle.take(i as int),
        decreases 10 - i,
    {
        assert(help_keys()[i as int] == keys@[i as int]@);
        assert(middle[i as int] == seq![span(keys@[i as int]@, raw())]);
        push_line(&mut lines, one_line(keys[i].to_owned(), plain_text()));
        assert(first + middle.take(i + 1) =~= (first + middle.take(i as int)).push(
            middle[i as int],
        ));
        i = i + 1;
    }
    assert(middle.take(10) =~= middle);
    let mut limits = new_line();
    put(&mut limits, "  thresholds:  overload ".to_owned(), plain_text());
    put(&mut limits, "9.2A".to_owned(), t.plain(Hue::Red));
    put(&mut limits, "/pin · imbalance 1.5×".to_owned(), plain_text());
    assert(span_views(limits@) =~= seq![
        span("  thresholds:  overload "@, raw()),
        span("9.2A"@, plain(*t, Hue::Red)),
        span("/pin · imbalance 1.5×"@, raw()),
    ]);
    push_line(&mut lines, limits);
    push_line(
        &mut lines,
        one_line(
            "               (alarms gate above 5A total)".to_owned(),
            t.plain(Hue::Gray),
        ),
    );
    push_line(&mut lines, one_line("".to_owned(), plain_text()));
    push_line(
        &mut lines,
        one_line("  watch the trend chart for a pin drifting".to_owned(), t.plain(Hue::Gray)),
    );
    push_line(
        &mut lines,
        one_line("  away from the pack — the melt tell.".to_owned(), t.plain(Hue::Gray)),
    );
    assert(line_views(lines@) =~= help_view(*t));
    lines
}

/// The size of the help popup on a screen of this size.
pub fn help_size(width: u16, height: u16) -> (r: (u16, u16))
    ensures
        r.0 == (if width < 4 {
            0int
        } else if width - 4 < 58 {
            width - 4
        } else {
            58
        }),
        r.1 == (if height < 2 {
            0int
        } else if height - 2 < 18 {
            height - 2
        } else {
            18
        }),
{
    let w: u16 = if width < 4 {
        0
    } else if width - 4 < 58 {
        width - 4
    } else {
        58
    };
    let h: u16 = if height < 2 {
        0
    } else if height - 2 < 18 {
        height - 2
    } else {
        18
    };
    (w, h)
}

// ---------------------------------------------------------------- which panels fit

/// The parts of the screen, top to bottom; the body and the key bar are always there.
#[derive(Debug, Clone, Copy, PartialEq, Eq, Structural)]
pub struct Screen {
    /// A line of tabs.
    pub tabs: bool,
    /// The device header collapsed to one line.
    pub compact: bool,
    /// A line for the alarm banner.
    pub alarm: bool,
}

/// Which parts a screen of `height` rows has: tabs where there are several cards, the alarm
/// banner while a condition is active, and the header collapsed on short terminals.
pub fn screen(height: u16, app: &App) -> (s: Screen)
    ensures
        s == (Screen {
            tabs: app.deck.cards@.len() > 1,
            compact: height < 16,
            alarm: app.readout.active@.len() > 0,
        }),
{
    Screen {
        tabs: app.deck.cards.len() > 1,
        compact: height < 16,
        alarm: app.readout.active.len() > 0,
    }
}

/// A panel of the body.
#[derive(Debug, Clone, Copy, PartialEq, Eq, Structural)]
pub enum Panel {
    Bars,
    Trend,
    Balance,
    Watts,
    Log,
}

/// How the body is laid out.
#[derive(Debug, Clone, Copy, PartialEq, Eq, Structural)]
pub enum Body {
    /// One panel fills it.
    Only(Panel),
    /// Bars over the trend, beside totals, balance, watts and log.
    Wide,
    /// Bars, totals, balance and log on top of each other.
    Narrow,
}

/// How a body of this size is laid out, with a panel zoomed or none.
pub open spec fn body_of(width: u16, height: u16, focus: Option<usize>) -> Body {
    match focus {
        Some(p) => Body::Only(
            if p == 0 {
                Panel::Bars
            } else if p == 1 {
                Panel::Trend
            } else if p == 2 {
                Panel::Balance
            } else if p == 3 {
                Panel::Watts
            } else {
                Panel::Log
            },
        ),
        None => if height < 6 {
            Body::Only(Panel::Bars)
        } else if width >= 110 {
            Body::Wide
        } else {
            Body::Narrow
        },
    }
}

/// How a body of this size is laid out: a zoomed panel fills it, a flat one has only the bars.
pub fn body(width: u16, height: u16, o: &Outlook) -> (b: Body)
    ensures
        b == (match o.focus {
            Some(p) => Body::Only(
                if p == 0 {
                    Panel::Bars
                } else if p == 1 {
                    Panel::Trend
                } else if p == 2 {
                    Panel::Balance
                } else if p == 3 {
                    Panel::Watts
                } else {
                    Panel::Log
                },
            ),
            None => if height < 6 {
                Body::Only(Panel::Bars)
            } else if width >= 110 {
                Body::Wide
            } else {
                Body::Narrow
            },
        }),
        b == body_of(width, height, o.focus),
{
    match o.focus {
        Some(p) => Body::Only(
            if p == 0 {
                Panel::Bars
            } else if p == 1 {
                Panel::Trend
            } else if p == 2 {
                Panel::Balance
            } else if p == 3 {
                Panel::Watts
            } else {
                Panel::Log
            },
        ),
        None => {
            if height < 6 {
                Body::Only(Panel::Bars)
            } else if width >= 110 {
                Body::Wide
            } else {
                Body::Narrow
            }
        },
    }
}

} // verus!
