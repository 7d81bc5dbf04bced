//! What the panels show, in cells, colors and amperes.

use crate::dashboard;
use crate::dashboard::Hue;
use crate::double;
use crate::double::{Double, Number};
use crate::double_laws;
use crate::panels;
use crate::panels::{Bars, Body, Look, Panel, Theme, Zone};
use crate::text;
use vstd::prelude::*;

verus! {

// ---------------------------------------------------------------- gauges

/// A gauge fills the share of its cells that it shows, to half a cell; from one up it is full, and
/// below zero, or of what is no number, it is empty.
pub proof fn law_gauges_fill_their_share(x: Double, width: nat)
    requires
        x.wf(),
        width <= 0xffff,
    ensures
        ({
            let n = panels::filled(Number::Finite { negative: false, size: x }, width);
            &&& n <= width
            &&& double::weight(x) <= double_laws::one() ==> 0x100 * (2 * double_laws::gap(
                (n * double_laws::one()) as int,
                (width * double::weight(x)) as int,
            )) <= 0x101 * double_laws::one()
            &&& double::weight(x) >= double_laws::one() ==> n == width
        }),
        panels::filled(Number::NotANumber, width) == 0,
        panels::filled(Number::PosInf, width) == width,
        panels::filled(Number::NegInf, width) == 0,
        double::weight(x) > 0 ==> panels::filled(
            Number::Finite { negative: true, size: x },
            width,
        ) == 0,
{
    let t = double_laws::one() as int;
    double_laws::lemma_one();
    let y = panels::lemma_within_one(x);
    lemma_fill(y, width);
    assert(width * double_laws::one() == width * t);
    // the infinities and the negative sizes become nothing or the whole
    double::lemma_whole(1);
    double::lemma_whole(width);
    let none = double::zero_size();
    let whole = double::whole(1)->size;
    assert(double::zero() == Number::Finite { negative: false, size: none });
    assert(none.wf());
    double_laws::law_what_lies_beyond_the_numbers(double::zero());
    double_laws::law_what_lies_beyond_the_numbers(double::whole(1));
    assert(double::weight(whole) == t) by {
        assert(1 * t == t);
    }
    assert(double::weight(none) == 0) by {
        assert(0 * vstd::arithmetic::power2::pow2((none.exponent + 1074) as nat) == 0)
            by (nonlinear_arith);
    }
    lemma_fill(whole, width);
    lemma_fill(none, width);
    lemma_full(width);
    lemma_empty(width);
    if double::weight(x) > 0 {
        double_laws::law_numbers_compare_by_value(
            Number::Finite { negative: true, size: x },
            double::zero(),
        );
    }
    if double::weight(x) >= double_laws::one() {
        assert(double::weight(y) == t);
        lemma_fill_by_weight(y, width);
    }
}

spec fn fill(x: Double, width: nat) -> nat {
    double::rounded_off(
        double::times(Number::Finite { negative: false, size: x }, double::whole(width)),
        width,
    )
}

proof fn lemma_fill(x: Double, width: nat)
    requires
        x.wf(),
        width <= 0xffff,
        double::weight(x) <= double_laws::one(),
    ensures
        fill(x, width) <= width,
        0x100 * (2 * double_laws::gap(
            (fill(x, width) * double_laws::one()) as int,
            (width * double::weight(x)) as int,
        )) <= 0x101 * double_laws::one(),
{
    let t = double_laws::one() as int;
    double_laws::lemma_one();
    double::lemma_whole(width);
    let k = double::whole(width)->size;
    let d = lemma_scale(x, k, width);
    let (w, wd) = (double::weight(x) as int, double::weight(d) as int);
    let exact = width * w;
    assert(exact <= width * t) by (nonlinear_arith)
        requires
            exact == width * w,
            w <= t,
            width >= 0,
    ;
    double_laws::law_rounding_off_is_close(d, width);
    let n = fill(x, width) as int;
    assert(double::times(Number::Finite { negative: false, size: x }, double::whole(width))
        == Number::Finite { negative: false, size: d });
    if n == width {
        assert((2 * width - 1) * t == 2 * (width * t) - t) by (nonlinear_arith);
    }
}

/// What weighs the whole or more fills every cell.
proof fn lemma_fill_by_weight(x: Double, width: nat)
    requires
        x.wf(),
        width <= 0xffff,
        double::weight(x) == double_laws::one(),
    ensures
        fill(x, width) == width,
{
    let t = double_laws::one() as int;
    double_laws::lemma_one();
    lemma_fill(x, width);
    let n = fill(x, width) as int;
    assert(width * double::weight(x) == width * t);
    if n < width {
        assert(width * t - n * t >= t) by (nonlinear_arith)
            requires
                n + 1 <= width,
                t > 0,
        ;
    }
}

proof fn lemma_full(width: nat)
    requires
        width <= 0xffff,
    ensures
        fill(double::whole(1)->size, width) == width,
{
    double::lemma_whole(1);
    let t = double_laws::one() as int;
    assert(1 * t == t);
    lemma_fill_by_weight(double::whole(1)->size, width);
}

proof fn lemma_empty(width: nat)
    requires
        width <= 0xffff,
    ensures
        fill(double::zero_size(), width) == 0,
{
    let none = double::zero_size();
    let t = double_laws::one() as int;
    double_laws::lemma_one();
    assert(double::weight(none) == 0) by {
        assert(0 * vstd::arithmetic::power2::pow2((none.exponent + 1074) as nat) == 0)
            by (nonlinear_arith);
    }
    assert(none.wf());
    lemma_fill(none, width);
    let n = fill(none, width) as int;
    assert(width * double::weight(none) == 0) by (nonlinear_arith)
        requires
            double::weight(none) == 0,
    ;
    if n > 0 {
        assert(n * t >= t) by (nonlinear_arith)
            requires
                n >= 1,
                t > 0,
        ;
    }
}

/// A size times a whole number, to a small part of one.
proof fn lemma_scale(x: Double, k: Double, n: nat) -> (d: Double)
    requires
        x.wf(),
        k.wf(),
        n <= 0xffff,
        double::weight(k) == n * double_laws::one(),
        double::weight(x) <= double_laws::one(),
    ensures
        double::product(x, k) == Some(d),
        d.wf(),
        0x400 * double_laws::gap((n * double::weight(x)) as int, double::weight(d) as int)
            <= double_laws::one(),
{
    let t = double_laws::one() as int;
    double_laws::lemma_one();
    let w = double::weight(x) as int;
    let wk = double::weight(k) as int;
    let m = n as int;
    let exact = m * w;
    assert(w * wk == exact * t) by (nonlinear_arith)
        requires
            wk == m * t,
            exact == m * w,
    ;
    assert(exact <= m * t) by (nonlinear_arith)
        requires
            exact == m * w,
            w <= t,
            m >= 0,
    ;
    assert(exact * t <= m * (t * t)) by (nonlinear_arith)
        requires
            exact <= m * t,
            t > 0,
    ;
    double_laws::law_products_are_close(x, k, n);
    let d = double::product(x, k)->0;
    let wd = double::weight(d) as int;
    let g = double_laws::gap(exact, wd);
    assert(double_laws::gap(exact * t, wd * t) == g * t) by {
        assert(exact <= wd ==> exact * t <= wd * t && wd * t - exact * t == (wd - exact) * t)
            by (nonlinear_arith)
            requires
                t > 0,
        ;
        assert(exact > wd ==> exact * t > wd * t && exact * t - wd * t == (exact - wd) * t)
            by (nonlinear_arith)
            requires
                t > 0,
        ;
    }
    assert(0x20_0000_0000_0000 * g <= exact + 0x10_0000_0000_0000) by (nonlinear_arith)
        requires
            0x20_0000_0000_0000 * (g * t) <= exact * t + 0x10_0000_0000_0000 * t,
            t > 0,
    ;
    assert(m * t <= 0xffff * t) by (nonlinear_arith)
        requires
            m <= 0xffff,
            t > 0,
    ;
    d
}

/// A gauge is its label, its full cells, its empty cells, as many as it is wide together, and its
/// value.
pub proof fn law_what_a_gauge_is_made_of(
    t: Theme,
    label: Seq<char>,
    fill: nat,
    hue: Hue,
    width: nat,
    value: Seq<char>,
)
    requires
        fill <= width,
    ensures
        ({
            let g = panels::gauge_spans(t, label, fill, hue, width, value);
            &&& g.len() == 4
            &&& g[0].text == label + " "@ && g[3].text == " "@ + value
            &&& g[1].text.len() == fill && forall|i: int|
                0 <= i < g[1].text.len() ==> #[trigger] g[1].text[i] == '█'
            &&& g[1].text.len() + g[2].text.len() == width && forall|i: int|
                0 <= i < g[2].text.len() ==> #[trigger] g[2].text[i] == '░'
            &&& t.color ==> g[1].style.fg == Some(hue)
        }),
{
}

// ---------------------------------------------------------------- colors

/// A temperature is red from 85 degrees and yellow from 75.
pub proof fn law_when_a_temperature_is_red(c: i32)
    ensures
        panels::temp_hue(c) == Hue::Red <==> c >= 85,
        panels::temp_hue(c) == Hue::Yellow <==> 75 <= c < 85,
        panels::temp_hue(c) == Hue::Green <==> c < 75,
{
}

/// The power is red above 97 hundredths of the limit and yellow above 85.
pub proof fn law_when_the_power_is_red(share: Number)
    requires
        share.wf(),
    ensures
        panels::power_hue(share) == Hue::Red <==> double::less(double::thousandths(970), share),
        panels::power_hue(share) == Hue::Green <==> !double::less(double::thousandths(850), share),
        panels::power_hue(share) == Hue::Yellow <==> double::less(double::thousandths(850), share)
            && !double::less(double::thousandths(970), share),
{
    double_laws::law_thousandths_are_ordered(850, 970);
    double_laws::law_thousandths_are_close(850);
    double_laws::law_thousandths_are_close(970);
    let (a, b) = (double::thousandths(850), double::thousandths(970));
    if share is Finite {
        double_laws::law_numbers_compare_by_value(a, share);
        double_laws::law_numbers_compare_by_value(b, share);
        double_laws::law_numbers_compare_by_value(a, b);
    }
}

/// A link at its largest is green, a down-trained one yellow, and only that is marked.
pub proof fn law_a_down_trained_link_is_marked(link: Option<(String, bool)>, t: Theme)
    ensures
        panels::link_spans(link, t).len() == 1 <==> link is Some,
        panels::downtrained_spans(link, t).len() == 1 <==> link is Some && !(link->0).1,
        link is Some && t.color ==> panels::link_spans(link, t)[0].style.fg == Some(
            if (link->0).1 {
                Hue::Green
            } else {
                Hue::Yellow
            },
        ),
        link is Some ==> panels::link_spans(link, t)[0].text == "  PCIe "@ + (link->0).0@,
{
}

/// Above 9.2 A a live pin is red, whatever else; a stale one is gray, and so is one at rest.
pub proof fn law_when_a_pin_is_red(milliamps: u16, live: bool)
    ensures
        panels::pin_hue(milliamps, live) == Hue::Red <==> live && milliamps > 9_200,
        !live ==> panels::pin_hue(milliamps, live) == Hue::DarkGray,
        live && 0 < milliamps <= 7_819 ==> panels::pin_hue(milliamps, live) == Hue::Green,
        live && 7_821 <= milliamps <= 9_200 ==> panels::pin_hue(milliamps, live) == Hue::Yellow,
        milliamps == 0 ==> panels::pin_hue(milliamps, live) == Hue::DarkGray,
{
    lemma_near(milliamps);
}

/// Close to the limit means above 7.82 A.
proof fn lemma_near(milliamps: u16)
    ensures
        milliamps <= 7_819 ==> !panels::is_near_limit(milliamps),
        milliamps >= 7_821 ==> panels::is_near_limit(milliamps),
{
    let t = double_laws::one() as int;
    double_laws::lemma_one();
    double_laws::law_thousandths_are_close(9_200);
    double_laws::law_thousandths_are_close(850);
    double_laws::law_thousandths_are_close(milliamps as nat);
    let x = double::thousandths(9_200)->size;
    let y = double::thousandths(850)->size;
    let z = double::thousandths(milliamps as nat)->size;
    let (wx, wy, wz) = (
        double::weight(x) as int,
        double::weight(y) as int,
        double::weight(z) as int,
    );
    let p = wx * wy;
    let u = 1000 * wx;
    let v = 1000 * wy;
    assert(1_000_000 * p == u * v) by (nonlinear_arith)
        requires
            p == wx * wy,
            u == 1000 * wx,
            v == 1000 * wy,
    ;
    // u is 9200 t and v is 850 t, each to a thousandth of t
    assert(1000 * u <= 9_200_001 * t && 9_199_999 * t <= 1000 * u);
    assert(1000 * v <= 850_001 * t && 849_999 * t <= 1000 * v);
    let (hu, hv) = (1000 * u, 1000 * v);
    assert(hu * hv <= (9_200_001 * t) * (850_001 * t)) by (nonlinear_arith)
        requires
            0 <= hu <= 9_200_001 * t,
            0 <= hv <= 850_001 * t,
            t > 0,
    ;
    assert((9_199_999 * t) * (849_999 * t) <= hu * hv) by (nonlinear_arith)
        requires
            9_199_999 * t <= hu,
            849_999 * t <= hv,
            t > 0,
    ;
    let tt = t * t;
    assert((9_200_001 * t) * (850_001 * t) == 7_820_010_050_001 * tt && (9_199_999 * t) * (849_999
        * t) == 7_819_989_950_001 * tt) by (nonlinear_arith)
        requires
            tt == t * t,
    ;
    assert(hu * hv == 1_000_000 * (u * v)) by (nonlinear_arith)
        requires
            hu == 1000 * u,
            hv == 1000 * v,
    ;
    assert(1_000_000_000_000 * p <= 7_820_010_050_001 * tt);
    assert(7_819_989_950_001 * tt <= 1_000_000_000_000 * p);
    assert(8 * (t * t) == 8 * tt);
    assert(tt > 0) by (nonlinear_arith)
        requires
            tt == t * t,
            t > 0,
    ;
    double_laws::law_products_are_close(x, y, 8);
    let d = double::product(x, y)->0;
    let wd = double::weight(d) as int;
    let q = wd * t;
    // the product is rounded by far less than a thousandth
    assert(0x20_0000_0000_0000 * double_laws::gap(p, q) <= p + 0x10_0000_0000_0000 * t);
    assert(t <= tt) by (nonlinear_arith)
        requires
            tt == t * t,
            t >= 1,
    ;
    lemma_tiny(t, tt);
    assert(1_000_000 * q <= 7_820_011 * tt);
    assert(7_819_988 * tt <= 1_000_000 * q);
    assert(1_000_000 * wd <= 7_820_011 * t) by (nonlinear_arith)
        requires
            1_000_000 * (wd * t) <= 7_820_011 * (t * t),
            t > 0,
    ;
    assert(7_819_988 * t <= 1_000_000 * wd) by (nonlinear_arith)
        requires
            7_819_988 * (t * t) <= 1_000_000 * (wd * t),
            t > 0,
    ;
    let product = double::times(double::thousandths(9_200), double::thousandths(850));
    assert(product == Number::Finite { negative: false, size: d });
    double_laws::law_numbers_compare_by_value(product, double::thousandths(milliamps as nat));
    let m = milliamps as int;
    assert(m * double_laws::one() == m * t);
    if m <= 7_819 {
        assert(m * t <= 7_819 * t) by (nonlinear_arith)
            requires
                m <= 7_819,
                t > 0,
        ;
    }
    if m >= 7_821 {
        assert(m * t >= 7_821 * t) by (nonlinear_arith)
            requires
                m >= 7_821,
                t > 0,
        ;
    }
}

/// A unit of the weights is tiny beside their square.
proof fn lemma_tiny(t: int, tt: int)
    requires
        t == double_laws::one(),
        tt == t * t,
    ensures
        0x100_0000 * t <= tt,
{
    vstd::arithmetic::power2::lemma_pow2_adds(24, 1050);
    vstd::arithmetic::power2::lemma2_to64();
    vstd::arithmetic::power2::lemma_pow2_pos(1050);
    let c = vstd::arithmetic::power2::pow2(1050) as int;
    assert(t == 0x100_0000 * c);
    assert(t >= 0x100_0000) by (nonlinear_arith)
        requires
            t == 0x100_0000 * c,
            c >= 1,
    ;
    assert(0x100_0000 * t <= t * t) by (nonlinear_arith)
        requires
            t >= 0x100_0000,
    ;
}

/// A ratio above 1.5 is an alarm and nothing else is; without a ratio the gauge is idle; each zone
/// has a color and a word of its own.
pub proof fn law_when_a_ratio_alarms(balance: Option<Number>, y: Zone, z: Zone)
    ensures
        panels::zone_of(balance) == Zone::Alarm <==> balance is Some && double::less(
            double::thousandths(1500),
            balance->0,
        ),
        panels::zone_of(balance) == Zone::Idle <==> balance is None,
        panels::zone_hue(Zone::Alarm) == Hue::Red && panels::zone_hue(Zone::Warn) == Hue::Yellow
            && panels::zone_hue(Zone::Normal) == Hue::Green && panels::zone_hue(Zone::Idle)
            == Hue::DarkGray,
        panels::zone_word(y) == panels::zone_word(z) <==> y == z,
        panels::zone_word(Zone::Alarm) == "ALARM"@,
{
    reveal_strlit("NORMAL");
    reveal_strlit("WARN");
    reveal_strlit("ALARM");
    reveal_strlit("idle");
    assert("NORMAL"@[0] == 'N' && "WARN"@[0] == 'W' && "ALARM"@[0] == 'A' && "idle"@[0] == 'i');
}

/// Every pin has a line in a color of its own.
pub proof fn law_lines_are_told_apart(a: int, b: int)
    requires
        0 <= a < 6,
        0 <= b < 6,
    ensures
        panels::line_hue(a) == panels::line_hue(b) <==> a == b,
{
}

// ---------------------------------------------------------------- the bar chart

/// A centered text stands whole in a slot that holds it, with as much room on one side as on the
/// other, to one column.
pub proof fn law_centered_texts_stand_in_the_middle(s: Seq<char>, slot: nat) -> (off: int)
    requires
        s.len() <= slot,
    ensures
        2 * off <= slot - s.len() < 2 * off + 2,
        forall|i: int|
            0 <= i < s.len() ==> panels::centered(s, slot, off + i) == Some(#[trigger] s[i]),
        forall|col: int|
            (0 <= col < off || off + s.len() <= col) ==> (#[trigger] panels::centered(
                s,
                slot,
                col,
            )) is None,
{
    ((slot - s.len()) / 2) as int
}

/// A bar stands in the slot of its pin, as high as the current fills; its label stands in the last
/// row and its value above that.
pub proof fn law_where_a_bar_stands(b: Bars, t: Theme, x: int, y: int)
    requires
        b.width >= 12,
        b.height >= 3,
        0 <= x < 6 * (b.width as int / 6),
        0 <= y < b.height,
    ensures
        ({
            let slot = b.width as int / 6;
            let pin = x / slot;
            let level = b.height - 3 - y;
            let rows = (b.height - 2) as nat;
            let g = panels::bar_glyph(b, t, x, y);
            let peak = b.peaks@[pin] > 0 && level == panels::top_level(b.peaks@[pin], rows);
            let limit = level == panels::top_level(9_200, rows);
            let inside = x % slot < slot - 1;
            &&& y == b.height - 1 ==> g == panels::text_glyph(
                "p"@ + text::decimal((pin + 1) as nat),
                slot as nat,
                x % slot,
                panels::plain(t, Hue::Gray),
            )
            &&& y == b.height - 2 ==> g == panels::text_glyph(
                double::fixed(double::thousandths(b.amps@[pin] as nat), 1),
                slot as nat,
                x % slot,
                panels::plain(t, panels::pin_hue(b.amps@[pin], b.live)),
            )
            &&& y < b.height - 2 ==> {
                let full = level < panels::rows_for(b.amps@[pin], rows);
                &&& (g is Some && g->0.ch == '▔') <==> inside && peak
                &&& (g is Some && g->0.ch == '█') <==> inside && !peak && full
                &&& (g is Some && g->0.ch == '┄') <==> limit && !(inside && (peak || full))
                &&& g is None <==> !limit && !(inside && (peak || full))
                &&& g is Some && g->0.ch == '█' && t.color ==> g->0.style.fg == Some(
                    panels::pin_hue(b.amps@[pin], b.live),
                )
            }
        }),
{
}

/// The top of a bar is its highest filled row.
pub proof fn law_the_top_is_the_highest_row(milliamps: u16, height: nat)
    ensures
        panels::rows_for(milliamps, height) > 0 ==> panels::top_level(milliamps, height) + 1
            == panels::rows_for(milliamps, height),
        panels::rows_for(milliamps, height) == 0 ==> panels::top_level(milliamps, height) == 0,
{
}

/// Ten amperes and more fill the chart, and nothing fills none of it; between, a current fills its
/// tenths of the rows, to half a row.
pub proof fn law_how_high_a_bar_is(milliamps: u16, height: nat)
    requires
        height <= 0xffff,
    ensures
        milliamps == 0 ==> panels::rows_for(milliamps, height) == 0,
        milliamps <= 10_000 ==> 0x100 * (2 * double_laws::gap(
            (10_000 * panels::rows_for(milliamps, height)) as int,
            (height * milliamps) as int,
        )) <= 2_580_000,
        milliamps >= 10_001 ==> panels::rows_for(milliamps, height) == height,
{
    let t = double_laws::one() as int;
    double_laws::lemma_one();
    double_laws::law_thousandths_are_close(milliamps as nat);
    double::lemma_whole(10);
    let m = milliamps as int;
    let x = double::thousandths(milliamps as nat)->size;
    let k = double::whole(10)->size;
    let (wx, wk) = (double::weight(x) as int, double::weight(k) as int);
    double::lemma_size_positive(k);
    assert(k.significand > 0) by {
        let b = double::below(k) as int;
        assert(double::above(k) == 10 * b);
        double::lemma_below_positive(k, k);
    }
    assert(m * t <= 65_535 * t) by (nonlinear_arith)
        requires
            m <= 65_535,
            t > 0,
    ;
    assert(wx * t <= 7 * (wk * t)) by (nonlinear_arith)
        requires
            wx <= 66 * t,
            wk == 10 * t,
            t > 0,
    ;
    double_laws::law_quotients_are_close(x, k, 7);
    let d = double::quotient(x, k)->0;
    let wd = double::weight(d) as int;
    let g = double_laws::gap(wx * t, wd * wk);
    let tenfold = 10 * wd;
    assert(wd * wk == tenfold * t) by (nonlinear_arith)
        requires
            wk == 10 * t,
            tenfold == 10 * wd,
    ;
    let h = double_laws::gap(wx, tenfold);
    assert(g == h * t) by {
        assert(wx <= tenfold ==> wx * t <= tenfold * t && tenfold * t - wx * t == (tenfold - wx)
            * t) by (nonlinear_arith)
            requires
                t > 0,
        ;
        assert(wx > tenfold ==> wx * t > tenfold * t && wx * t - tenfold * t == (wx - tenfold) * t)
            by (nonlinear_arith)
            requires
                t > 0,
        ;
    }
    assert(0x20_0000_0000_0000 * h <= wx + 0x10_0000_0000_0000 * 10) by (nonlinear_arith)
        requires
            0x20_0000_0000_0000 * (h * t) <= wx * t + 0x10_0000_0000_0000 * (10 * t),
            t > 0,
    ;
    // ten thousand times the share is the current, to a small part of one
    assert(0x1_0000 * double_laws::gap(10_000 * wd, m * t) <= t);
    assert(double::over(double::thousandths(milliamps as nat), double::whole(10))
        == Number::Finite { negative: false, size: d });
    law_gauges_fill_their_share(d, height);
    let n = panels::rows_for(milliamps, height) as int;
    let e = height as int;
    if m >= 10_001 {
        assert(m * t >= 10_001 * t) by (nonlinear_arith)
            requires
                m >= 10_001,
                t > 0,
        ;
        assert(wd >= t);
    }
    if m <= 10_000 {
        lemma_rows(n, e, m, wd, t);
    }
    if m == 0 {
        assert(0 * t == 0);
        lemma_no_rows(n, e, wd, t);
    }
}

proof fn lemma_no_rows(n: int, e: int, wd: int, t: int)
    requires
        0 <= e <= 0xffff,
        0x1_0000 * (10_000 * wd) <= t,
        0 <= wd,
        t > 0,
        n >= 0,
        wd <= t ==> 0x100 * (2 * double_laws::gap(n * t, e * wd)) <= 0x101 * t,
    ensures
        n == 0,
{
    assert(e * wd <= 0xffff * wd) by (nonlinear_arith)
        requires
            e <= 0xffff,
            wd >= 0,
    ;
    if n > 0 {
        assert(n * t >= t) by (nonlinear_arith)
            requires
                n >= 1,
                t > 0,
        ;
    }
}

proof fn lemma_rows(n: int, e: int, m: int, wd: int, t: int)
    requires
        0 <= e <= 0xffff,
        0 <= m <= 10_000,
        0 <= n <= e,
        0 <= wd,
        t > 0,
        0x1_0000 * double_laws::gap(10_000 * wd, m * t) <= t,
        wd <= t ==> 0x100 * (2 * double_laws::gap(n * t, e * wd)) <= 0x101 * t,
        wd >= t ==> n == e,
    ensures
        0x100 * (2 * double_laws::gap(10_000 * n, e * m)) <= 2_580_000,
{
    let a = e * wd;
    let b = (e * m) * t;
    // the share of the rows, ten thousandfold
    assert(10_000 * a - b <= e * (10_000 * wd - m * t) && 10_000 * a - b >= e * (10_000 * wd - m
        * t)) by (nonlinear_arith)
        requires
            a == e * wd,
            b == (e * m) * t,
    ;
    let s = 10_000 * wd - m * t;
    assert(0x1_0000 * (e * s) <= 0xffff * t && 0x1_0000 * (e * s) >= -(0xffff * t))
        by (nonlinear_arith)
        requires
            0 <= e <= 0xffff,
            0x1_0000 * s <= t,
            0x1_0000 * s >= -t,
            t > 0,
    ;
    let near = n * t;
    assert(10_000 * near == (10_000 * n) * t) by (nonlinear_arith)
        requires
            near == n * t,
    ;
    let diff = 10_000 * n - e * m;
    assert((10_000 * n) * t - (e * m) * t == diff * t) by (nonlinear_arith)
        requires
            diff == 10_000 * n - e * m,
    ;
    let es = e * s;
    assert(10_000 * a - b == es);
    assert(diff * t == 10_000 * near - b);
    if wd <= t {
        assert(0x200 * (near - a) <= 0x101 * t && 0x200 * (a - near) <= 0x101 * t);
        assert(diff * t == 10_000 * (near - a) + es);
        assert(0x200 * (diff * t) <= 2_580_000 * t && 0x200 * (diff * t) >= -(2_580_000 * t));
    } else {
        assert(e * t <= e * wd && near == e * t) by (nonlinear_arith)
            requires
                t <= wd,
                e >= 0,
                near == n * t,
                n == e,
        ;
        assert(m * t <= 10_000 * t) by (nonlinear_arith)
            requires
                m <= 10_000,
                t > 0,
        ;
        assert((e * m) * t <= 10_000 * (e * t)) by (nonlinear_arith)
            requires
                m <= 10_000,
                e >= 0,
                t > 0,
        ;
        assert(diff * t >= 0);
        assert(diff * t <= es);
        assert(0x200 * (diff * t) <= 2_580_000 * t);
    }
    assert(0x200 * diff <= 2_580_000 && 0x200 * diff >= -(2_580_000))
        by (nonlinear_arith)
        requires
            0x200 * (diff * t) <= 2_580_000 * t,
            0x200 * (diff * t) >= -(2_580_000 * t),
            t > 0,
    ;
}

// ---------------------------------------------------------------- texts

/// A card has its tab and a blank behind it, and only the one in view stands out.
pub proof fn law_the_card_in_view_stands_out(
    cards: Seq<dashboard::CardView>,
    selected: int,
    t: Theme,
    n: nat,
    k: int,
)
    requires
        0 <= k < n <= cards.len(),
    ensures
        ({
            let s = panels::tab_spans(cards, selected, t, n);
            &&& s.len() == 2 * n
            &&& s[2 * k].text == " "@ + cards[k].model + " "@
            &&& s[2 * k].style.look == Look::Badge <==> k == selected
            &&& s[2 * k + 1].text == " "@
        }),
    decreases n,
{
    let s = panels::tab_spans(cards, selected, t, n);
    let before = panels::tab_spans(cards, selected, t, (n - 1) as nat);
    lemma_tab_count(cards, selected, t, (n - 1) as nat);
    if k < n - 1 {
        law_the_card_in_view_stands_out(cards, selected, t, (n - 1) as nat, k);
        assert(s[2 * k] == before[2 * k]);
        assert(s[2 * k + 1] == before[2 * k + 1]);
    }
}

proof fn lemma_tab_count(cards: Seq<dashboard::CardView>, selected: int, t: Theme, n: nat)
    ensures
        panels::tab_spans(cards, selected, t, n).len() == 2 * n,
    decreases n,
{
    if n > 0 {
        lemma_tab_count(cards, selected, t, (n - 1) as nat);
    }
}

/// A line of the log is its time and its text, the text in the color of the line.
pub proof fn law_log_lines_keep_their_color(l: dashboard::LogLineView, t: Theme)
    ensures
        ({
            let s = panels::log_spans(l, t);
            &&& s.len() == 2
            &&& s[0].text == l.ts + " "@
            &&& s[1].text == l.text
            &&& s[1].style.fg == Some(
                if t.color {
                    l.hue
                } else {
                    Hue::Reset
                },
            )
        }),
{
}

/// A zoomed panel fills the body, whatever its size; else a body below six rows has the bars only,
/// and one of 110 columns or more is wide.
pub proof fn law_how_the_body_is_laid_out(width: u16, height: u16, p: usize)
    ensures
        panels::body_of(width, height, None) == Body::Only(Panel::Bars) <==> height < 6,
        panels::body_of(width, height, None) == Body::Wide <==> height >= 6 && width >= 110,
        panels::body_of(width, height, None) == Body::Narrow <==> height >= 6 && width < 110,
        panels::body_of(width, height, Some(0)) == Body::Only(Panel::Bars),
        panels::body_of(width, height, Some(1)) == Body::Only(Panel::Trend),
        panels::body_of(width, height, Some(2)) == Body::Only(Panel::Balance),
        panels::body_of(width, height, Some(3)) == Body::Only(Panel::Watts),
        p >= 4 ==> panels::body_of(width, height, Some(p)) == Body::Only(Panel::Log),
{
}

/// The load is shown in percent beside its gauge, and not at all where it is unknown.
pub proof fn law_the_load_is_shown(util: Option<u8>, t: Theme)
    ensures
        util is None ==> panels::util_spans(util, t).len() == 0,
        util matches Some(u) ==> {
            let s = panels::util_spans(util, t);
            &&& s.len() == 5
            &&& s[0].text == "GPU"@ + " "@
            &&& s[1].text.len() == panels::filled(
                double::over(double::whole(u as nat), double::whole(100)),
                10,
            )
            &&& s[3].text == " "@ + (text::decimal(u as nat) + "%"@)
        },
{
}

/// The draw is shown against the limit where there is one above zero, and alone otherwise.
pub proof fn law_the_power_is_shown(draw: Option<Number>, limit: Option<Number>, t: Theme)
    ensures
        draw is None ==> panels::power_spans(draw, limit, t).len() == 0,
        draw matches Some(d) ==> {
            let s = panels::power_spans(draw, limit, t);
            let against = limit is Some && double::less(double::zero(), limit->0);
            &&& against ==> s.len() == 5 && s[3].text == " "@ + (double::fixed(d, 0) + "/"@
                + double::fixed(limit->0, 0) + "W"@) && s[1].text.len() == panels::filled(
                double::over(d, limit->0),
                10,
            ) && (t.color ==> s[1].style.fg == Some(panels::power_hue(double::over(d, limit->0))))
            &&& !against ==> s.len() == 1 && s[0].text == "PWR "@ + double::fixed(d, 0) + "W   "@
        },
{
}

/// Temperature and fan are shown each where it is known.
pub proof fn law_the_heat_is_shown(temp: Option<i32>, fan: Option<u8>, t: Theme)
    ensures
        ({
            let s = panels::thermal_spans(temp, fan, t);
            let n = |b: bool| if b { 1int } else { 0int };
            &&& s.len() == n(temp is Some) + n(fan is Some)
            &&& temp matches Some(c) ==> s[0].text == crate::number::signed_text(c as int)
                + "°C  "@ && (t.color ==> s[0].style.fg == Some(panels::temp_hue(c)))
            &&& fan matches Some(f) ==> s.last().text == "fan "@ + text::decimal(f as nat) + "%"@
        }),
{
}

/// A reading that is not of the latest sample is marked as stale, in yellow, and a live one is
/// not.
pub proof fn law_stale_readings_are_marked(o: dashboard::Readout, peak: Number, t: Theme)
    ensures
        ({
            let lines = panels::stats_view(o, peak, t);
            &&& o.reading matches Some(r) ==> {
                let amps = double::fixed(crate::decode::total_amps(r.pins@), 1) + " A"@;
                &&& lines.len() == 2 && lines[0].len() == 3
                &&& o.live ==> lines[0][0].text == amps
                &&& !o.live ==> lines[0][0].text == "STALE "@ + amps
                &&& t.color ==> lines[0][0].style.fg == Some(
                    if o.live {
                        Hue::White
                    } else {
                        Hue::Yellow
                    },
                )
                &&& lines[0][1].text == "   ~"@ + double::fixed(
                    crate::decode::total_watts(r.pins@),
                    0,
                ) + " W"@
                &&& lines[0][2].text == "   peak "@ + double::fixed(peak, 0) + " W"@
            }
            &&& o.reading is None ==> lines.len() == 1 && lines[0].len() == 1 && lines[0][0].text
                == o.status@
        }),
{
    reveal_strlit("");
    if o.reading is Some {
        let amps = panels::amps_text((o.reading->0).pins@);
        assert(""@ + amps + " A"@ =~= amps + " A"@);
        assert("STALE "@ + amps + " A"@ =~= "STALE "@ + (amps + " A"@));
    }
}

/// A chart's limit is the alerts' limit.
pub proof fn law_the_limit_shown_is_the_alerts()
    ensures
        panels::LIMIT_MA == crate::alert::OVERLOAD_A,
        panels::LIMIT_MA == 9_200,
{
}

} // verus!
