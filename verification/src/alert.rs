//! Per-pin alert evaluation — the connector-melt early-warning.

use crate::decode;
use crate::decode::{Pin, Reading};
use crate::double;
use crate::double::Number;
use crate::text;
use crate::text::{decimal_text, join};
use vstd::prelude::*;

verus! {

/// ASUS Power Detector+ per-pin overload threshold: 9.2 A, in thousandths.
pub const OVERLOAD_A: u64 = 9_200;
/// hi/lo current ratio above which the load is considered imbalanced: 1.5, in thousandths.
pub const IMBALANCE_RATIO: u64 = 1_500;
/// Imbalance and disconnect are only meaningful above this total load (5 A, in thousandths);
/// below it the per-pin currents are tiny and the ratio is just noise.
pub const MIN_LOAD_A: u64 = 5_000;
/// A pin below this many milliamps carries nothing.
pub const DEAD_PIN_MA: u16 = 100;

/// The limits a reading is held against.
#[derive(Debug, Clone, Copy, PartialEq, Eq, Structural)]
pub struct Thresholds {
    /// Per-pin current above which a pin is overloaded, in amps.
    pub overload_amps: Number,
    /// hi/lo current ratio above which the load is imbalanced.
    pub imbalance_ratio: Number,
    /// Total current above which imbalance and disconnect are judged, in amps.
    pub min_load_amps: Number,
}

/// The built-in limits.
pub open spec fn default_thresholds() -> Thresholds {
    Thresholds {
        overload_amps: double::thousandths(OVERLOAD_A as nat),
        imbalance_ratio: double::thousandths(IMBALANCE_RATIO as nat),
        min_load_amps: double::thousandths(MIN_LOAD_A as nat),
    }
}

impl Default for Thresholds {
    fn default() -> (t: Thresholds)
        ensures
            t == default_thresholds(),
    {
        Thresholds {
            overload_amps: Number::thousandths(OVERLOAD_A),
            imbalance_ratio: Number::thousandths(IMBALANCE_RATIO),
            min_load_amps: Number::thousandths(MIN_LOAD_A),
        }
    }
}

/// Something wrong with one reading.
#[derive(Debug, Clone, PartialEq)]
pub enum Alert {
    /// One or more pins exceeded the overload threshold.
    Overload(Vec<usize>),
    /// One or more pins read ~0 A while the card is under load (lost contact).
    Disconnected(Vec<usize>),
    /// The hi/lo current ratio exceeded the imbalance threshold.
    Imbalance(Number),
}

/// What an [`Alert`] says.
#[verifier::ext_equal]
pub enum AlertView {
    Overload(Seq<usize>),
    Disconnected(Seq<usize>),
    Imbalance(Number),
}

impl View for Alert {
    type V = AlertView;

    open spec fn view(&self) -> AlertView {
        match *self {
            Alert::Overload(p) => AlertView::Overload(p@),
            Alert::Disconnected(p) => AlertView::Disconnected(p@),
            Alert::Imbalance(r) => AlertView::Imbalance(r),
        }
    }
}

// ---------------------------------------------------------------- text

/// Each of the numbers in decimal.
pub open spec fn decimals(v: Seq<usize>) -> Seq<Seq<char>> {
    v.map_values(|n: usize| text::decimal(n as nat))
}

/// Pin list as `1+2+5` — free of commas so that alert text can sit in a CSV field.
pub open spec fn pin_list(pins: Seq<usize>) -> Seq<char> {
    text::joined(decimals(pins), "+"@)
}

/// An alert in words.
pub open spec fn alert_text(a: AlertView) -> Seq<char> {
    match a {
        AlertView::Overload(p) => "OVERLOAD pins "@ + pin_list(p) + " >9.2A"@,
        AlertView::Disconnected(p) => "DISCONNECTED? pins "@ + pin_list(p) + " ~0A under load"@,
        AlertView::Imbalance(r) => "IMBALANCE hi/lo="@ + double::fixed(r, 2),
    }
}

/// Pin list as `1+2+5`.
pub fn join_pins(pins: &Vec<usize>) -> (s: String)
    ensures
        s@ == pin_list(pins@),
{
    let mut parts: Vec<String> = Vec::new();
    let mut i: usize = 0;
    while i < pins.len()
        invariant
            i <= pins.len(),
            text::views(parts@) == decimals(pins@.take(i as int)),
        decreases pins.len() - i,
    {
        let ghost had = parts@;
        parts.push(decimal_text(pins[i] as u128));
        assert(text::views(parts@) =~= text::views(had).push(text::decimal(pins@[i as int] as nat)));
        assert(decimals(pins@.take(i + 1)) =~= decimals(pins@.take(i as int)).push(
            text::decimal(pins@[i as int] as nat),
        ));
        i = i + 1;
    }
    assert(pins@.take(pins@.len() as int) =~= pins@);
    join(&parts, "+")
}

impl Alert {
    /// The alert in words.
    pub fn to_string(&self) -> (s: String)
        ensures
            s@ == alert_text(self@),
    {
        match self {
            Alert::Overload(p) => {
                let mut s = "OVERLOAD pins ".to_owned();
                s.append(join_pins(p).as_str());
                s.append(" >9.2A");
                s
            },
            Alert::Disconnected(p) => {
                let mut s = "DISCONNECTED? pins ".to_owned();
                s.append(join_pins(p).as_str());
                s.append(" ~0A under load");
                s
            },
            Alert::Imbalance(r) => {
                let mut s = "IMBALANCE hi/lo=".to_owned();
                s.append(r.fixed(2).as_str());
                s
            },
        }
    }
}

// ---------------------------------------------------------------- judging a reading

/// The numbers (counted from one) of the pins that satisfy `f`, ascending.
pub open spec fn pins_where(pins: Seq<Pin>, f: spec_fn(Pin) -> bool) -> Seq<usize>
    decreases pins.len(),
{
    if pins.len() == 0 {
        seq![]
    } else {
        let before = pins_where(pins.drop_last(), f);
        if f(pins.last()) {
            before.push(pins.len() as usize)
        } else {
            before
        }
    }
}

/// A current in milliamps is above a limit in amps.
pub open spec fn amps_exceed(milliamps: nat, limit: Number) -> bool {
    double::less(limit, double::thousandths(milliamps))
}

/// The pins that carry more than the overload limit.
pub open spec fn overloaded(pins: Seq<Pin>, t: Thresholds) -> Seq<usize> {
    pins_where(pins, |p: Pin| amps_exceed(p.milliamps as nat, t.overload_amps))
}

/// The pins that carry nothing.
pub open spec fn dead(pins: Seq<Pin>) -> Seq<usize> {
    pins_where(pins, |p: Pin| p.milliamps < DEAD_PIN_MA)
}

/// Whether there is load enough to judge disconnect and imbalance.
pub open spec fn loaded(pins: Seq<Pin>, t: Thresholds) -> bool {
    double::less(t.min_load_amps, decode::total_amps(pins))
}

/// Whether the pins are imbalanced.
pub open spec fn imbalanced(pins: Seq<Pin>, t: Thresholds) -> bool {
    decode::balance(pins) matches Some(r) && double::less(t.imbalance_ratio, r)
}

/// The alerts of a reading: overload at any load, disconnect and imbalance under load.
pub open spec fn alerts_of(pins: Seq<Pin>, t: Thresholds) -> Seq<AlertView> {
    let over = if overloaded(pins, t).len() > 0 {
        seq![AlertView::Overload(overloaded(pins, t))]
    } else {
        seq![]
    };
    let lost = if loaded(pins, t) && dead(pins).len() > 0 {
        seq![AlertView::Disconnected(dead(pins))]
    } else {
        seq![]
    };
    let uneven = if loaded(pins, t) && imbalanced(pins, t) {
        seq![AlertView::Imbalance(decode::balance(pins)->0)]
    } else {
        seq![]
    };
    over + lost + uneven
}

/// What a list of alerts says.
pub open spec fn alert_views(v: Seq<Alert>) -> Seq<AlertView> {
    v.map_values(|a: Alert| a@)
}

/// Evaluate a reading into zero or more alerts, against the built-in limits.
pub fn evaluate(r: &Reading) -> (out: Vec<Alert>)
    ensures
        alert_views(out@) == alerts_of(r.pins@, default_thresholds()),
{
    evaluate_with(r, &Thresholds::default())
}

/// Evaluate a reading into zero or more alerts, against the given limits.
pub fn evaluate_with(r: &Reading, t: &Thresholds) -> (out: Vec<Alert>)
    ensures
        alert_views(out@) == alerts_of(r.pins@, *t),
{
    let mut out: Vec<Alert> = Vec::new();
    let mut over: Vec<usize> = Vec::new();
    let mut none: Vec<usize> = Vec::new();
    let ghost is_over = |p: Pin| amps_exceed(p.milliamps as nat, t.overload_amps);
    let ghost is_dead = |p: Pin| p.milliamps < DEAD_PIN_MA;
    let mut i: usize = 0;
    while i < 6
        invariant
            i <= 6,
            is_over == (|p: Pin| amps_exceed(p.milliamps as nat, t.overload_amps)),
            is_dead == (|p: Pin| p.milliamps < DEAD_PIN_MA),
            over@ == pins_where(r.pins@.take(i as int), is_over),
            none@ == pins_where(r.pins@.take(i as int), is_dead),
        decreases 6 - i,
    {
        let pin = r.pins[i];
        assert(r.pins@.take(i + 1).drop_last() =~= r.pins@.take(i as int));
        if t.overload_amps.less(Number::thousandths(pin.milliamps as u64)) {
            over.push(i + 1);
        }
        if pin.milliamps < DEAD_PIN_MA {
            none.push(i + 1);
        }
        i = i + 1;
    }
    assert(r.pins@.take(6) =~= r.pins@);
    let ghost expect_over = over@;
    let ghost expect_dead = none@;
    if over.len() > 0 {
        out.push(Alert::Overload(over));
        assert(alert_views(out@) =~= seq![AlertView::Overload(expect_over)]);
    } else {
        assert(alert_views(out@) =~= seq![]);
    }
    let ghost first = alert_views(out@);
    if t.min_load_amps.less(r.total_amps()) {
        if none.len() > 0 {
            out.push(Alert::Disconnected(none));
            assert(alert_views(out@) =~= first + seq![AlertView::Disconnected(expect_dead)]);
        } else {
            assert(alert_views(out@) =~= first + seq![]);
        }
        let ghost second = alert_views(out@);
        let mut judged = false;
        if let Some(b) = r.balance() {
            if t.imbalance_ratio.less(b) {
                out.push(Alert::Imbalance(b));
                assert(alert_views(out@) =~= second + seq![AlertView::Imbalance(b)]);
                judged = true;
            }
        }
        if !judged {
            assert(alert_views(out@) =~= second + seq![]);
        }
    } else {
        assert(alert_views(out@) =~= first + seq![] + seq![]);
    }
    out
}

// ---------------------------------------------------------------- laws

proof fn lemma_decimal_has_no_comma(n: nat)
    ensures
        !text::decimal(n).contains(','),
    decreases n,
{
    if n >= 10 {
        lemma_decimal_has_no_comma(n / 10);
        let s = text::decimal(n);
        assert forall|i: int| 0 <= i < s.len() implies s[i] != ',' by {
            if i < s.len() - 1 {
                assert(s[i] == text::decimal(n / 10)[i]);
                assert(text::decimal(n / 10).contains(text::decimal(n / 10)[i]));
            }
        }
    }
}

proof fn lemma_concat_has_no(a: Seq<char>, b: Seq<char>, c: char)
    requires
        !a.contains(c),
        !b.contains(c),
    ensures
        !(a + b).contains(c),
{
    assert forall|i: int| 0 <= i < (a + b).len() implies (a + b)[i] != c by {
        if i < a.len() {
            assert(a.contains(a[i]));
        } else {
            assert(b.contains(b[i - a.len()]));
        }
    }
}

proof fn lemma_pin_list_has_no_comma(pins: Seq<usize>)
    ensures
        !pin_list(pins).contains(','),
    decreases pins.len(),
{
    reveal_strlit("+");
    if pins.len() == 1 {
        assert(decimals(pins)[0] == text::decimal(pins[0] as nat));
        lemma_decimal_has_no_comma(pins[0] as nat);
    } else if pins.len() > 1 {
        lemma_pin_list_has_no_comma(pins.drop_last());
        assert(decimals(pins).drop_last() =~= decimals(pins.drop_last()));
        assert(decimals(pins).last() == text::decimal(pins.last() as nat));
        lemma_decimal_has_no_comma(pins.last() as nat);
        let front = text::joined(decimals(pins).drop_last(), "+"@);
        lemma_concat_has_no(front, "+"@, ',');
        lemma_concat_has_no(front + "+"@, decimals(pins).last(), ',');
    }
}

/// Alert text never holds a comma, so it never breaks the columns of the CSV.
pub proof fn law_alert_text_has_no_comma(a: AlertView)
    ensures
        !alert_text(a).contains(','),
{
    match a {
        AlertView::Overload(p) => {
            reveal_strlit("OVERLOAD pins ");
            reveal_strlit(" >9.2A");
            lemma_pin_list_has_no_comma(p);
            lemma_concat_has_no("OVERLOAD pins "@, pin_list(p), ',');
            lemma_concat_has_no("OVERLOAD pins "@ + pin_list(p), " >9.2A"@, ',');
        },
        AlertView::Disconnected(p) => {
            reveal_strlit("DISCONNECTED? pins ");
            reveal_strlit(" ~0A under load");
            lemma_pin_list_has_no_comma(p);
            lemma_concat_has_no("DISCONNECTED? pins "@, pin_list(p), ',');
            lemma_concat_has_no("DISCONNECTED? pins "@ + pin_list(p), " ~0A under load"@, ',');
        },
        AlertView::Imbalance(r) => {
            reveal_strlit("IMBALANCE hi/lo=");
            double::lemma_number_numeral(r, 2);
            assert(!double::fixed(r, 2).contains(',')) by {
                assert(!double::is_numeral(','));
            }
            lemma_concat_has_no("IMBALANCE hi/lo="@, double::fixed(r, 2), ',');
        },
    }
}

/// Below the minimum load only an overload is ever reported: idle noise raises nothing else.
pub proof fn law_idle_reports_only_overload(r: Reading, t: Thresholds)
    requires
        !loaded(r.pins@, t),
    ensures
        alerts_of(r.pins@, t).len() <= 1,
        alerts_of(r.pins@, t).len() == 1 ==> alerts_of(r.pins@, t)[0]
            == AlertView::Overload(overloaded(r.pins@, t)),
{
}

pub proof fn lemma_pins_where(pins: Seq<Pin>, f: spec_fn(Pin) -> bool, n: usize)
    requires
        pins.len() <= 6,
    ensures
        pins_where(pins, f).contains(n) <==> (1 <= n <= pins.len() && f(pins[n - 1])),
    decreases pins.len(),
{
    if pins.len() > 0 {
        let before = pins_where(pins.drop_last(), f);
        lemma_pins_where(pins.drop_last(), f, n);
        let all = pins_where(pins, f);
        if f(pins.last()) {
            assert(all == before.push(pins.len() as usize));
            assert(all[all.len() - 1] == pins.len() as usize);
            if before.contains(n) {
                let j = choose|j: int| 0 <= j < before.len() && before[j] == n;
                assert(all[j] == n);
            }
            if all.contains(n) && n != pins.len() {
                let j = choose|j: int| 0 <= j < all.len() && all[j] == n;
                assert(before[j] == n);
            }
        }
    }
}

/// A pin is named in an overload alert exactly when it carries more than the limit.
pub proof fn law_overload_names_the_pins(r: Reading, t: Thresholds, n: usize)
    ensures
        overloaded(r.pins@, t).contains(n) <==> (1 <= n <= 6 && amps_exceed(
            r.pins@[n - 1].milliamps as nat,
            t.overload_amps,
        )),
{
    lemma_pins_where(r.pins@, |p: Pin| amps_exceed(p.milliamps as nat, t.overload_amps), n);
}

/// A pin is named in a disconnect alert exactly when it carries nothing.
pub proof fn law_disconnect_names_the_pins(r: Reading, n: usize)
    ensures
        dead(r.pins@).contains(n) <==> (1 <= n <= 6 && r.pins@[n - 1].milliamps < DEAD_PIN_MA),
{
    lemma_pins_where(r.pins@, |p: Pin| p.milliamps < DEAD_PIN_MA, n);
}

} // verus!
