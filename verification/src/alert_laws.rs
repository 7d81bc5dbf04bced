//! When a reading gives which alert, and which pins it names.

use crate::alert;
use crate::alert::{AlertView, Thresholds};
use crate::decode;
use crate::decode::{Pin, Reading};
use crate::double;
use crate::double_laws;
use crate::reading_laws;
use crate::text;
use vstd::prelude::*;

verus! {

/// Whether there is an overload among the alerts.
pub open spec fn has_overload(alerts: Seq<AlertView>) -> bool {
    exists|i: int| 0 <= i < alerts.len() && (#[trigger] alerts[i]) is Overload
}

/// Whether there is a lost pin among the alerts.
pub open spec fn has_disconnect(alerts: Seq<AlertView>) -> bool {
    exists|i: int| 0 <= i < alerts.len() && (#[trigger] alerts[i]) is Disconnected
}

/// Whether there is an imbalance among the alerts.
pub open spec fn has_imbalance(alerts: Seq<AlertView>) -> bool {
    exists|i: int| 0 <= i < alerts.len() && (#[trigger] alerts[i]) is Imbalance
}

/// The three kinds in the order in which they are told.
pub open spec fn rank(a: AlertView) -> int {
    match a {
        AlertView::Overload(_) => 0,
        AlertView::Disconnected(_) => 1,
        AlertView::Imbalance(_) => 2,
    }
}

/// There is an overload exactly when some pin carries more than the limit, whatever else is wrong.
pub proof fn law_overload_is_told_when_a_pin_exceeds_the_limit(r: Reading, t: Thresholds)
    ensures
        has_overload(alert::alerts_of(r.pins@, t)) <==> exists|n: int|
            0 <= n < 6 && double::less(
                t.overload_amps,
                double::thousandths((#[trigger] r.pins@[n]).milliamps as nat),
            ),
{
    let out = alert::alerts_of(r.pins@, t);
    let f = |p: Pin| alert::amps_exceed(p.milliamps as nat, t.overload_amps);
    let named = alert::overloaded(r.pins@, t);
    if named.len() > 0 {
        assert(out[0] is Overload);
        assert(named.contains(named[0]));
        alert::lemma_pins_where(r.pins@, f, named[0]);
        let n = named[0] - 1;
        assert(double::less(
            t.overload_amps,
            double::thousandths(r.pins@[n].milliamps as nat),
        ));
    }
    if exists|n: int|
        0 <= n < 6 && double::less(
            t.overload_amps,
            double::thousandths((#[trigger] r.pins@[n]).milliamps as nat),
        ) {
        let n = choose|n: int|
            0 <= n < 6 && double::less(
                t.overload_amps,
                double::thousandths((#[trigger] r.pins@[n]).milliamps as nat),
            );
        alert::lemma_pins_where(r.pins@, f, (n + 1) as usize);
        assert(named.contains((n + 1) as usize));
        assert(out[0] is Overload);
    }
}

/// There is a lost pin exactly when the total is above the minimum load and some pin carries less
/// than 100 mA, whatever else is wrong.
pub proof fn law_disconnect_is_told_when_a_pin_is_dead_under_load(r: Reading, t: Thresholds)
    ensures
        has_disconnect(alert::alerts_of(r.pins@, t)) <==> double::less(
            t.min_load_amps,
            decode::total_amps(r.pins@),
        ) && exists|n: int| 0 <= n < 6 && (#[trigger] r.pins@[n]).milliamps < 100,
{
    let out = alert::alerts_of(r.pins@, t);
    let f = |p: Pin| p.milliamps < alert::DEAD_PIN_MA;
    let named = alert::dead(r.pins@);
    let at = if alert::overloaded(r.pins@, t).len() > 0 {
        1int
    } else {
        0int
    };
    let loaded = double::less(t.min_load_amps, decode::total_amps(r.pins@));
    if loaded && named.len() > 0 {
        assert(out[at] is Disconnected);
        assert(named.contains(named[0]));
        alert::lemma_pins_where(r.pins@, f, named[0]);
        assert(r.pins@[named[0] - 1].milliamps < 100);
    }
    if exists|n: int| 0 <= n < 6 && (#[trigger] r.pins@[n]).milliamps < 100 {
        let n = choose|n: int| 0 <= n < 6 && (#[trigger] r.pins@[n]).milliamps < 100;
        alert::lemma_pins_where(r.pins@, f, (n + 1) as usize);
        assert(named.contains((n + 1) as usize));
        if loaded {
            assert(out[at] is Disconnected);
        }
    }
}

/// There is an imbalance exactly when the total is above the minimum load and there is a ratio
/// above its limit, whatever else is wrong; and it tells that ratio.
pub proof fn law_imbalance_is_told_when_the_ratio_exceeds_its_limit(r: Reading, t: Thresholds)
    ensures
        has_imbalance(alert::alerts_of(r.pins@, t)) <==> double::less(
            t.min_load_amps,
            decode::total_amps(r.pins@),
        ) && (decode::balance(r.pins@) matches Some(b) && double::less(t.imbalance_ratio, b)),
        forall|i: int|
            0 <= i < alert::alerts_of(r.pins@, t).len() && (#[trigger] alert::alerts_of(
                r.pins@,
                t,
            )[i]) is Imbalance ==> Some(alert::alerts_of(r.pins@, t)[i]->Imbalance_0)
                == decode::balance(r.pins@),
{
    let out = alert::alerts_of(r.pins@, t);
    if double::less(t.min_load_amps, decode::total_amps(r.pins@)) && decode::balance(
        r.pins@,
    ) is Some && double::less(t.imbalance_ratio, decode::balance(r.pins@)->0) {
        assert(out[out.len() - 1] is Imbalance);
    }
}

/// Each kind of alert is told at most once, and always in the same order.
pub proof fn law_alerts_come_in_order(r: Reading, t: Thresholds, i: int, j: int)
    requires
        0 <= i < j < alert::alerts_of(r.pins@, t).len(),
    ensures
        rank(alert::alerts_of(r.pins@, t)[i]) < rank(alert::alerts_of(r.pins@, t)[j]),
{
}

proof fn lemma_pins_ascend(pins: Seq<Pin>, f: spec_fn(Pin) -> bool, i: int, j: int)
    requires
        pins.len() <= 6,
        0 <= i < j < alert::pins_where(pins, f).len(),
    ensures
        alert::pins_where(pins, f)[i] < alert::pins_where(pins, f)[j],
    decreases pins.len(),
{
    if pins.len() > 0 {
        let before = alert::pins_where(pins.drop_last(), f);
        let all = alert::pins_where(pins, f);
        if f(pins.last()) {
            if j < before.len() {
                lemma_pins_ascend(pins.drop_last(), f, i, j);
            } else {
                assert(before.contains(before[i]));
                alert::lemma_pins_where(pins.drop_last(), f, before[i]);
            }
        } else {
            lemma_pins_ascend(pins.drop_last(), f, i, j);
        }
    }
}

/// An alert about pins names exactly the pins it is about, by their numbers from one to six,
/// each once and ascending.
pub proof fn law_alerts_name_their_pins(r: Reading, t: Thresholds, i: int, n: usize)
    requires
        0 <= i < alert::alerts_of(r.pins@, t).len(),
    ensures
        alert::alerts_of(r.pins@, t)[i] matches AlertView::Overload(p) ==> {
            &&& p.contains(n) <==> 1 <= n <= 6 && double::less(
                t.overload_amps,
                double::thousandths(r.pins@[n - 1].milliamps as nat),
            )
            &&& forall|a: int, b: int| 0 <= a < b < p.len() ==> p[a] < p[b]
        },
        alert::alerts_of(r.pins@, t)[i] matches AlertView::Disconnected(p) ==> {
            &&& p.contains(n) <==> 1 <= n <= 6 && r.pins@[n - 1].milliamps < 100
            &&& forall|a: int, b: int| 0 <= a < b < p.len() ==> p[a] < p[b]
        },
{
    let over = |p: Pin| alert::amps_exceed(p.milliamps as nat, t.overload_amps);
    let none = |p: Pin| p.milliamps < alert::DEAD_PIN_MA;
    alert::lemma_pins_where(r.pins@, over, n);
    alert::lemma_pins_where(r.pins@, none, n);
    let p = alert::overloaded(r.pins@, t);
    assert forall|a: int, b: int| 0 <= a < b < p.len() implies p[a] < p[b] by {
        lemma_pins_ascend(r.pins@, over, a, b);
    }
    let q = alert::dead(r.pins@);
    assert forall|a: int, b: int| 0 <= a < b < q.len() implies q[a] < q[b] by {
        lemma_pins_ascend(r.pins@, none, a, b);
    }
}

/// The built-in limits in milliamps: an overload is a pin above 9200; a lost pin is one below 100
/// with more than 5000 in all; an imbalance is a pin with more than half as much again as
/// another, with every pin above 50 and more than 5000 in all.
pub proof fn law_the_built_in_limits(r: Reading, hi: int, lo: int)
    requires
        0 <= hi < 6,
        0 <= lo < 6,
        forall|i: int| 0 <= i < 6 ==> (#[trigger] r.pins@[i]).milliamps <= r.pins@[hi].milliamps,
        forall|i: int| 0 <= i < 6 ==> r.pins@[lo].milliamps <= (#[trigger] r.pins@[i]).milliamps,
    ensures
        ({
            let out = alert::alerts_of(r.pins@, alert::default_thresholds());
            let a = r.pins@[hi].milliamps as int;
            let b = r.pins@[lo].milliamps as int;
            let sum = r.pins@[0].milliamps + r.pins@[1].milliamps + r.pins@[2].milliamps
                + r.pins@[3].milliamps + r.pins@[4].milliamps + r.pins@[5].milliamps;
            &&& has_overload(out) <==> a > 9_200
            &&& sum > 5_000 ==> (has_disconnect(out) <==> b < 100)
            &&& sum < 5_000 ==> !has_disconnect(out) && !has_imbalance(out)
            &&& sum > 5_000 && b > 50 && 2 * a > 3 * b ==> has_imbalance(out)
            &&& b <= 50 || 2 * a < 3 * b ==> !has_imbalance(out)
        }),
{
    let t = alert::default_thresholds();
    law_overload_is_told_when_a_pin_exceeds_the_limit(r, t);
    law_disconnect_is_told_when_a_pin_is_dead_under_load(r, t);
    law_imbalance_is_told_when_the_ratio_exceeds_its_limit(r, t);
    reading_laws::law_load_is_compared_as_added(r, 5_000);
    reading_laws::law_the_ratio_is_highest_over_lowest(r, hi, lo);
    assert forall|n: int| 0 <= n < 6 implies (double::less(
        double::thousandths(9_200),
        double::thousandths((#[trigger] r.pins@[n]).milliamps as nat),
    ) <==> r.pins@[n].milliamps > 9_200) by {
        double_laws::law_thousandths_are_ordered(9_200, r.pins@[n].milliamps as nat);
    }
    assert(r.pins@[hi].milliamps >= 0);
    assert(r.pins@[lo].milliamps >= 0);
    let a = r.pins@[hi].milliamps as int;
    let b = r.pins@[lo].milliamps as int;
    if b > 50 {
        double_laws::law_thousandths_are_close(1_500);
        double_laws::lemma_one();
        let x = double::thousandths(1_500)->size;
        let y = decode::balance(r.pins@)->0->size;
        double::lemma_smaller_by_weight(x, y);
        let one = double_laws::one() as int;
        let (wx, wy) = (double::weight(x) as int, double::weight(y) as int);
        if 2 * a > 3 * b {
            assert(2 * (a * one) >= 3 * (b * one) + one) by (nonlinear_arith)
                requires
                    2 * a >= 3 * b + 1,
                    one >= 0,
            ;
            assert(wx < wy) by (nonlinear_arith)
                requires
                    0x1_0000 * (a * one - wy * b) <= one,
                    2 * (a * one) >= 3 * (b * one) + one,
                    0x1_0000_0000 * (1000 * wx - 1500 * one) <= one,
                    51 <= b <= 65_535,
                    one >= 0x1_0000_0000,
            ;
        } else if 2 * a < 3 * b {
            assert(2 * (a * one) + one <= 3 * (b * one)) by (nonlinear_arith)
                requires
                    2 * a + 1 <= 3 * b,
                    one >= 0,
            ;
            assert(wx >= wy) by (nonlinear_arith)
                requires
                    0x1_0000 * (wy * b - a * one) <= one,
                    2 * (a * one) + one <= 3 * (b * one),
                    0x1_0000_0000 * (1500 * one - 1000 * wx) <= one,
                    51 <= b <= 65_535,
                    one >= 0x1_0000_0000,
            ;
        }
    }
}

// ---------------------------------------------------------------- in words

/// Alerts are told apart by their first words, and an imbalance says its ratio with two digits.
pub proof fn law_alert_texts_say_what_is_wrong(a: AlertView)
    ensures
        "OVERLOAD pins "@.is_prefix_of(alert::alert_text(a)) <==> a is Overload,
        "DISCONNECTED? pins "@.is_prefix_of(alert::alert_text(a)) <==> a is Disconnected,
        "IMBALANCE hi/lo="@.is_prefix_of(alert::alert_text(a)) <==> a is Imbalance,
        a matches AlertView::Imbalance(b) ==> alert::alert_text(a).skip(16) == double::fixed(b, 2),
{
    reveal_strlit("OVERLOAD pins ");
    reveal_strlit("DISCONNECTED? pins ");
    reveal_strlit("IMBALANCE hi/lo=");
    let s = alert::alert_text(a);
    assert("OVERLOAD pins "@[0] == 'O' && "DISCONNECTED? pins "@[0] == 'D'
        && "IMBALANCE hi/lo="@[0] == 'I');
    match a {
        AlertView::Overload(p) => {
            assert(s[0] == 'O');
            assert(s.subrange(0, 14) =~= "OVERLOAD pins "@);
        },
        AlertView::Disconnected(p) => {
            assert(s[0] == 'D');
            assert(s.subrange(0, 19) =~= "DISCONNECTED? pins "@);
        },
        AlertView::Imbalance(b) => {
            assert(s[0] == 'I');
            assert(s.subrange(0, 16) =~= "IMBALANCE hi/lo="@);
            assert(s.skip(16) =~= double::fixed(b, 2));
        },
    }
}

/// The pins are listed by their numbers with a plus between them: a list with one pin more is the
/// list, a plus and its number.
pub proof fn law_pins_are_listed_with_pluses(pins: Seq<usize>, n: usize)
    ensures
        alert::pin_list(seq![n]) == text::decimal(n as nat),
        pins.len() > 0 ==> alert::pin_list(pins.push(n)) == alert::pin_list(pins) + seq!['+']
            + text::decimal(n as nat),
{
    reveal_strlit("+");
    assert("+"@ =~= seq!['+']);
    let one = alert::decimals(seq![n]);
    assert(one[0] == text::decimal(n as nat));
    let all = alert::decimals(pins.push(n));
    assert(all.drop_last() =~= alert::decimals(pins));
    assert(all.last() == text::decimal(n as nat));
}

} // verus!
