//! Decoding the ITE IT8915FN per-pin telemetry block.
//!
//! Register `0x80` exposes a 24-byte block: six pins, each `(u16 mV voltage, u16 mA current)`
//! big-endian, stored in **reverse** pin order (offset 0 = highest pin number). Pins are
//! kept in the chip's own units; volts, amps and what is computed of them are floats.

use crate::double;
use crate::double::Number;
use vstd::prelude::*;

verus! {

/// Number of 12V power pins on the 12V-2x6 connector.
pub const PIN_COUNT: usize = 6;
/// Length of the raw telemetry block (six pins of four bytes).
pub const RAW_LEN: usize = 24;
/// A pin at or below this many milliamps has no meaningful share in a ratio.
pub const RATIO_FLOOR_MA: u16 = 50;
/// Lowest rail voltage a real reading shows, in millivolts.
pub const RAIL_MIN_MV: u16 = 5_000;
/// Highest rail voltage a real reading shows, in millivolts.
pub const RAIL_MAX_MV: u16 = 20_000;

/// A single 12V pin's measured voltage and current.
#[derive(Debug, Clone, Copy, PartialEq, Eq, Structural)]
pub struct Pin {
    pub millivolts: u16,
    pub milliamps: u16,
}

/// One decoded snapshot of all six pins, in physical pin order (pin 1 first).
#[derive(Debug, Clone, Copy, PartialEq, Eq)]
pub struct Reading {
    pub pins: [Pin; 6],
}

// ---------------------------------------------------------------- what a reading says

/// Sum of the currents, in amps, from the first pin on.
pub open spec fn total_amps(pins: Seq<Pin>) -> Number
    decreases pins.len(),
{
    if pins.len() == 0 {
        double::zero()
    } else {
        double::plus(
            total_amps(pins.drop_last()),
            double::thousandths(pins.last().milliamps as nat),
        )
    }
}

/// The power of a pin, in watts.
pub open spec fn pin_watts(p: Pin) -> Number {
    double::times(
        double::thousandths(p.millivolts as nat),
        double::thousandths(p.milliamps as nat),
    )
}

/// Sum of the powers, in watts, from the first pin on.
pub open spec fn total_watts(pins: Seq<Pin>) -> Number
    decreases pins.len(),
{
    if pins.len() == 0 {
        double::zero()
    } else {
        double::plus(total_watts(pins.drop_last()), pin_watts(pins.last()))
    }
}

/// `m` is the highest voltage of the pins.
pub open spec fn is_max_volts(pins: Seq<Pin>, m: u16) -> bool {
    &&& forall|i: int| 0 <= i < pins.len() ==> (#[trigger] pins[i]).millivolts <= m
    &&& exists|i: int| 0 <= i < pins.len() && (#[trigger] pins[i]).millivolts == m
}

/// `m` is the lowest voltage of the pins.
pub open spec fn is_min_volts(pins: Seq<Pin>, m: u16) -> bool {
    &&& forall|i: int| 0 <= i < pins.len() ==> m <= (#[trigger] pins[i]).millivolts
    &&& exists|i: int| 0 <= i < pins.len() && (#[trigger] pins[i]).millivolts == m
}

/// `m` is the highest current of the pins.
pub open spec fn is_max_amps(pins: Seq<Pin>, m: u16) -> bool {
    &&& forall|i: int| 0 <= i < pins.len() ==> (#[trigger] pins[i]).milliamps <= m
    &&& exists|i: int| 0 <= i < pins.len() && (#[trigger] pins[i]).milliamps == m
}

/// `m` is the lowest current of the pins.
pub open spec fn is_min_amps(pins: Seq<Pin>, m: u16) -> bool {
    &&& forall|i: int| 0 <= i < pins.len() ==> m <= (#[trigger] pins[i]).milliamps
    &&& exists|i: int| 0 <= i < pins.len() && (#[trigger] pins[i]).milliamps == m
}

/// The highest current of the pins.
pub open spec fn max_amps(pins: Seq<Pin>) -> u16 {
    choose|m: u16| is_max_amps(pins, m)
}

/// The lowest current of the pins.
pub open spec fn min_amps(pins: Seq<Pin>) -> u16 {
    choose|m: u16| is_min_amps(pins, m)
}

/// The highest voltage of the pins.
pub open spec fn max_volts(pins: Seq<Pin>) -> u16 {
    choose|m: u16| is_max_volts(pins, m)
}

/// The lowest voltage of the pins.
pub open spec fn min_volts(pins: Seq<Pin>) -> u16 {
    choose|m: u16| is_min_volts(pins, m)
}

/// Highest over lowest current, unless the lowest pin carries next to nothing.
pub open spec fn balance(pins: Seq<Pin>) -> Option<Number> {
    if min_amps(pins) > RATIO_FLOOR_MA {
        Some(
            double::over(
                double::thousandths(max_amps(pins) as nat),
                double::thousandths(min_amps(pins) as nat),
            ),
        )
    } else {
        None
    }
}

/// Whether the highest pin voltage lies in the band of a 12V rail.
pub open spec fn is_plausible(pins: Seq<Pin>) -> bool {
    RAIL_MIN_MV <= max_volts(pins) <= RAIL_MAX_MV
}

proof fn lemma_max_amps(pins: Seq<Pin>, m: u16)
    requires
        is_max_amps(pins, m),
    ensures
        max_amps(pins) == m,
{
    let c = max_amps(pins);
    assert(is_max_amps(pins, c));
}

proof fn lemma_min_amps(pins: Seq<Pin>, m: u16)
    requires
        is_min_amps(pins, m),
    ensures
        min_amps(pins) == m,
{
    let c = min_amps(pins);
    assert(is_min_amps(pins, c));
}

proof fn lemma_min_volts(pins: Seq<Pin>, m: u16)
    requires
        is_min_volts(pins, m),
    ensures
        min_volts(pins) == m,
{
    let c = min_volts(pins);
    assert(is_min_volts(pins, c));
}

proof fn lemma_max_volts(pins: Seq<Pin>, m: u16)
    requires
        is_max_volts(pins, m),
    ensures
        max_volts(pins) == m,
{
    let c = max_volts(pins);
    assert(is_max_volts(pins, c));
}

/// The highest and lowest currents and voltages bound every pin, and some pin attains each of
/// them.
pub proof fn law_extremes(r: Reading)
    ensures
        is_max_amps(r.pins@, max_amps(r.pins@)),
        is_min_amps(r.pins@, min_amps(r.pins@)),
        is_max_volts(r.pins@, max_volts(r.pins@)),
        is_min_volts(r.pins@, min_volts(r.pins@)),
{
    lemma_extremes_exist(r.pins@, 6);
}

proof fn lemma_extremes_exist(pins: Seq<Pin>, n: nat)
    requires
        1 <= n <= pins.len(),
    ensures
        exists|m: u16| is_max_amps(pins.take(n as int), m),
        exists|m: u16| is_min_amps(pins.take(n as int), m),
        exists|m: u16| is_max_volts(pins.take(n as int), m),
        exists|m: u16| is_min_volts(pins.take(n as int), m),
        n == pins.len() ==> is_max_amps(pins, max_amps(pins)),
        n == pins.len() ==> is_min_amps(pins, min_amps(pins)),
        n == pins.len() ==> is_max_volts(pins, max_volts(pins)),
        n == pins.len() ==> is_min_volts(pins, min_volts(pins)),
    decreases n,
{
    let t = pins.take(n as int);
    let last = pins[n - 1];
    assert(t[n - 1] == last);
    if n == 1 {
        assert(is_max_amps(t, last.milliamps));
        assert(is_min_amps(t, last.milliamps));
        assert(is_max_volts(t, last.millivolts));
        assert(is_min_volts(t, last.millivolts));
    } else {
        lemma_extremes_exist(pins, (n - 1) as nat);
        let p = pins.take(n - 1);
        assert forall|i: int| 0 <= i < n - 1 implies p[i] == t[i] by {}
        let a = choose|m: u16| is_max_amps(p, m);
        let b = choose|m: u16| is_min_amps(p, m);
        let c = choose|m: u16| is_max_volts(p, m);
        let d = choose|m: u16| is_min_volts(p, m);
        let ia = choose|i: int| 0 <= i < p.len() && p[i].milliamps == a;
        let ib = choose|i: int| 0 <= i < p.len() && p[i].milliamps == b;
        let ic = choose|i: int| 0 <= i < p.len() && p[i].millivolts == c;
        let id = choose|i: int| 0 <= i < p.len() && p[i].millivolts == d;
        assert(t[ia].milliamps == a && t[ib].milliamps == b && t[ic].millivolts == c);
        assert(t[id].millivolts == d);
        assert(is_max_amps(t, if last.milliamps > a { last.milliamps } else { a }));
        assert(is_min_amps(t, if last.milliamps < b { last.milliamps } else { b }));
        assert(is_max_volts(t, if last.millivolts > c { last.millivolts } else { c }));
        assert(is_min_volts(t, if last.millivolts < d { last.millivolts } else { d }));
    }
    if n == pins.len() {
        assert(t =~= pins);
    }
}

impl Reading {
    /// Sum of per-pin current, in amps.
    pub fn total_amps(&self) -> (total: Number)
        ensures
            total == total_amps(self.pins@),
    {
        let mut total = Number::zero();
        let mut i: usize = 0;
        while i < 6
            invariant
                i <= 6,
                total == total_amps(self.pins@.take(i as int)),
            decreases 6 - i,
        {
            assert(self.pins@.take(i + 1).drop_last() =~= self.pins@.take(i as int));
            total = total.plus(Number::thousandths(self.pins[i].milliamps as u64));
            i = i + 1;
        }
        assert(self.pins@.take(6) =~= self.pins@);
        total
    }

    /// Sum of per-pin power, in watts.
    pub fn total_watts(&self) -> (total: Number)
        ensures
            total == total_watts(self.pins@),
    {
        let mut total = Number::zero();
        let mut i: usize = 0;
        while i < 6
            invariant
                i <= 6,
                total == total_watts(self.pins@.take(i as int)),
            decreases 6 - i,
        {
            assert(self.pins@.take(i + 1).drop_last() =~= self.pins@.take(i as int));
            let volts = Number::thousandths(self.pins[i].millivolts as u64);
            let amps = Number::thousandths(self.pins[i].milliamps as u64);
            total = total.plus(volts.times(amps));
            i = i + 1;
        }
        assert(self.pins@.take(6) =~= self.pins@);
        total
    }

    /// Highest per-pin voltage seen, in millivolts (used as a plausibility signal).
    pub fn max_volts(&self) -> (m: u16)
        ensures
            m == max_volts(self.pins@),
            is_max_volts(self.pins@, m),
    {
        let mut m: u16 = self.pins[0].millivolts;
        let mut i: usize = 1;
        while i < 6
            invariant
                1 <= i <= 6,
                forall|j: int| 0 <= j < i ==> (#[trigger] self.pins@[j]).millivolts <= m,
                exists|j: int| 0 <= j < i && (#[trigger] self.pins@[j]).millivolts == m,
            decreases 6 - i,
        {
            if self.pins[i].millivolts > m {
                m = self.pins[i].millivolts;
                assert(self.pins@[i as int].millivolts == m);
            }
            i = i + 1;
        }
        proof {
            lemma_max_volts(self.pins@, m);
        }
        m
    }

    /// Highest per-pin current, in milliamps.
    pub fn max_amps(&self) -> (m: u16)
        ensures
            m == max_amps(self.pins@),
            is_max_amps(self.pins@, m),
    {
        let mut m: u16 = self.pins[0].milliamps;
        let mut i: usize = 1;
        while i < 6
            invariant
                1 <= i <= 6,
                forall|j: int| 0 <= j < i ==> (#[trigger] self.pins@[j]).milliamps <= m,
                exists|j: int| 0 <= j < i && (#[trigger] self.pins@[j]).milliamps == m,
            decreases 6 - i,
        {
            if self.pins[i].milliamps > m {
                m = self.pins[i].milliamps;
                assert(self.pins@[i as int].milliamps == m);
            }
            i = i + 1;
        }
        proof {
            lemma_max_amps(self.pins@, m);
        }
        m
    }

    /// Lowest per-pin current, in milliamps.
    pub fn min_amps(&self) -> (m: u16)
        ensures
            m == min_amps(self.pins@),
            is_min_amps(self.pins@, m),
    {
        let mut m: u16 = self.pins[0].milliamps;
        let mut i: usize = 1;
        while i < 6
            invariant
                1 <= i <= 6,
                forall|j: int| 0 <= j < i ==> m <= (#[trigger] self.pins@[j]).milliamps,
                exists|j: int| 0 <= j < i && (#[trigger] self.pins@[j]).milliamps == m,
            decreases 6 - i,
        {
            if self.pins[i].milliamps < m {
                m = self.pins[i].milliamps;
                assert(self.pins@[i as int].milliamps == m);
            }
            i = i + 1;
        }
        proof {
            lemma_min_amps(self.pins@, m);
        }
        m
    }

    /// The lowest pin voltage, in millivolts.
    pub fn min_volts(&self) -> (m: u16)
        ensures
            m == min_volts(self.pins@),
            is_min_volts(self.pins@, m),
    {
        let mut m: u16 = self.pins[0].millivolts;
        let mut i: usize = 1;
        while i < 6
            invariant
                1 <= i <= 6,
                forall|j: int| 0 <= j < i ==> m <= (#[trigger] self.pins@[j]).millivolts,
                exists|j: int| 0 <= j < i && (#[trigger] self.pins@[j]).millivolts == m,
            decreases 6 - i,
        {
            if self.pins[i].millivolts < m {
                m = self.pins[i].millivolts;
                assert(self.pins@[i as int].millivolts == m);
            }
            i = i + 1;
        }
        proof {
            lemma_min_volts(self.pins@, m);
        }
        m
    }

    /// Current imbalance as the highest/lowest pin ratio, or `None` when the lowest pin is
    /// essentially zero (the ratio is meaningless there).
    pub fn balance(&self) -> (b: Option<Number>)
        ensures
            b == balance(self.pins@),
    {
        let lo: u16 = self.min_amps();
        let hi: u16 = self.max_amps();
        if lo > RATIO_FLOOR_MA {
            Some(Number::thousandths(hi as u64).over(Number::thousandths(lo as u64)))
        } else {
            None
        }
    }

    /// A real reading carries the ~12V rail voltage on its pins; anything outside a sane band
    /// means this is not the IT8915FN (wrong device, GPU gone, garbage).
    pub fn plausible(&self) -> (r: bool)
        ensures
            r == is_plausible(self.pins@),
    {
        let m: u16 = self.max_volts();
        RAIL_MIN_MV <= m && m <= RAIL_MAX_MV
    }
}

// ---------------------------------------------------------------- the block

/// The big-endian word at `raw[i], raw[i + 1]`.
pub open spec fn word_at(raw: Seq<u8>, i: int) -> nat {
    raw[i] as nat * 256 + raw[i + 1] as nat
}

/// Physical pin `p` (counted from zero) of a block; the block holds the highest pin first.
pub open spec fn pin_of(raw: Seq<u8>, p: int) -> Pin {
    Pin {
        millivolts: word_at(raw, 4 * (5 - p)) as u16,
        milliamps: word_at(raw, 4 * (5 - p) + 2) as u16,
    }
}

fn word(hi: u8, lo: u8) -> (w: u16)
    ensures
        w == hi * 256 + lo,
{
    hi as u16 * 256 + lo as u16
}

fn pin_at(raw: &[u8; 24], at: usize) -> (p: Pin)
    requires
        at <= 20,
    ensures
        p.millivolts == word_at(raw@, at as int),
        p.milliamps == word_at(raw@, at + 2),
{
    Pin { millivolts: word(raw[at], raw[at + 1]), milliamps: word(raw[at + 2], raw[at + 3]) }
}

/// Decode a 24-byte telemetry block into per-pin readings (physical pin order).
pub fn decode(raw: &[u8; 24]) -> (r: Reading)
    ensures
        forall|p: int| 0 <= p < PIN_COUNT ==> #[trigger] r.pins@[p] == pin_of(raw@, p),
{
    Reading {
        pins: [
            pin_at(raw, 20),
            pin_at(raw, 16),
            pin_at(raw, 12),
            pin_at(raw, 8),
            pin_at(raw, 4),
            pin_at(raw, 0),
        ],
    }
}

/// The four bytes a pin is stored as: voltage, then current, high byte first.
pub open spec fn pin_bytes(p: Pin) -> Seq<u8> {
    seq![
        (p.millivolts / 256) as u8,
        (p.millivolts % 256) as u8,
        (p.milliamps / 256) as u8,
        (p.milliamps % 256) as u8,
    ]
}

/// Nothing in the block is lost: each pin's four bytes stand in it, highest pin first.
pub proof fn law_block_determines_pins(raw: Seq<u8>, p: int)
    requires
        raw.len() == RAW_LEN,
        0 <= p < PIN_COUNT,
    ensures
        pin_bytes(pin_of(raw, p)) == raw.subrange(4 * (5 - p), 4 * (5 - p) + 4),
{
    let i = 4 * (5 - p);
    assert(pin_bytes(pin_of(raw, p)) =~= raw.subrange(i, i + 4));
}

} // verus!
