//! What the system and `nvidia-smi` tell about a GPU besides its connector: load, board power,
//! temperature, fan, and the PCIe link.

use crate::double;
use crate::double::{read_decimal, Number};
use crate::i2c;
use crate::i2c::norm_pci;
use crate::number;
use crate::number::{read_signed, read_unsigned};
use crate::text;
use crate::text::{
    chars_of, decimal_text, decode_lossy, lines_of, slice_of, split, text_of, trim, word,
};
use vstd::prelude::*;
use vstd::utf8;

verus! {

/// What `nvidia-smi` is asked for.
pub const NVSMI_QUERY: &'static str =
    "--query-gpu=pci.bus_id,utilization.gpu,power.draw,power.limit,temperature.gpu,fan.speed";

/// How it answers.
pub const NVSMI_FORMAT: &'static str = "--format=csv,noheader,nounits";

/// Best-effort GPU stats from `nvidia-smi` — the i2c chip can't see load, temperature or board
/// power.
#[derive(Debug, PartialEq)]
pub struct GpuStat {
    /// Normalized PCI id.
    pub pci: String,
    /// Load in percent.
    pub util: Option<u8>,
    /// Board power in watts.
    pub draw_w: Option<Number>,
    /// Power limit in watts.
    pub limit_w: Option<Number>,
    /// Temperature in degrees Celsius.
    pub temp_c: Option<i32>,
    /// Fan speed in percent.
    pub fan: Option<u8>,
}

/// What a [`GpuStat`] holds.
#[verifier::ext_equal]
pub struct StatView {
    pub pci: Seq<char>,
    pub util: Option<u8>,
    pub draw_w: Option<Number>,
    pub limit_w: Option<Number>,
    pub temp_c: Option<i32>,
    pub fan: Option<u8>,
}

impl View for GpuStat {
    type V = StatView;

    open spec fn view(&self) -> StatView {
        StatView {
            pci: self.pci@,
            util: self.util,
            draw_w: self.draw_w,
            limit_w: self.limit_w,
            temp_c: self.temp_c,
            fan: self.fan,
        }
    }
}

impl Clone for GpuStat {
    fn clone(&self) -> (g: GpuStat)
        ensures
            g@ == self@,
    {
        GpuStat {
            pci: self.pci.clone(),
            util: self.util,
            draw_w: self.draw_w,
            limit_w: self.limit_w,
            temp_c: self.temp_c,
            fan: self.fan,
        }
    }
}

// ---------------------------------------------------------------- fields

/// A field without surrounding white space, unless it says that there is no value (`[N/A]`,
/// `[Not Supported]`).
pub open spec fn field_text(s: Seq<char>) -> Option<Seq<char>> {
    let t = text::trimmed(s);
    if t.len() == 0 || t[0] == '[' {
        None
    } else {
        Some(t)
    }
}

/// A field that holds a byte.
pub open spec fn byte_field(s: Seq<char>) -> Option<u8> {
    match field_text(s) {
        None => None,
        Some(t) => match number::numeral_value(t, 10, u8::MAX as nat) {
            Ok(n) => Some(n as u8),
            Err(_) => None,
        },
    }
}

/// A field that holds a decimal.
pub open spec fn decimal_field(s: Seq<char>) -> Option<Number> {
    match field_text(s) {
        None => None,
        Some(t) => double::decimal_value(t),
    }
}

/// A field that holds a signed number.
pub open spec fn signed_field(s: Seq<char>) -> Option<i32> {
    match field_text(s) {
        None => None,
        Some(t) => match number::signed_value(t) {
            Some(n) => Some(n as i32),
            None => None,
        },
    }
}

fn present(v: &Vec<char>) -> (r: Option<Vec<char>>)
    ensures
        match r {
            Some(t) => field_text(v@) == Some(t@),
            None => field_text(v@) is None,
        },
{
    let t = trim(v);
    if t.len() == 0 || t[0] == '[' {
        None
    } else {
        Some(t)
    }
}

fn parse_byte(v: &Vec<char>) -> (r: Option<u8>)
    ensures
        r == byte_field(v@),
{
    match present(v) {
        None => None,
        Some(t) => match read_unsigned(&t, 10, u8::MAX as u64) {
            Ok(n) => Some(n as u8),
            Err(_) => None,
        },
    }
}

fn parse_decimal(v: &Vec<char>) -> (r: Option<Number>)
    ensures
        r == decimal_field(v@),
{
    match present(v) {
        None => None,
        Some(t) => read_decimal(&t),
    }
}

fn parse_signed(v: &Vec<char>) -> (r: Option<i32>)
    ensures
        r == signed_field(v@),
{
    match present(v) {
        None => None,
        Some(t) => read_signed(&t),
    }
}

// ---------------------------------------------------------------- rows

/// The GPU that a row describes; a row with too few fields describes none.
pub open spec fn stat_of(line: Seq<char>) -> Option<StatView> {
    let f = text::pieces(line, ',');
    if f.len() < 6 {
        None
    } else {
        Some(
            StatView {
                pci: i2c::normal_pci(f[0]),
                util: byte_field(f[1]),
                draw_w: decimal_field(f[2]),
                limit_w: decimal_field(f[3]),
                temp_c: signed_field(f[4]),
                fan: byte_field(f[5]),
            },
        )
    }
}

/// The GPUs that some rows describe.
pub open spec fn stats_of(rows: Seq<Seq<char>>) -> Seq<StatView>
    decreases rows.len(),
{
    if rows.len() == 0 {
        seq![]
    } else {
        let before = stats_of(rows.drop_last());
        match stat_of(rows.last()) {
            Some(g) => before.push(g),
            None => before,
        }
    }
}

/// What a list of stats holds.
pub open spec fn stat_views(v: Seq<GpuStat>) -> Seq<StatView> {
    v.map_values(|g: GpuStat| g@)
}

fn parse_row(line: &Vec<char>) -> (g: Option<GpuStat>)
    ensures
        match g {
            Some(g) => stat_of(line@) == Some(g@),
            None => stat_of(line@) is None,
        },
{
    let f = split(line, ',');
    assert(text::char_views(f@) == text::pieces(line@, ','));
    if f.len() < 6 {
        return None;
    }
    assert(f@[0]@ == text::pieces(line@, ',')[0]);
    assert(f@[1]@ == text::pieces(line@, ',')[1]);
    assert(f@[2]@ == text::pieces(line@, ',')[2]);
    assert(f@[3]@ == text::pieces(line@, ',')[3]);
    assert(f@[4]@ == text::pieces(line@, ',')[4]);
    assert(f@[5]@ == text::pieces(line@, ',')[5]);
    Some(
        GpuStat {
            pci: norm_pci(text_of(&f[0]).as_str()),
            util: parse_byte(&f[1]),
            draw_w: parse_decimal(&f[2]),
            limit_w: parse_decimal(&f[3]),
            temp_c: parse_signed(&f[4]),
            fan: parse_byte(&f[5]),
        },
    )
}

/// The GPUs that the answer of `nvidia-smi` describes.
pub fn parse_gpu_csv(out: &str) -> (v: Vec<GpuStat>)
    ensures
        stat_views(v@) == stats_of(text::lines(out@)),
{
    let rows = lines_of(out);
    let ghost all = text::char_views(rows@);
    let mut v: Vec<GpuStat> = Vec::new();
    let mut i: usize = 0;
    assert(all.take(0) =~= seq![]);
    assert(stat_views(v@) =~= seq![]);
    while i < rows.len()
        invariant
            i <= rows.len(),
            all == text::char_views(rows@),
            stat_views(v@) == stats_of(all.take(i as int)),
        decreases rows.len() - i,
    {
        let ghost had = stat_views(v@);
        assert(all.take(i + 1).drop_last() =~= all.take(i as int));
        assert(all.take(i + 1).last() == rows@[i as int]@);
        if let Some(g) = parse_row(&rows[i]) {
            let ghost said = g@;
            v.push(g);
            assert(stat_views(v@) =~= had.push(said));
        }
        i = i + 1;
    }
    assert(all.take(all.len() as int) =~= all);
    v
}

/// The GPUs that a run of `nvidia-smi` describes, from what it printed; `None` where it failed.
pub fn gpu_stats(succeeded: bool, stdout: &Vec<u8>) -> (v: Option<Vec<GpuStat>>)
    ensures
        v is Some <==> succeeded,
        v matches Some(g) ==> stat_views(g@) == stats_of(text::lines(text::lossy(stdout@))),
        utf8::valid_utf8(stdout@) ==> (v matches Some(g) ==> stat_views(g@) == stats_of(
            text::lines(utf8::decode_utf8(stdout@)),
        )),
{
    if succeeded {
        Some(parse_gpu_csv(decode_lossy(stdout).as_str()))
    } else {
        None
    }
}

// ---------------------------------------------------------------- the PCIe link

/// The PCIe generation of a speed in GT/s.
pub open spec fn generation(gts: Number) -> u8 {
    if double::at_most(double::whole(64), gts) {
        6
    } else if double::at_most(double::whole(32), gts) {
        5
    } else if double::at_most(double::whole(16), gts) {
        4
    } else if double::at_most(double::whole(8), gts) {
        3
    } else if double::at_most(double::whole(5), gts) {
        2
    } else {
        1
    }
}

/// The PCIe generation of a speed such as `16.0 GT/s PCIe`.
pub open spec fn speed_generation(s: Seq<char>) -> Option<u8> {
    match double::decimal_value(text::first_word(s)) {
        Some(gts) => Some(generation(gts)),
        None => None,
    }
}

/// PCIe generation from a `current_link_speed` string like "16.0 GT/s PCIe".
pub fn gen_from_speed(s: &str) -> (g: Option<u8>)
    ensures
        g == speed_generation(s@),
{
    let v = chars_of(s);
    assert(v@.skip(0) =~= v@);
    let w = word(&v, 0);
    match read_decimal(&slice_of(&v, w.0, w.1)) {
        None => None,
        Some(gts) => Some(
            if Number::whole(64).at_most(gts) {
                6
            } else if Number::whole(32).at_most(gts) {
                5
            } else if Number::whole(16).at_most(gts) {
                4
            } else if Number::whole(8).at_most(gts) {
                3
            } else if Number::whole(5).at_most(gts) {
                2
            } else {
                1
            },
        ),
    }
}

/// The attribute files of a PCIe link; `None` stands for a file that could not be read.
#[derive(Debug, PartialEq)]
pub struct LinkFiles {
    pub current_speed: Option<String>,
    pub current_width: Option<String>,
    pub max_speed: Option<String>,
    pub max_width: Option<String>,
}

/// A link width.
pub open spec fn width_of(s: Seq<char>) -> Option<u16> {
    match number::numeral_value(text::trimmed(s), 10, u16::MAX as nat) {
        Ok(n) => Some(n as u16),
        Err(_) => None,
    }
}

/// The current link and whether it is at the card's maximum. Where the maximum is unknown, the
/// link counts as being there.
pub open spec fn link_of(f: LinkFiles) -> Option<(u8, u16, bool)> {
    match (f.current_speed, f.current_width) {
        (Some(s), Some(w)) => match (speed_generation(s@), width_of(w@)) {
            (Some(gen), Some(width)) => Some(
                (
                    gen,
                    width,
                    match (f.max_speed, f.max_width) {
                        (Some(ms), Some(mw)) => speed_generation(ms@) == Some(gen) && width_of(
                            mw@,
                        ) == Some(width),
                        _ => true,
                    },
                ),
            ),
            _ => None,
        },
        _ => None,
    }
}

/// A link in words, such as `Gen4×16`.
pub open spec fn link_text(gen: u8, width: u16) -> Seq<char> {
    "Gen"@ + text::decimal(gen as nat) + "×"@ + text::decimal(width as nat)
}

fn parse_width(s: &str) -> (w: Option<u16>)
    ensures
        w == width_of(s@),
{
    match read_unsigned(&trim(&chars_of(s)), 10, u16::MAX as u64) {
        Ok(n) => Some(n as u16),
        Err(_) => None,
    }
}

/// Current PCIe link as `("Gen4×16", at_max)`; `at_max` is false when down-trained.
pub fn pcie_link(f: &LinkFiles) -> (r: Option<(String, bool)>)
    ensures
        match r {
            Some((s, at_max)) => link_of(*f) is Some && at_max == (link_of(*f)->0).2 && s@
                == link_text((link_of(*f)->0).0, (link_of(*f)->0).1),
            None => link_of(*f) is None,
        },
{
    match (&f.current_speed, &f.current_width) {
        (Some(s), Some(w)) => match (gen_from_speed(s.as_str()), parse_width(w.as_str())) {
            (Some(gen), Some(width)) => {
                let at_max = match (&f.max_speed, &f.max_width) {
                    (Some(ms), Some(mw)) => gen_from_speed(ms.as_str()) == Some(gen)
                        && parse_width(mw.as_str()) == Some(width),
                    _ => true,
                };
                let mut out = "Gen".to_owned();
                out.append(decimal_text(gen as u128).as_str());
                out.append("×");
                out.append(decimal_text(width as u128).as_str());
                Some((out, at_max))
            },
            _ => None,
        },
        _ => None,
    }
}

/// An unavailable value is never mistaken for a number: a field in brackets gives none.
pub proof fn law_not_available_is_no_value(s: Seq<char>)
    requires
        text::trimmed(s).len() > 0,
        text::trimmed(s)[0] == '[',
    ensures
        byte_field(s) is None,
        decimal_field(s) is None,
        signed_field(s) is None,
{
}

} // verus!
