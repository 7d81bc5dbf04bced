//! Which devices are GPUs, what they are called, and what `nvidia-smi` tells of them.

use crate::cards;
use crate::cards::DeviceEntry;
use crate::double;
use crate::double::Number;
use crate::double_laws;
use crate::i2c;
use crate::number;
use crate::numeral_laws;
use crate::smi;
use crate::smi::LinkFiles;
use crate::text;
use crate::text_laws;
use vstd::prelude::*;

verus! {

// ---------------------------------------------------------------- the table of cards

/// A name is found exactly where the table lists the id, and it is that of the first entry.
pub proof fn law_names_come_from_the_table(table: Seq<(u16, Seq<char>)>, id: u16)
    ensures
        match cards::model_in(table, id) {
            Some(m) => exists|i: int|
                0 <= i < table.len() && #[trigger] table[i] == (id, m) && forall|j: int|
                    0 <= j < i ==> (#[trigger] table[j]).0 != id,
            None => forall|i: int| 0 <= i < table.len() ==> (#[trigger] table[i]).0 != id,
        },
    decreases table.len(),
{
    if table.len() > 0 && table[0].0 != id {
        let rest = table.drop_first();
        law_names_come_from_the_table(rest, id);
        match cards::model_in(rest, id) {
            Some(m) => {
                let k = choose|i: int|
                    0 <= i < rest.len() && #[trigger] rest[i] == (id, m) && forall|j: int|
                        0 <= j < i ==> (#[trigger] rest[j]).0 != id;
                assert(table[k + 1] == (id, m));
                assert forall|j: int| 0 <= j < k + 1 implies (#[trigger] table[j]).0 != id by {
                    if j > 0 {
                        assert(rest[j - 1].0 != id);
                    }
                }
            },
            None => {
                assert forall|i: int| 0 <= i < table.len() implies (#[trigger] table[i]).0 != id by {
                    if i > 0 {
                        assert(rest[i - 1].0 != id);
                    }
                }
            },
        }
    }
}

/// Seven ids are known; all but one are of the larger model.
pub proof fn law_which_ids_are_known(id: u16)
    ensures
        cards::model_in(cards::known(), id) is Some <==> id == 0x89ed || id == 0x89ea || id
            == 0x89e3 || id == 0x89de || id == 0x8a61 || id == 0x8a2e || id == 0x89ec,
        cards::model_in(cards::known(), id) matches Some(m) ==> (if id == 0x89ec {
            m == "ROG Astral RTX 5080"@
        } else {
            "ROG Astral RTX 5090"@.is_prefix_of(m)
        }),
{
    reveal_with_fuel(cards::model_in, 8);
    reveal_strlit("ROG Astral RTX 5090");
    reveal_strlit("ROG Astral RTX 5090 O32G Gaming");
    reveal_strlit("ROG Astral RTX 5090 LC");
    reveal_strlit("ROG Astral RTX 5090 (variant)");
    let k = cards::known();
    law_names_come_from_the_table(k, id);
    let p = "ROG Astral RTX 5090"@;
    assert(p.is_prefix_of("ROG Astral RTX 5090 O32G Gaming"@)) by {
        assert("ROG Astral RTX 5090 O32G Gaming"@.subrange(0, p.len() as int) =~= p);
    }
    assert(p.is_prefix_of("ROG Astral RTX 5090 LC"@)) by {
        assert("ROG Astral RTX 5090 LC"@.subrange(0, p.len() as int) =~= p);
    }
    assert(p.is_prefix_of("ROG Astral RTX 5090 (variant)"@)) by {
        assert("ROG Astral RTX 5090 (variant)"@.subrange(0, p.len() as int) =~= p);
    }
    assert(p.is_prefix_of(p)) by {
        assert(p.subrange(0, p.len() as int) =~= p);
    }
    assert(k[0].0 == 0x89ed && k[1].0 == 0x89ea && k[2].0 == 0x89e3 && k[3].0 == 0x89de && k[4].0
        == 0x8a61 && k[5].0 == 0x8a2e && k[6].0 == 0x89ec);
}

// ---------------------------------------------------------------- attribute files

/// An attribute file is read as the hexadecimal number in it, with the prefix or without, and with
/// any white space around it; a number that does not fit, or nothing, is not read.
pub proof fn law_attributes_are_hexadecimal(file: String, n: nat)
    ensures
        text::trimmed(file@) == "0x"@ + text::hex(n) || text::trimmed(file@) == text::hex(n)
            ==> cards::attribute(Some(file)) == if n <= 0xffff {
            Some(n as u16)
        } else {
            None
        },
        text::trimmed(file@).len() == 0 ==> cards::attribute(Some(file)) is None,
        cards::attribute(None) is None,
        cards::attribute_or_zero(None) == 0,
        cards::attribute(Some(file)) is None ==> cards::attribute_or_zero(Some(file)) == 0,
        cards::attribute(Some(file)) matches Some(m) ==> cards::attribute_or_zero(Some(file)) == m,
{
    reveal_strlit("0x");
    let h = text::hex(n);
    text_laws::law_hexadecimals_read_back(n);
    numeral_laws::law_printed_numbers_are_read(n, 0xffff);
    assert(!("0x"@.is_prefix_of(h) && h.len() >= 2)) by {
        if h.len() >= 2 {
            assert('0' <= h[1] <= '9' || 'a' <= h[1] <= 'f');
            assert("0x"@[1] == 'x');
        }
    }
    assert(cards::without_0x(h) == h);
    let s = "0x"@ + h;
    assert(s.skip(2) =~= h);
    assert(s.subrange(0, 2) =~= "0x"@);
    assert("0x"@.is_prefix_of(s));
    assert(cards::without_0x(s) == h);
}

/// Display and 3D controllers are GPUs, and nothing else is: the class is `0x0300` or `0x0302`,
/// whatever follows.
pub proof fn law_which_classes_are_gpus(class: Seq<char>)
    ensures
        cards::gpu_class(class) <==> {
            let t = text::trimmed(class);
            &&& t.len() >= 6
            &&& t[0] == '0' && t[1] == 'x' && t[2] == '0' && t[3] == '3' && t[4] == '0'
            &&& t[5] == '0' || t[5] == '2'
        },
{
    reveal_strlit("0x0300");
    reveal_strlit("0x0302");
    let t = text::trimmed(class);
    let (a, b) = ("0x0300"@, "0x0302"@);
    assert(a =~= seq!['0', 'x', '0', '3', '0', '0']);
    assert(b =~= seq!['0', 'x', '0', '3', '0', '2']);
    if t.len() >= 6 {
        assert(t.subrange(0, 6) =~= seq![t[0], t[1], t[2], t[3], t[4], t[5]]);
        assert(t.subrange(0, 6)[0] == t[0] && t.subrange(0, 6)[1] == t[1] && t.subrange(0, 6)[2]
            == t[2] && t.subrange(0, 6)[3] == t[3] && t.subrange(0, 6)[4] == t[4] && t.subrange(
            0,
            6,
        )[5] == t[5]);
    }
}

/// An entry describes a GPU exactly when it has a name, NVIDIA's vendor number and the class of
/// one; what cannot be read of its subsystem counts as zero and does not hide it.
pub proof fn law_which_entries_are_gpus(e: DeviceEntry)
    ensures
        cards::gpu_of(e) is Some <==> {
            &&& cards::attribute(e.vendor) == Some(0x10deu16)
            &&& e.class matches Some(class) && cards::gpu_class(class@)
            &&& e.name is Some
        },
        cards::gpu_of(e) matches Some(g) ==> {
            &&& e.name matches Some(name) && g.pci == name@
            &&& cards::attribute(e.subsystem_vendor) matches Some(v) ==> g.subsystem_vendor == v
            &&& cards::attribute(e.subsystem_device) matches Some(d) ==> g.subsystem_device == d
            &&& cards::attribute(e.subsystem_vendor) is None ==> g.subsystem_vendor == 0
            &&& cards::attribute(e.subsystem_device) is None ==> g.subsystem_device == 0
        },
{
}

/// Every entry that describes a GPU is listed, once, in the order of the entries, and none else.
pub proof fn law_gpus_are_listed_entry_by_entry(a: Seq<DeviceEntry>, b: Seq<DeviceEntry>)
    ensures
        cards::gpus_among(a + b) == cards::gpus_among(a) + cards::gpus_among(b),
        a.len() == 0 ==> cards::gpus_among(a).len() == 0,
        a.len() == 1 ==> cards::gpus_among(a) == match cards::gpu_of(a[0]) {
            Some(g) => seq![g],
            None => seq![],
        },
    decreases b.len(),
{
    reveal_with_fuel(cards::gpus_among, 2);
    if b.len() == 0 {
        assert(a + b =~= a);
        assert(cards::gpus_among(a + b) =~= cards::gpus_among(a) + cards::gpus_among(b));
    } else {
        law_gpus_are_listed_entry_by_entry(a, b.drop_last());
        assert((a + b).drop_last() =~= a + b.drop_last());
        assert((a + b).last() == b.last());
        assert(cards::gpus_among(a + b) =~= cards::gpus_among(a) + cards::gpus_among(b));
    }
    if a.len() == 1 {
        assert(a.drop_last() =~= seq![]);
        assert(cards::gpus_among(a) =~= match cards::gpu_of(a[0]) {
            Some(g) => seq![g],
            None => seq![],
        });
    }
}

// ---------------------------------------------------------------- what nvidia-smi tells

/// A field is the number that stands in it, with any white space around it.
pub proof fn law_fields_are_read(s: Seq<char>, n: nat, m: i32)
    ensures
        text::trimmed(s) == text::decimal(n) ==> smi::byte_field(s) == if n <= 255 {
            Some(n as u8)
        } else {
            None
        },
        text::trimmed(s) == text::decimal(n) ==> smi::decimal_field(s) == Some(
            double::ratio(n, 1),
        ),
        text::trimmed(s) == number::signed_text(m as int) ==> smi::signed_field(s) == Some(m),
        text::trimmed(s).len() == 0 ==> smi::byte_field(s) is None && smi::decimal_field(s) is None
            && smi::signed_field(s) is None,
{
    numeral_laws::law_printed_numbers_are_read(n, 255);
    numeral_laws::law_signed_numbers_are_read_back(m);
    text_laws::law_decimals_read_back(n);
    let d = text::decimal(n);
    assert('0' <= d[0] <= '9');
    numeral_laws::law_decimals_are_read_to_the_nearest(d, seq![]);
    reveal_strlit("-");
    let t = number::signed_text(m as int);
    text_laws::law_decimals_read_back(if m < 0 {
        (-(m as int)) as nat
    } else {
        m as nat
    });
    if m < 0 {
        assert(t[0] == '-');
    } else {
        assert('0' <= t[0] <= '9');
    }
}

/// A decimal field is the number nearest to what stands in it.
pub proof fn law_decimal_fields_are_read(s: Seq<char>, n: nat, places: nat)
    requires
        places > 0,
        text::trimmed(s) == number::fixed(n, places),
    ensures
        smi::decimal_field(s) == Some(double::ratio(n, number::pow10(places))),
{
    let front = text::decimal(n / number::pow10(places));
    let tail = number::fixed(n, places).skip(front.len() as int + 1);
    numeral_laws::law_fixed_texts_read_back(n, places);
    text_laws::law_decimals_read_back(n / number::pow10(places));
    double::lemma_fixed_numeral(n, places);
    assert('0' <= front[0] <= '9');
    assert(number::fixed(n, places)[0] == front[0]);
    lemma_tail_digits(n, places);
    numeral_laws::law_decimals_are_read_to_the_nearest(front, tail);
}

proof fn lemma_tail_digits(n: nat, places: nat)
    ensures
        ({
            let front = text::decimal(n / number::pow10(places));
            let tail = number::fixed(n, places).skip(front.len() as int + 1);
            forall|i: int| 0 <= i < tail.len() ==> '0' <= #[trigger] tail[i] <= '9'
        }),
{
    reveal_strlit(".");
    let p = number::pow10(places);
    let front = text::decimal(n / p);
    let rest = text::decimal(n % p);
    text_laws::law_decimals_read_back(n % p);
    let tail = number::fixed(n, places).skip(front.len() as int + 1);
    let f = number::fraction(n, places);
    assert(tail =~= f);
    assert forall|i: int| 0 <= i < f.len() implies '0' <= #[trigger] f[i] <= '9' by {
        text_laws::law_filling_up_keeps_the_text(rest, places, '0');
        let k = f.len() - rest.len();
        if i >= k {
            assert(f.skip(k)[i - k] == f[i]);
            assert(rest[i - k] == f[i]);
        }
    }
}

/// A row of six or more fields tells of one GPU, each thing in the field of its own: where it is,
/// its load, draw, limit, temperature and fan; a shorter row tells of none.
pub proof fn law_rows_are_read_field_by_field(fields: Seq<Seq<char>>)
    requires
        fields.len() > 0,
        forall|i: int| 0 <= i < fields.len() ==> !(#[trigger] fields[i]).contains(','),
    ensures
        match smi::stat_of(text::joined(fields, seq![','])) {
            Some(g) => {
                &&& fields.len() >= 6
                &&& g.pci == i2c::normal_pci(fields[0])
                &&& g.util == smi::byte_field(fields[1])
                &&& g.draw_w == smi::decimal_field(fields[2])
                &&& g.limit_w == smi::decimal_field(fields[3])
                &&& g.temp_c == smi::signed_field(fields[4])
                &&& g.fan == smi::byte_field(fields[5])
            },
            None => fields.len() < 6,
        },
{
    text_laws::law_joined_texts_part_again(fields, ',');
}

/// Every row that tells of a GPU is listed, once, in the order of the rows, and none else.
pub proof fn law_stats_are_listed_row_by_row(a: Seq<Seq<char>>, b: Seq<Seq<char>>)
    ensures
        smi::stats_of(a + b) == smi::stats_of(a) + smi::stats_of(b),
        a.len() == 0 ==> smi::stats_of(a).len() == 0,
        a.len() == 1 ==> smi::stats_of(a) == match smi::stat_of(a[0]) {
            Some(g) => seq![g],
            None => seq![],
        },
    decreases b.len(),
{
    reveal_with_fuel(smi::stats_of, 2);
    if b.len() == 0 {
        assert(a + b =~= a);
        assert(smi::stats_of(a + b) =~= smi::stats_of(a) + smi::stats_of(b));
    } else {
        law_stats_are_listed_row_by_row(a, b.drop_last());
        assert((a + b).drop_last() =~= a + b.drop_last());
        assert((a + b).last() == b.last());
        assert(smi::stats_of(a + b) =~= smi::stats_of(a) + smi::stats_of(b));
    }
    if a.len() == 1 {
        assert(a.drop_last() =~= seq![]);
        assert(smi::stats_of(a) =~= match smi::stat_of(a[0]) {
            Some(g) => seq![g],
            None => seq![],
        });
    }
}

// ---------------------------------------------------------------- the PCIe link

/// The generations begin at 5, 8, 16, 32 and 64 GT/s.
pub proof fn law_generations_begin_at_their_speeds(n: nat)
    requires
        n <= 0xffff,
    ensures
        ({
            let g = smi::generation(double::whole(n));
            &&& 1 <= g <= 6
            &&& g >= 2 <==> n >= 5
            &&& g >= 3 <==> n >= 8
            &&& g >= 4 <==> n >= 16
            &&& g >= 5 <==> n >= 32
            &&& g >= 6 <==> n >= 64
        }),
        smi::generation(Number::NotANumber) == 1,
{
    lemma_whole_order(5, n);
    lemma_whole_order(8, n);
    lemma_whole_order(16, n);
    lemma_whole_order(32, n);
    lemma_whole_order(64, n);
}

proof fn lemma_whole_order(a: nat, b: nat)
    requires
        a <= 0xffff,
        b <= 0xffff,
    ensures
        double::at_most(double::whole(a), double::whole(b)) <==> a <= b,
{
    double::lemma_whole(a);
    double::lemma_whole(b);
    let (x, y) = (double::whole(a), double::whole(b));
    double_laws::lemma_one();
    let t = double_laws::one() as int;
    double_laws::law_numbers_compare_by_value(x, y);
    assert(a * t <= b * t <==> a <= b) by (nonlinear_arith)
        requires
            t > 0,
    ;
}

/// A faster link is of no earlier generation.
pub proof fn law_faster_is_no_earlier_generation(a: Number, b: Number)
    requires
        a is Finite && a.wf(),
        b is Finite && b.wf(),
        double::at_most(a, b),
    ensures
        smi::generation(a) <= smi::generation(b),
{
    double_laws::law_numbers_compare_by_value(a, b);
    lemma_from(64, a, b);
    lemma_from(32, a, b);
    lemma_from(16, a, b);
    lemma_from(8, a, b);
    lemma_from(5, a, b);
}

proof fn lemma_from(n: nat, a: Number, b: Number)
    requires
        n <= 0xffff,
        a is Finite && a.wf(),
        b is Finite && b.wf(),
        double::at_most(a, b),
    ensures
        double::at_most(double::whole(n), a) ==> double::at_most(double::whole(n), b),
{
    double::lemma_whole(n);
    double_laws::law_numbers_compare_by_value(a, b);
    double_laws::law_numbers_compare_by_value(double::whole(n), a);
    double_laws::law_numbers_compare_by_value(double::whole(n), b);
}

/// A link is told of exactly when its current speed and width can be read, and as they are; it is
/// down-trained exactly when its largest are told and are not the current ones.
pub proof fn law_when_a_link_is_down_trained(f: LinkFiles)
    ensures
        match smi::link_of(f) {
            Some((gen, width, at_max)) => {
                &&& f.current_speed matches Some(s) && smi::speed_generation(s@) == Some(gen)
                &&& f.current_width matches Some(w) && smi::width_of(w@) == Some(width)
                &&& !at_max <==> f.max_speed is Some && f.max_width is Some && (
                smi::speed_generation(f.max_speed->0@) != Some(gen) || smi::width_of(
                    f.max_width->0@,
                ) != Some(width))
            },
            None => {
                ||| f.current_speed is None
                ||| f.current_width is None
                ||| smi::speed_generation(f.current_speed->0@) is None
                ||| smi::width_of(f.current_width->0@) is None
            },
        },
{
}

/// A width is the number that stands in its file, where it fits; a speed is the number before the
/// first blank.
pub proof fn law_links_are_read(s: Seq<char>, n: nat)
    ensures
        text::trimmed(s) == text::decimal(n) ==> smi::width_of(s) == if n <= 0xffff {
            Some(n as u16)
        } else {
            None
        },
        text::first_word(s) == text::decimal(n) ==> smi::speed_generation(s) == Some(
            smi::generation(double::whole(n)),
        ),
        text::first_word(s) == text::decimal(n) + ".0"@ ==> smi::speed_generation(s) == Some(
            smi::generation(double::ratio(10 * n, 10)),
        ),
{
    numeral_laws::law_printed_numbers_are_read(n, 0xffff);
    text_laws::law_decimals_read_back(n);
    let d = text::decimal(n);
    numeral_laws::law_decimals_are_read_to_the_nearest(d, seq!['0']);
    reveal_strlit(".0");
    assert(d + seq!['.'] + seq!['0'] =~= d + ".0"@);
    numeral_laws::law_numerals_shift(d, seq!['0']);
    reveal_with_fuel(text_laws::worth, 2);
    reveal_with_fuel(number::pow10, 2);
    assert(seq!['0'].drop_last() =~= seq![]);
    assert(text_laws::worth(seq!['0'], 10) == 0);
    assert(number::pow10(1) == 10);
    let (w, p) = (text_laws::worth(d, 10), number::pow10(seq!['0'].len()) as int);
    assert(w * p == 10 * w) by (nonlinear_arith)
        requires
            p == 10,
    ;
}

/// One vendor number is that of ASUS.
pub proof fn law_which_vendor_is_asus(vendor: u16)
    ensures
        cards::is_asus_vendor(vendor) <==> vendor == 0x1043,
{
}

} // verus!
