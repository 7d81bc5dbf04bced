//! How the chip is read and found: which answers make a word, which bus is settled on, and where
//! each pin stands in a block.

use crate::decode;
use crate::i2c;
use crate::i2c::{BusEntry, BusError, Detect, IoKind, Probe, Read, ReadError, Scan};
use crate::number;
use crate::numeral_laws;
use crate::text;
use vstd::prelude::*;

verus! {

// ---------------------------------------------------------------- one word

/// A word ends at the first answer that failed; or at the first high byte that answers as the one
/// before it did, with the low byte between the two; or, with no more re-reads left, at the pair
/// read last. Until then every high byte answers otherwise than the one before it.
pub proof fn law_where_a_word_ends(log: Seq<Read>, retries: nat)
    requires
        i2c::word_outcome(log, retries).0 <= log.len(),
    ensures
        ({
            let (n, word) = i2c::word_outcome(log, retries);
            let byte = |k: int| log[k].1->Ok_0;
            &&& 1 <= n <= 2 + 2 * retries
            &&& forall|k: int| 0 <= k < n - 1 ==> (#[trigger] log[k]).1 is Ok
            &&& word is Err <==> log[n - 1].1 is Err
            &&& word matches Err(e) ==> log[n - 1].1 == Err::<u8, ReadError>(e)
            &&& word matches Ok(w) ==> n >= 2 && (if n % 2 == 1 {
                w == (byte(n - 3), byte(n - 2)) && byte(n - 1) == byte(n - 3)
            } else {
                w == (byte(n - 2), byte(n - 1)) && n == 2 + 2 * retries
            })
            &&& forall|k: int|
                2 <= k < n - 1 && k % 2 == 0 ==> (#[trigger] log[k]).1->Ok_0 != byte(k - 2)
        }),
{
    if log[0].1 is Ok && log[1].1 is Ok {
        let tail = log.skip(2);
        let (hi, lo) = (log[0].1->Ok_0, log[1].1->Ok_0);
        lemma_where_settled(tail, hi, lo, retries);
        let (m, word) = i2c::settled(tail, hi, lo, retries);
        let n = m + 2;
        if word is Ok {
            lemma_settled_word(tail, hi, lo, retries);
        }
        assert forall|k: int| 2 <= k < n implies #[trigger] log[k] == tail[k - 2] by {}
        assert forall|k: int| 0 <= k < n - 1 implies (#[trigger] log[k]).1 is Ok by {
            if k >= 2 {
                assert(tail[k - 2].1 is Ok);
            }
        }
        assert forall|k: int| 2 <= k < n - 1 && k % 2 == 0 implies (#[trigger] log[k]).1->Ok_0
            != log[k - 2].1->Ok_0 by {
            lemma_settled_moves(tail, hi, lo, retries, k - 2);
        }
    }
}

/// The answer at `k`, or the byte from before the answers.
spec fn byte_at(log: Seq<Read>, before: u8, k: int) -> u8 {
    if k < 0 {
        before
    } else {
        log[k].1->Ok_0
    }
}

proof fn lemma_where_settled(log: Seq<Read>, hi: u8, lo: u8, left: nat)
    requires
        i2c::settled(log, hi, lo, left).0 <= log.len(),
    ensures
        ({
            let (n, word) = i2c::settled(log, hi, lo, left);
            &&& n <= 2 * left
            &&& forall|k: int| 0 <= k < n - 1 ==> (#[trigger] log[k]).1 is Ok
            &&& word is Err <==> n > 0 && log[n - 1].1 is Err
            &&& word matches Err(e) ==> log[n - 1].1 == Err::<u8, ReadError>(e)
        }),
    decreases left,
{
    if left > 0 && log[0].1 is Ok && log[0].1->Ok_0 != hi && log[1].1 is Ok {
        let tail = log.skip(2);
        let (again, fresh) = (log[0].1->Ok_0, log[1].1->Ok_0);
        lemma_where_settled(tail, again, fresh, (left - 1) as nat);
        let (m, word) = i2c::settled(tail, again, fresh, (left - 1) as nat);
        let n = m + 2;
        assert forall|k: int| 0 <= k < n - 1 implies (#[trigger] log[k]).1 is Ok by {
            if k >= 2 {
                assert(tail[k - 2] == log[k]);
            }
        }
        if m > 0 {
            assert(tail[m - 1] == log[n - 1]);
        }
    }
}

proof fn lemma_settled_word(log: Seq<Read>, hi: u8, lo: u8, left: nat)
    requires
        i2c::settled(log, hi, lo, left).0 <= log.len(),
        i2c::settled(log, hi, lo, left).1 is Ok,
    ensures
        ({
            let n = i2c::settled(log, hi, lo, left).0;
            let w = i2c::settled(log, hi, lo, left).1->Ok_0;
            if n % 2 == 1 {
                &&& w == (byte_at(log, hi, n - 3), byte_at(log, lo, n - 2))
                &&& log[n - 1].1->Ok_0 == byte_at(log, hi, n - 3)
            } else {
                &&& w == (byte_at(log, hi, n - 2), byte_at(log, lo, n - 1))
                &&& n == 2 * left
            }
        }),
    decreases left,
{
    if left > 0 && log[0].1 is Ok && log[0].1->Ok_0 != hi && log[1].1 is Ok {
        let tail = log.skip(2);
        let (again, fresh) = (log[0].1->Ok_0, log[1].1->Ok_0);
        lemma_settled_word(tail, again, fresh, (left - 1) as nat);
        let m = i2c::settled(tail, again, fresh, (left - 1) as nat).0;
        let n = m + 2;
        if m > 0 {
            assert(tail[m - 1] == log[n - 1]);
        }
        if m > 1 {
            assert(tail[m - 2] == log[n - 2]);
        }
        if m > 2 {
            assert(tail[m - 3] == log[n - 3]);
        }
    }
}

proof fn lemma_settled_moves(log: Seq<Read>, hi: u8, lo: u8, left: nat, k: int)
    requires
        i2c::settled(log, hi, lo, left).0 <= log.len(),
        0 <= k < i2c::settled(log, hi, lo, left).0 - 1,
        k % 2 == 0,
    ensures
        log[k].1->Ok_0 != byte_at(log, hi, k - 2),
    decreases left,
{
    if k >= 2 {
        let tail = log.skip(2);
        let (again, fresh) = (log[0].1->Ok_0, log[1].1->Ok_0);
        lemma_settled_moves(tail, again, fresh, (left - 1) as nat, k - 2);
        assert(tail[k - 2] == log[k]);
        if k >= 4 {
            assert(tail[k - 4] == log[k - 2]);
        }
    }
}

// ---------------------------------------------------------------- the block

/// A chip that stands still gives its 24 registers from `0x80` on, in order, in 36 reads.
pub proof fn law_a_still_chip_gives_its_registers(log: Seq<Read>, value: spec_fn(int) -> u8)
    requires
        i2c::block_asked(log, 0),
        i2c::answers(log, value),
    ensures
        i2c::block_outcome(log, 0).0 == 36,
        i2c::block_outcome(log, 0).1 == Ok::<Seq<u8>, ReadError>(
            Seq::new(24, |j: int| value(0x80 + j)),
        ),
{
    i2c::law_stable_chip_reads_through(log, 0, value);
    assert(Seq::new(24, |j: int| value(i2c::REG_BASE + 2 * 0 + j)) =~= Seq::new(
        24,
        |j: int| value(0x80 + j),
    ));
}

/// Whatever the chip answers, only the registers `0x80` to `0x97` are asked for.
pub proof fn law_no_other_register_is_asked_for(log: Seq<Read>, k: int)
    requires
        i2c::block_asked(log, 0),
        0 <= k < log.len(),
    ensures
        0x80 <= log[k].0 <= 0x97,
{
    i2c::law_only_telemetry_registers_are_read(log, 0);
}

/// A block that was read holds 24 bytes; one that was not ends with the answer that failed.
pub proof fn law_a_block_is_whole_or_failed(log: Seq<Read>, i: nat)
    requires
        i <= 12,
        i2c::block_outcome(log, i).0 <= log.len(),
    ensures
        match i2c::block_outcome(log, i).1 {
            Ok(bytes) => bytes.len() == 24 - 2 * i,
            Err(e) => i2c::block_outcome(log, i).0 > 0 && log[i2c::block_outcome(log, i).0 - 1].1
                == Err::<u8, ReadError>(e),
        },
    decreases 12 - i,
{
    if i < 12 {
        law_where_a_word_ends(log, 3);
        let word = i2c::word_outcome(log, 3);
        if word.1 is Ok {
            let rest = log.skip(word.0 as int);
            law_a_block_is_whole_or_failed(rest, i + 1);
            let out = i2c::block_outcome(rest, i + 1);
            if out.1 is Err {
                assert(rest[out.0 - 1] == log[word.0 + out.0 - 1]);
            }
        }
    }
}

/// The sixth pin stands first in a block and the first pin last; each has its millivolts, then its
/// milliamperes, the high byte first.
pub proof fn law_where_each_pin_stands(raw: Seq<u8>)
    requires
        raw.len() == 24,
    ensures
        decode::pin_of(raw, 5).millivolts == 256 * raw[0] + raw[1],
        decode::pin_of(raw, 5).milliamps == 256 * raw[2] + raw[3],
        decode::pin_of(raw, 4).millivolts == 256 * raw[4] + raw[5],
        decode::pin_of(raw, 4).milliamps == 256 * raw[6] + raw[7],
        decode::pin_of(raw, 3).millivolts == 256 * raw[8] + raw[9],
        decode::pin_of(raw, 3).milliamps == 256 * raw[10] + raw[11],
        decode::pin_of(raw, 2).millivolts == 256 * raw[12] + raw[13],
        decode::pin_of(raw, 2).milliamps == 256 * raw[14] + raw[15],
        decode::pin_of(raw, 1).millivolts == 256 * raw[16] + raw[17],
        decode::pin_of(raw, 1).milliamps == 256 * raw[18] + raw[19],
        decode::pin_of(raw, 0).millivolts == 256 * raw[20] + raw[21],
        decode::pin_of(raw, 0).milliamps == 256 * raw[22] + raw[23],
{
}

// ---------------------------------------------------------------- the scan

/// The first plausible answer is found where there is one, and only there.
pub proof fn law_the_first_plausible_answer(probes: Seq<Probe>)
    ensures
        match i2c::first_plausible(probes) {
            Some(i) => 0 <= i < probes.len() && probes[i] == Probe::Plausible && forall|j: int|
                0 <= j < i ==> #[trigger] probes[j] != Probe::Plausible,
            None => forall|j: int| 0 <= j < probes.len() ==> #[trigger] probes[j]
                != Probe::Plausible,
        },
    decreases probes.len(),
{
    if probes.len() > 0 {
        let front = probes.drop_last();
        law_the_first_plausible_answer(front);
        assert forall|j: int| 0 <= j < front.len() implies #[trigger] probes[j] == front[j] by {}
    }
}

/// A scan settles on the first bus that answered plausibly, and on no other; while none has, it
/// asks the buses in order, each once. When all were asked in vain it says that access was denied
/// if it was on any, and that there is no telemetry if it was on none; with no bus it says so.
pub proof fn law_what_a_scan_comes_to(buses: Seq<u32>, probes: Seq<Probe>)
    requires
        probes.len() <= buses.len(),
    ensures
        ({
            let step = i2c::scan_step(buses, probes);
            let vain = forall|j: int|
                0 <= j < probes.len() ==> #[trigger] probes[j] != Probe::Plausible;
            let denied = exists|j: int|
                0 <= j < probes.len() && #[trigger] probes[j] == Probe::PermissionDenied;
            let all = probes.len() == buses.len() && buses.len() > 0;
            &&& step matches Scan::Done(Detect::Found(b)) ==> exists|i: int|
                0 <= i < probes.len() && #[trigger] probes[i] == Probe::Plausible && b == buses[i]
                    && forall|j: int| 0 <= j < i ==> #[trigger] probes[j] != Probe::Plausible
            &&& !vain ==> step is Done && step->Done_0 is Found
            &&& step is Probe <==> vain && probes.len() < buses.len()
            &&& step matches Scan::Probe(b) ==> b == buses[probes.len() as int]
            &&& step == Scan::Done(Detect::NoBuses) <==> buses.len() == 0
            &&& step == Scan::Done(Detect::PermissionDenied) <==> all && vain && denied
            &&& step == Scan::Done(Detect::NoTelemetry) <==> all && vain && !denied
        }),
{
    law_the_first_plausible_answer(probes);
    if buses.len() > 0 {
        match i2c::first_plausible(probes) {
            Some(i) => {
                assert(probes[i] == Probe::Plausible);
            },
            None => {},
        }
    }
}

/// Every bus of the wanted card is among those asked, in order, and no other is.
pub proof fn law_which_buses_are_of_a_card(
    a: Seq<(u32, Option<String>)>,
    b: Seq<(u32, Option<String>)>,
    want: Seq<char>,
)
    ensures
        i2c::buses_of(a + b, want) == i2c::buses_of(a, want) + i2c::buses_of(b, want),
        a.len() == 0 ==> i2c::buses_of(a, want).len() == 0,
        a.len() == 1 ==> i2c::buses_of(a, want) == (if a[0].1 is Some && a[0].1->0@ == want {
            seq![a[0].0]
        } else {
            seq![]
        }),
    decreases b.len(),
{
    reveal_with_fuel(i2c::buses_of, 2);
    if b.len() == 0 {
        assert(a + b =~= a);
        assert(i2c::buses_of(a + b, want) =~= i2c::buses_of(a, want) + i2c::buses_of(b, want));
    } else {
        law_which_buses_are_of_a_card(a, b.drop_last(), want);
        assert((a + b).drop_last() =~= a + b.drop_last());
        assert((a + b).last() == b.last());
        assert(i2c::buses_of(a + b, want) =~= i2c::buses_of(a, want) + i2c::buses_of(b, want));
    }
    if a.len() == 1 {
        assert(a.drop_last() =~= seq![]);
        assert(i2c::buses_of(a, want) =~= if a[0].1 is Some && a[0].1->0@ == want {
            seq![a[0].0]
        } else {
            seq![]
        });
    }
}

/// An adapter counts exactly when it calls itself NVIDIA's and its entry is `i2c-` and a number;
/// the number is the bus.
pub proof fn law_which_adapters_count(e: BusEntry, n: nat)
    ensures
        e.adapter is None || e.file_name is None ==> i2c::nvidia_bus(e) is None,
        i2c::nvidia_bus(e) is Some ==> e.adapter is Some && text::holds(e.adapter->0@, "NVIDIA"@)
            && "i2c-"@.is_prefix_of(e.file_name->0@),
        e.adapter is Some && e.file_name is Some && text::holds(e.adapter->0@, "NVIDIA"@)
            && e.file_name->0@ == "i2c-"@ + text::decimal(n) ==> i2c::nvidia_bus(e) == if n
            <= 0xffff_ffff {
            Some(n as u32)
        } else {
            None
        },
{
    reveal_strlit("i2c-");
    numeral_laws::law_printed_numbers_are_read(n, 0xffff_ffff);
    let s = "i2c-"@ + text::decimal(n);
    assert(s.skip(4) =~= text::decimal(n));
    assert(s.subrange(0, 4) =~= "i2c-"@);
    assert("i2c-"@.is_prefix_of(s));
}

/// Every adapter that counts is listed, once, and none else.
pub proof fn law_adapters_are_listed_one_by_one(a: Seq<BusEntry>, b: Seq<BusEntry>)
    ensures
        i2c::nvidia_numbers(a + b) == i2c::nvidia_numbers(a) + i2c::nvidia_numbers(b),
        a.len() == 0 ==> i2c::nvidia_numbers(a).len() == 0,
        a.len() == 1 ==> i2c::nvidia_numbers(a) == match i2c::nvidia_bus(a[0]) {
            Some(n) => seq![n],
            None => seq![],
        },
    decreases b.len(),
{
    reveal_with_fuel(i2c::nvidia_numbers, 2);
    if b.len() == 0 {
        assert(a + b =~= a);
        assert(i2c::nvidia_numbers(a + b) =~= i2c::nvidia_numbers(a) + i2c::nvidia_numbers(b));
    } else {
        law_adapters_are_listed_one_by_one(a, b.drop_last());
        assert((a + b).drop_last() =~= a + b.drop_last());
        assert((a + b).last() == b.last());
        assert(i2c::nvidia_numbers(a + b) =~= i2c::nvidia_numbers(a) + i2c::nvidia_numbers(b));
    }
    if a.len() == 1 {
        assert(a.drop_last() =~= seq![]);
        assert(i2c::nvidia_numbers(a) =~= match i2c::nvidia_bus(a[0]) {
            Some(n) => seq![n],
            None => seq![],
        });
    }
}

// ---------------------------------------------------------------- PCI ids

/// A digit of a slot is a decimal one or a letter up to f, in either case.
pub proof fn law_which_characters_are_digits(c: char)
    ensures
        i2c::is_hex(c) <==> '0' <= c <= '9' || 'a' <= c <= 'f' || 'A' <= c <= 'F',
        number::digit_value(c) matches Some(d) ==> d < 16 && (d < 10 <==> '0' <= c <= '9'),
        '0' <= c <= '9' ==> number::digit_value(c) == Some((c as int - '0' as int) as nat),
        'a' <= c <= 'f' ==> number::digit_value(c) == Some((c as int - 'a' as int + 10) as nat),
        'A' <= c <= 'F' ==> number::digit_value(c) == Some((c as int - 'A' as int + 10) as nat),
{
}

/// A slot is four digits, a colon, two digits, a colon, two digits, a point and one digit.
pub proof fn law_what_a_slot_looks_like(d: Seq<char>, b: Seq<char>, v: Seq<char>, f: char)
    requires
        d.len() == 4,
        b.len() == 2,
        v.len() == 2,
    ensures
        i2c::is_bdf(d + seq![':'] + b + seq![':'] + v + seq!['.', f]) <==> {
            &&& forall|i: int| 0 <= i < 4 ==> i2c::is_hex(#[trigger] d[i])
            &&& i2c::is_hex(b[0]) && i2c::is_hex(b[1])
            &&& i2c::is_hex(v[0]) && i2c::is_hex(v[1])
            &&& i2c::is_hex(f)
        },
{
    let s = d + seq![':'] + b + seq![':'] + v + seq!['.', f];
    assert(s.len() == 12);
    assert(s[0] == d[0] && s[1] == d[1] && s[2] == d[2] && s[3] == d[3] && s[4] == ':' && s[5]
        == b[0] && s[6] == b[1] && s[7] == ':' && s[8] == v[0] && s[9] == v[1] && s[10] == '.'
        && s[11] == f);
    if forall|i: int| 0 <= i < 4 ==> i2c::is_hex(#[trigger] d[i]) {
        assert(i2c::is_hex(d[0]) && i2c::is_hex(d[1]) && i2c::is_hex(d[2]) && i2c::is_hex(d[3]));
    }
    if i2c::is_bdf(s) {
        assert(i2c::is_hex(s[0]) && i2c::is_hex(s[1]) && i2c::is_hex(s[2]) && i2c::is_hex(s[3])
            && i2c::is_hex(s[5]) && i2c::is_hex(s[6]) && i2c::is_hex(s[8]) && i2c::is_hex(s[9])
            && i2c::is_hex(s[11]));
        assert forall|i: int| 0 <= i < 4 implies i2c::is_hex(#[trigger] d[i]) by {
            assert(s[i] == d[i]);
        }
    }
}

/// The deepest slot of a path is the last of its parts that is one.
pub proof fn law_the_deepest_slot_is_the_last(parts: Seq<Seq<char>>)
    ensures
        match i2c::deepest_bdf(parts) {
            Some(s) => exists|i: int|
                0 <= i < parts.len() && #[trigger] parts[i] == s && i2c::is_bdf(s) && forall|
                    j: int,
                |
                    i < j < parts.len() ==> !i2c::is_bdf(#[trigger] parts[j]),
            None => forall|j: int| 0 <= j < parts.len() ==> !i2c::is_bdf(#[trigger] parts[j]),
        },
    decreases parts.len(),
{
    if parts.len() > 0 {
        let front = parts.drop_last();
        let n = parts.len() - 1;
        law_the_deepest_slot_is_the_last(front);
        assert forall|j: int| 0 <= j < n implies #[trigger] parts[j] == front[j] by {}
        assert(parts[n] == parts.last());
        if !i2c::is_bdf(parts.last()) {
            match i2c::deepest_bdf(front) {
                Some(s) => {
                    let i = choose|i: int|
                        0 <= i < front.len() && #[trigger] front[i] == s && i2c::is_bdf(s)
                            && forall|j: int|
                            i < j < front.len() ==> !i2c::is_bdf(#[trigger] front[j]);
                    assert(parts[i] == s);
                    assert forall|j: int| i < j < parts.len() implies !i2c::is_bdf(
                        #[trigger] parts[j],
                    ) by {
                        if j < n {
                            assert(!i2c::is_bdf(front[j]));
                        }
                    }
                },
                None => {
                    assert forall|j: int| 0 <= j < parts.len() implies !i2c::is_bdf(
                        #[trigger] parts[j],
                    ) by {
                        if j < n {
                            assert(!i2c::is_bdf(front[j]));
                        }
                    }
                },
            }
        }
    }
}

/// A normal form of an id with a domain has the domain in eight digits, a colon, and the rest in
/// small letters.
pub proof fn law_what_a_normal_form_looks_like(s: Seq<char>)
    ensures
        i2c::pci_parts(s) matches Some((domain, rest)) ==> {
            let n = i2c::normal_pci(s);
            &&& n == text::padded(text::hex(domain), 8, '0') + seq![':'] + rest
            &&& domain <= 0xffff_ffff
            &&& exists|i: int|
                0 <= i < i2c::lowered(s).len() && #[trigger] i2c::lowered(s)[i] == ':' && rest
                    == i2c::lowered(s).skip(i + 1) && number::numeral_value(
                    i2c::lowered(s).take(i),
                    16,
                    0xffff_ffff,
                ) == Ok::<nat, number::NumeralError>(domain)
        },
        i2c::pci_parts(s) is None ==> i2c::normal_pci(s) == i2c::lowered(s),
{
    reveal_strlit(":");
    assert(":"@ =~= seq![':']);
    let low = i2c::lowered(s);
    low.index_of_first_ensures(':');
    if let Some((domain, rest)) = i2c::pci_parts(s) {
        let i = low.index_of_first(':')->0;
        assert(low[i] == ':');
        lemma_in_range(number::unsigned_digits(low.take(i)), 0xffff_ffff);
    }
}

proof fn lemma_in_range(s: Seq<char>, max: nat)
    ensures
        number::digits_read(s, 16, max) matches Ok(n) ==> n <= max,
    decreases s.len(),
{
    if s.len() > 0 {
        lemma_in_range(s.drop_last(), max);
    }
}

/// Access is denied where opening says so, or a later call with EPERM or EACCES, and in no other
/// case.
pub proof fn law_what_counts_as_a_denial(k: IoKind, n: i32)
    ensures
        i2c::is_denied(BusError::Io(k)) <==> k == IoKind::PermissionDenied,
        i2c::is_denied(BusError::Errno(n)) <==> n == 1 || n == 13,
{
}

} // verus!
