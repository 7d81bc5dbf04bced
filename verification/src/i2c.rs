//! i2c bus discovery and reading the IT8915FN over `/dev/i2c-*`.
//!
//! The telemetry block is read **byte-by-byte** (SMBus read-byte-data per register). A single
//! block read returns garbage on some SKUs; per-register reads are the method confirmed to work.
//! This access is **read-only**: it only ever writes the register pointer, never a data byte.
//!
//! Because each 16-bit value spans two transactions, the MCU can update it between the high and
//! low byte ("tearing"), fabricating a current spike that never happened. Each u16 is therefore
//! read hi → lo → hi and re-read while the high byte moves (see [`read_u16_consistent`]).

use crate::decode;
use crate::decode::{decode, Reading};
use crate::number;
use crate::number::read_unsigned;
use crate::recorder::Recorder;
use crate::text;
use crate::text::{
    begins_with, chars_of, contains_text, decimal_text, find_char, hex_text, lower, pad_left,
    same_text, slice_of, split, text_of, trim,
};
use vstd::prelude::*;

verus! {

/// i2c slave address of the ASUS power-telemetry MCU.
pub const CHIP_ADDR: u16 = 0x2b;
/// First telemetry register (`0x80..=0x97`).
pub const REG_BASE: u8 = 0x80;
/// Re-reads granted to a word whose high byte keeps moving.
pub const RETRIES: u32 = 3;
/// Words in a telemetry block.
pub const WORDS: usize = 12;

/// Canonical textual form of [`CHIP_ADDR`], used as the CLI default.
pub const CHIP_ADDR_STR: &'static str = "0x2b";

/// A failed access, with everything that led to it, outermost first.
#[derive(Debug, Clone, PartialEq)]
pub struct ReadError {
    pub message: String,
}

/// One register read: which register, and what came of it.
pub type Read = (u8, Result<u8, ReadError>);

/// One SMBus read-byte-data transaction — the seam that makes the read logic testable.
pub trait RegReader {
    /// Read one register.
    fn read_reg(&mut self, reg: u8) -> Result<u8, ReadError>;
}

// ---------------------------------------------------------------- one word

/// What re-reading a word comes to: how many answers it takes, and the word.
///
/// The word is confirmed by its high byte reading the same again after the low byte; a moved
/// high byte starts over with a fresh low byte, at most `left` times.
pub open spec fn settled(log: Seq<Read>, hi: u8, lo: u8, left: nat) -> (
    nat,
    Result<(u8, u8), ReadError>,
)
    decreases left,
{
    if left == 0 {
        (0, Ok((hi, lo)))
    } else {
        match log[0].1 {
            Err(e) => (1, Err(e)),
            Ok(again) => if again == hi {
                (1, Ok((hi, lo)))
            } else {
                match log[1].1 {
                    Err(e) => (2, Err(e)),
                    Ok(low) => {
                        let rest = settled(log.skip(2), again, low, (left - 1) as nat);
                        (rest.0 + 2, rest.1)
                    },
                }
            },
        }
    }
}

/// What reading a word comes to, given the answers of the chip.
pub open spec fn word_outcome(log: Seq<Read>, retries: nat) -> (nat, Result<(u8, u8), ReadError>) {
    match log[0].1 {
        Err(e) => (1, Err(e)),
        Ok(hi) => match log[1].1 {
            Err(e) => (2, Err(e)),
            Ok(lo) => {
                let rest = settled(log.skip(2), hi, lo, retries);
                (rest.0 + 2, rest.1)
            },
        },
    }
}

/// The reads ask for `reg` and the register after it in turn, high byte first.
pub open spec fn alternates(log: Seq<Read>, reg: int) -> bool {
    forall|k: int| 0 <= k < log.len() ==> (#[trigger] log[k]).0 == reg + k % 2
}

fn settle<R: RegReader>(dev: &mut Recorder<R>, reg: u8, hi: u8, lo: u8, left: u32) -> (r: Result<
    (u8, u8),
    ReadError,
>)
    requires
        reg < 255,
    ensures
        ({
            let log = final(dev).history().skip(old(dev).history().len() as int);
            &&& final(dev).history() == old(dev).history() + log
            &&& alternates(log, reg as int)
            &&& (log.len(), r) == settled(log, hi, lo, left as nat)
        }),
    decreases left,
{
    let ghost before = dev.history();
    if left == 0 {
        assert(dev.history() =~= before + dev.history().skip(before.len() as int));
        return Ok((hi, lo));
    }
    let first = dev.read_reg(reg);
    let ghost one = dev.history();
    assert(one.skip(before.len() as int) =~= seq![(reg, first)]);
    match first {
        Err(e) => {
            assert(one =~= before + one.skip(before.len() as int));
            Err(e)
        },
        Ok(again) => {
            if again == hi {
                assert(one =~= before + one.skip(before.len() as int));
                return Ok((hi, lo));
            }
            let second = dev.read_reg(reg + 1);
            let ghost two = dev.history();
            assert(two.skip(before.len() as int) =~= seq![(reg, first), ((reg + 1) as u8, second)]);
            match second {
                Err(e) => {
                    assert(two =~= before + two.skip(before.len() as int));
                    Err(e)
                },
                Ok(low) => {
                    let r = settle(dev, reg, again, low, left - 1);
                    proof {
                        let end = dev.history();
                        let tail = end.skip(two.len() as int);
                        let log = end.skip(before.len() as int);
                        assert(log =~= seq![(reg, first), ((reg + 1) as u8, second)] + tail);
                        assert(log.skip(2) =~= tail);
                        assert(end =~= before + log);
                        assert forall|k: int| 0 <= k < log.len() implies (#[trigger] log[k]).0
                            == reg + k % 2 by {
                            if k >= 2 {
                                assert(log[k] == tail[k - 2]);
                            }
                        }
                    }
                    r
                },
            }
        },
    }
}

/// Read one big-endian u16 (`reg` = high byte, `reg + 1` = low) with tear suppression: read the
/// high byte again after the low byte; if it moved, the MCU updated the value mid-read and the
/// torn pair is discarded. A value still moving after `retries` re-reads is returned as last
/// read.
pub fn read_u16_consistent<R: RegReader>(dev: &mut Recorder<R>, reg: u8, retries: u32) -> (r: Result<
    (u8, u8),
    ReadError,
>)
    requires
        reg < 255,
    ensures
        ({
            let log = final(dev).history().skip(old(dev).history().len() as int);
            &&& final(dev).history() == old(dev).history() + log
            &&& alternates(log, reg as int)
            &&& (log.len(), r) == word_outcome(log, retries as nat)
        }),
{
    let ghost before = dev.history();
    let first = dev.read_reg(reg);
    let ghost one = dev.history();
    assert(one.skip(before.len() as int) =~= seq![(reg, first)]);
    match first {
        Err(e) => {
            assert(one =~= before + one.skip(before.len() as int));
            Err(e)
        },
        Ok(hi) => {
            let second = dev.read_reg(reg + 1);
            let ghost two = dev.history();
            assert(two.skip(before.len() as int) =~= seq![(reg, first), ((reg + 1) as u8, second)]);
            match second {
                Err(e) => {
                    assert(two =~= before + two.skip(before.len() as int));
                    Err(e)
                },
                Ok(lo) => {
                    let r = settle(dev, reg, hi, lo, retries);
                    proof {
                        let end = dev.history();
                        let tail = end.skip(two.len() as int);
                        let log = end.skip(before.len() as int);
                        assert(log =~= seq![(reg, first), ((reg + 1) as u8, second)] + tail);
                        assert(log.skip(2) =~= tail);
                        assert(end =~= before + log);
                        assert forall|k: int| 0 <= k < log.len() implies (#[trigger] log[k]).0
                            == reg + k % 2 by {
                            if k >= 2 {
                                assert(log[k] == tail[k - 2]);
                            }
                        }
                    }
                    r
                },
            }
        },
    }
}

// ---------------------------------------------------------------- the block

/// What reading the words from `i` on comes to, given the answers of the chip.
pub open spec fn block_outcome(log: Seq<Read>, i: nat) -> (nat, Result<Seq<u8>, ReadError>)
    decreases WORDS - i,
{
    if i >= WORDS {
        (0, Ok(seq![]))
    } else {
        let word = word_outcome(log, RETRIES as nat);
        match word.1 {
            Err(e) => (word.0, Err(e)),
            Ok((hi, lo)) => {
                let rest = block_outcome(log.skip(word.0 as int), i + 1);
                (
                    word.0 + rest.0,
                    match rest.1 {
                        Ok(bytes) => Ok(seq![hi, lo] + bytes),
                        Err(e) => Err(e),
                    },
                )
            },
        }
    }
}

/// The reads ask for the words from `i` on in order, each by its own two registers.
pub open spec fn block_asked(log: Seq<Read>, i: nat) -> bool
    decreases WORDS - i,
{
    if i >= WORDS {
        log.len() == 0
    } else {
        let word = word_outcome(log, RETRIES as nat);
        &&& word.0 <= log.len()
        &&& alternates(log.take(word.0 as int), REG_BASE + 2 * i)
        &&& match word.1 {
            Err(e) => word.0 == log.len(),
            Ok(_) => block_asked(log.skip(word.0 as int), i + 1),
        }
    }
}

/// What a word comes to depends on no answer behind the ones it takes.
proof fn lemma_settled_prefix(log: Seq<Read>, more: Seq<Read>, hi: u8, lo: u8, left: nat)
    requires
        log.len() == settled(log, hi, lo, left).0,
    ensures
        settled(log + more, hi, lo, left) == settled(log, hi, lo, left),
    decreases left,
{
    if left > 0 {
        assert((log + more)[0] == log[0]);
        match log[0].1 {
            Ok(again) => if again != hi {
                assert((log + more)[1] == log[1]);
                if log[1].1 is Ok {
                    assert((log + more).skip(2) =~= log.skip(2) + more);
                    lemma_settled_prefix(log.skip(2), more, again, log[1].1->Ok_0, (left - 1) as nat);
                }
            },
            Err(_) => {},
        }
    }
}

proof fn lemma_word_prefix(log: Seq<Read>, more: Seq<Read>, retries: nat)
    requires
        log.len() == word_outcome(log, retries).0,
    ensures
        word_outcome(log + more, retries) == word_outcome(log, retries),
{
    assert((log + more)[0] == log[0]);
    if log[0].1 is Ok {
        assert((log + more)[1] == log[1]);
        if log[1].1 is Ok {
            assert((log + more).skip(2) =~= log.skip(2) + more);
            lemma_settled_prefix(log.skip(2), more, log[0].1->Ok_0, log[1].1->Ok_0, retries);
        }
    }
}

/// A word that could not be read ends the block.
proof fn lemma_block_broken(head: Seq<Read>, i: nat)
    requires
        i < WORDS,
        head.len() == word_outcome(head, RETRIES as nat).0,
        word_outcome(head, RETRIES as nat).1 is Err,
        alternates(head, REG_BASE + 2 * i),
    ensures
        block_asked(head, i),
        block_outcome(head, i) == (
            head.len(),
            Err::<Seq<u8>, ReadError>(word_outcome(head, RETRIES as nat).1->Err_0),
        ),
{
    assert(head.take(head.len() as int) =~= head);
}

/// A word that was read stands in front of the words after it.
proof fn lemma_block_joined(head: Seq<Read>, tail: Seq<Read>, i: nat)
    requires
        i < WORDS,
        head.len() == word_outcome(head, RETRIES as nat).0,
        word_outcome(head, RETRIES as nat).1 is Ok,
        alternates(head, REG_BASE + 2 * i),
        tail.len() == block_outcome(tail, i + 1).0,
        block_asked(tail, i + 1),
    ensures
        block_asked(head + tail, i),
        block_outcome(head + tail, i) == (
            head.len() + tail.len(),
            match block_outcome(tail, i + 1).1 {
                Ok(bytes) => {
                    let word = word_outcome(head, RETRIES as nat).1->Ok_0;
                    Ok(seq![word.0, word.1] + bytes)
                },
                Err(e) => Err(e),
            },
        ),
{
    lemma_word_prefix(head, tail, RETRIES as nat);
    assert((head + tail).take(head.len() as int) =~= head);
    assert((head + tail).skip(head.len() as int) =~= tail);
}

/// What was read since `before` is what was read up to `middle` and then what was read since.
proof fn lemma_read_since(before: Seq<Read>, middle: Seq<Read>, end: Seq<Read>)
    requires
        middle == before + middle.skip(before.len() as int),
        end == middle + end.skip(middle.len() as int),
    ensures
        end == before + end.skip(before.len() as int),
        end.skip(before.len() as int) == middle.skip(before.len() as int) + end.skip(
            middle.len() as int,
        ),
{
    let head = middle.skip(before.len() as int);
    let tail = end.skip(middle.len() as int);
    assert(middle.len() == before.len() + head.len());
    assert(end =~= before + (head + tail));
    assert(end.skip(before.len() as int) =~= head + tail);
}

fn read_words<R: RegReader>(dev: &mut Recorder<R>, i: usize, buf: &mut Vec<u8>) -> (r: Result<
    (),
    ReadError,
>)
    requires
        i <= WORDS,
    ensures
        ({
            let log = final(dev).history().skip(old(dev).history().len() as int);
            let out = block_outcome(log, i as nat);
            &&& final(dev).history() == old(dev).history() + log
            &&& block_asked(log, i as nat)
            &&& log.len() == out.0
            &&& match r {
                Ok(_) => out.1 is Ok && final(buf)@ == old(buf)@ + out.1->Ok_0
                    && out.1->Ok_0.len() == 2 * (WORDS - i),
                Err(e) => out.1 == Err::<Seq<u8>, ReadError>(e),
            }
        }),
    decreases WORDS - i,
{
    let ghost before = dev.history();
    let ghost had = buf@;
    if i >= WORDS {
        assert(before =~= before + before.skip(before.len() as int));
        assert(had =~= had + seq![]);
        return Ok(());
    }
    let word = read_u16_consistent(dev, REG_BASE + 2 * (i as u8), RETRIES);
    let ghost middle = dev.history();
    let ghost head = middle.skip(before.len() as int);
    match word {
        Err(e) => {
            proof {
                lemma_block_broken(head, i as nat);
            }
            Err(e)
        },
        Ok((hi, lo)) => {
            buf.push(hi);
            buf.push(lo);
            let r = read_words(dev, i + 1, buf);
            proof {
                let tail = dev.history().skip(middle.len() as int);
                lemma_read_since(before, middle, dev.history());
                lemma_block_joined(head, tail, i as nat);
                if r is Ok {
                    let bytes = block_outcome(tail, (i + 1) as nat).1->Ok_0;
                    assert(had.push(hi).push(lo) + bytes =~= had + (seq![hi, lo] + bytes));
                }
            }
            r
        },
    }
}

/// Read the 24-byte telemetry block through any [`RegReader`], tear-checked per u16.
pub fn read_raw_from<R: RegReader>(dev: &mut Recorder<R>) -> (r: Result<[u8; 24], ReadError>)
    ensures
        ({
            let log = final(dev).history().skip(old(dev).history().len() as int);
            let out = block_outcome(log, 0);
            &&& final(dev).history() == old(dev).history() + log
            &&& block_asked(log, 0)
            &&& log.len() == out.0
            &&& match r {
                Ok(bytes) => out.1 == Ok::<Seq<u8>, ReadError>(bytes@),
                Err(e) => out.1 == Err::<Seq<u8>, ReadError>(e),
            }
        }),
{
    let mut buf: Vec<u8> = Vec::new();
    match read_words(dev, 0, &mut buf) {
        Err(e) => Err(e),
        Ok(_) => {
            let bytes: [u8; 24] = [
                buf[0], buf[1], buf[2], buf[3], buf[4], buf[5], buf[6], buf[7], buf[8], buf[9],
                buf[10], buf[11], buf[12], buf[13], buf[14], buf[15], buf[16], buf[17], buf[18],
                buf[19], buf[20], buf[21], buf[22], buf[23],
            ];
            assert(bytes@ =~= buf@);
            Ok(bytes)
        },
    }
}

// ---------------------------------------------------------------- laws of the access

proof fn lemma_settled_bounds(log: Seq<Read>, hi: u8, lo: u8, left: nat)
    ensures
        settled(log, hi, lo, left).0 <= 2 * left,
        left > 0 ==> settled(log, hi, lo, left).0 >= 1,
    decreases left,
{
    if left > 0 {
        match log[0].1 {
            Ok(again) => if again != hi && log[1].1 is Ok {
                lemma_settled_bounds(log.skip(2), again, log[1].1->Ok_0, (left - 1) as nat);
            },
            Err(_) => {},
        }
    }
}

/// A word takes at most two reads and two more for each re-read.
pub proof fn law_word_reads_are_bounded(log: Seq<Read>, retries: nat)
    ensures
        1 <= word_outcome(log, retries).0 <= 2 + 2 * retries,
        word_outcome(log, retries).1 is Ok && retries > 0 ==> word_outcome(log, retries).0 >= 3,
{
    match log[0].1 {
        Ok(hi) => match log[1].1 {
            Ok(lo) => {
                lemma_settled_bounds(log.skip(2), hi, lo, retries);
            },
            Err(_) => {},
        },
        Err(_) => {},
    }
}

proof fn lemma_settled_confirms(log: Seq<Read>, hi: u8, lo: u8, left: nat)
    requires
        settled(log, hi, lo, left).1 is Ok,
        settled(log, hi, lo, left).0 < 2 * left,
    ensures
        ({
            let n = settled(log, hi, lo, left).0;
            let w = settled(log, hi, lo, left).1->Ok_0;
            &&& n >= 1
            &&& n <= log.len() ==> log[n - 1].1 == Ok::<u8, ReadError>(w.0)
            &&& n >= 3 && n <= log.len() ==> log[n - 2].1 == Ok::<u8, ReadError>(w.1)
                && log[n - 3].1 == Ok::<u8, ReadError>(w.0)
            &&& n < 3 ==> n == 1 && w == (hi, lo)
        }),
    decreases left,
{
    if log[0].1 is Ok && log[0].1->Ok_0 != hi {
        let again = log[0].1->Ok_0;
        let low = log[1].1->Ok_0;
        let rest = settled(log.skip(2), again, low, (left - 1) as nat);
        lemma_settled_confirms(log.skip(2), again, low, (left - 1) as nat);
        if rest.0 + 2 <= log.len() {
            assert(log.skip(2)[rest.0 - 1] == log[(rest.0 + 1) as int]);
            if rest.0 >= 3 {
                assert(log.skip(2)[rest.0 - 2] == log[rest.0 as int]);
                assert(log.skip(2)[rest.0 - 3] == log[rest.0 - 1]);
            }
        }
    }
}

/// A word that settles before the re-reads run out is not torn: its high byte answered the same
/// right before and right after its low byte.
pub proof fn law_settled_word_is_not_torn(log: Seq<Read>, retries: nat)
    requires
        word_outcome(log, retries).1 is Ok,
        word_outcome(log, retries).0 < 2 + 2 * retries,
        word_outcome(log, retries).0 <= log.len(),
    ensures
        ({
            let n = word_outcome(log, retries).0;
            let w = word_outcome(log, retries).1->Ok_0;
            &&& n >= 3
            &&& log[n - 3].1 == Ok::<u8, ReadError>(w.0)
            &&& log[n - 2].1 == Ok::<u8, ReadError>(w.1)
            &&& log[n - 1].1 == Ok::<u8, ReadError>(w.0)
        }),
{
    let hi = log[0].1->Ok_0;
    let lo = log[1].1->Ok_0;
    let rest = settled(log.skip(2), hi, lo, retries);
    lemma_settled_confirms(log.skip(2), hi, lo, retries);
    assert(log.skip(2)[rest.0 - 1] == log[(rest.0 + 1) as int]);
    if rest.0 >= 3 {
        assert(log.skip(2)[rest.0 - 2] == log[rest.0 as int]);
        assert(log.skip(2)[rest.0 - 3] == log[rest.0 - 1]);
    }
}

/// Only the telemetry registers `0x80..=0x97` are ever touched, whatever the chip answers.
pub proof fn law_only_telemetry_registers_are_read(log: Seq<Read>, i: nat)
    requires
        i <= WORDS,
        block_asked(log, i),
    ensures
        forall|k: int|
            0 <= k < log.len() ==> REG_BASE + 2 * i <= (#[trigger] log[k]).0 < REG_BASE
                + decode::RAW_LEN,
    decreases WORDS - i,
{
    if i < WORDS {
        let n = word_outcome(log, RETRIES as nat).0 as int;
        if word_outcome(log, RETRIES as nat).1 is Ok {
            law_only_telemetry_registers_are_read(log.skip(n), i + 1);
        }
        assert forall|k: int| 0 <= k < log.len() implies REG_BASE + 2 * i <= (#[trigger] log[k]).0
            < REG_BASE + decode::RAW_LEN by {
            if k < n {
                assert(log.take(n)[k] == log[k]);
            } else {
                assert(log.skip(n)[k - n] == log[k]);
            }
        }
    }
}

/// A block takes at most eight reads a word.
pub proof fn law_block_reads_are_bounded(log: Seq<Read>, i: nat)
    requires
        i <= WORDS,
    ensures
        block_outcome(log, i).0 <= 8 * (WORDS - i),
        block_outcome(log, i).1 is Ok ==> block_outcome(log, i).0 >= 3 * (WORDS - i),
    decreases WORDS - i,
{
    if i < WORDS {
        law_word_reads_are_bounded(log, RETRIES as nat);
        let word = word_outcome(log, RETRIES as nat);
        if word.1 is Ok {
            law_block_reads_are_bounded(log.skip(word.0 as int), i + 1);
        }
    }
}

/// Every answer of the run is what a chip that holds `value` would give.
pub open spec fn answers(log: Seq<Read>, value: spec_fn(int) -> u8) -> bool {
    forall|k: int|
        0 <= k < log.len() ==> (#[trigger] log[k]).1 == Ok::<u8, ReadError>(value(log[k].0 as int))
}

/// A chip whose values stand still is read exactly, with three reads a word.
pub proof fn law_stable_chip_reads_through(log: Seq<Read>, i: nat, value: spec_fn(int) -> u8)
    requires
        i <= WORDS,
        block_asked(log, i),
        answers(log, value),
    ensures
        block_outcome(log, i) == (
            (3 * (WORDS - i)) as nat,
            Ok::<Seq<u8>, ReadError>(
                Seq::new((2 * (WORDS - i)) as nat, |j: int| value(REG_BASE + 2 * i + j)),
            ),
        ),
    decreases WORDS - i,
{
    if i >= WORDS {
        assert(Seq::new(0nat, |j: int| value(REG_BASE + 2 * i + j)) =~= seq![]);
    } else {
        let reg = REG_BASE + 2 * i;
        let word = word_outcome(log, RETRIES as nat);
        let n = word.0 as int;
        law_word_reads_are_bounded(log, RETRIES as nat);
        let head = log.take(n);
        assert(head[0] == log[0]);
        assert(log[0].0 == reg && log[0].1 == Ok::<u8, ReadError>(value(reg)));
        assert(n >= 2);
        assert(head[1] == log[1]);
        assert(log[1].0 == reg + 1 && log[1].1 == Ok::<u8, ReadError>(value(reg + 1)));
        lemma_settled_bounds(log.skip(2), value(reg), value(reg + 1), RETRIES as nat);
        assert(n >= 3);
        assert(head[2] == log[2]);
        assert(log[2].0 == reg && log[2].1 == Ok::<u8, ReadError>(value(reg)));
        assert(log.skip(2)[0] == log[2]);
        assert(word == (3nat, Ok::<(u8, u8), ReadError>((value(reg), value(reg + 1)))));
        let tail = log.skip(3);
        assert forall|k: int| 0 <= k < tail.len() implies (#[trigger] tail[k]).1 == Ok::<
            u8,
            ReadError,
        >(value(tail[k].0 as int)) by {
            assert(tail[k] == log[k + 3]);
        }
        law_stable_chip_reads_through(tail, i + 1, value);
        let rest = Seq::new((2 * (WORDS - i - 1)) as nat, |j: int| value(REG_BASE + 2 * (i + 1) + j));
        assert(seq![value(reg), value(reg + 1)] + rest =~= Seq::new(
            (2 * (WORDS - i)) as nat,
            |j: int| value(REG_BASE + 2 * i + j),
        ));
    }
}

// ---------------------------------------------------------------- opening and naming

/// Path of a bus's device node.
pub open spec fn device_path_text(bus: u32) -> Seq<char> {
    "/dev/i2c-"@ + text::decimal(bus as nat)
}

/// A number in hexadecimal with its prefix, two digits at least.
pub open spec fn hex_address(n: nat) -> Seq<char> {
    "0x"@ + text::padded(text::hex(n), 2, '0')
}

/// A failure with the step it happened in named before it.
pub open spec fn in_context(step: Seq<char>, cause: Seq<char>) -> Seq<char> {
    step + ": "@ + cause
}

/// Which device an access is about.
pub open spec fn device_text(bus: u32, addr: u16) -> Seq<char> {
    device_path_text(bus) + " @ "@ + hex_address(addr as nat)
}

/// Path of a bus's device node.
pub fn device_path(bus: u32) -> (s: String)
    ensures
        s@ == device_path_text(bus),
{
    let mut s = "/dev/i2c-".to_owned();
    s.append(decimal_text(bus as u128).as_str());
    s
}

/// `n` in hexadecimal with its prefix.
pub fn hex_address_text(n: u16) -> (s: String)
    ensures
        s@ == hex_address(n as nat),
{
    let mut s = "0x".to_owned();
    s.append(pad_left(hex_text(n as u128).as_str(), 2, '0').as_str());
    s
}

fn device_name(bus: u32, addr: u16) -> (s: String)
    ensures
        s@ == device_text(bus, addr),
{
    let mut s = device_path(bus);
    s.append(" @ ");
    s.append(hex_address_text(addr).as_str());
    s
}

/// The error of a register read that failed.
pub fn register_error(reg: u8, cause: &str) -> (e: ReadError)
    ensures
        e.message@ == in_context("read reg "@ + hex_address(reg as nat), cause@),
{
    let mut s = "read reg ".to_owned();
    s.append(hex_address_text(reg as u16).as_str());
    s.append(": ");
    s.append(cause);
    ReadError { message: s }
}

/// The error of a device that could not be opened.
pub fn opening_error(bus: u32, addr: u16, cause: &str) -> (e: ReadError)
    ensures
        e.message@ == in_context("opening "@ + device_text(bus, addr), cause@),
{
    let mut s = "opening ".to_owned();
    s.append(device_name(bus, addr).as_str());
    s.append(": ");
    s.append(cause);
    ReadError { message: s }
}

/// Read the 24-byte telemetry block of the chip at `addr` on `bus`, register by register.
pub fn read_raw<R: RegReader>(dev: &mut Recorder<R>, bus: u32, addr: u16) -> (r: Result<[u8; 24], ReadError>)
    ensures
        ({
            let log = final(dev).history().skip(old(dev).history().len() as int);
            let out = block_outcome(log, 0);
            &&& final(dev).history() == old(dev).history() + log
            &&& block_asked(log, 0)
            &&& log.len() == out.0
            &&& match r {
                Ok(bytes) => out.1 == Ok::<Seq<u8>, ReadError>(bytes@),
                Err(e) => out.1 is Err && e.message@ == in_context(
                    "reading "@ + device_text(bus, addr),
                    out.1->Err_0.message@,
                ),
            }
        }),
{
    match read_raw_from(dev) {
        Ok(bytes) => Ok(bytes),
        Err(e) => {
            let mut s = "reading ".to_owned();
            s.append(device_name(bus, addr).as_str());
            s.append(": ");
            s.append(e.message.as_str());
            Err(ReadError { message: s })
        },
    }
}

/// Whether a reading is what a block of bytes decodes to.
pub open spec fn decoded(bytes: Seq<u8>, r: Reading) -> bool {
    forall|p: int| 0 <= p < 6 ==> #[trigger] r.pins@[p] == decode::pin_of(bytes, p)
}

/// Read and decode one snapshot.
pub fn read_reading<R: RegReader>(dev: &mut Recorder<R>, bus: u32, addr: u16) -> (r: Result<
    Reading,
    ReadError,
>)
    ensures
        ({
            let log = final(dev).history().skip(old(dev).history().len() as int);
            let out = block_outcome(log, 0);
            &&& final(dev).history() == old(dev).history() + log
            &&& block_asked(log, 0)
            &&& log.len() == out.0
            &&& match r {
                Ok(reading) => out.1 is Ok && decoded(out.1->Ok_0, reading),
                Err(e) => out.1 is Err && e.message@ == in_context(
                    "reading "@ + device_text(bus, addr),
                    out.1->Err_0.message@,
                ),
            }
        }),
{
    match read_raw(dev, bus, addr) {
        Ok(bytes) => Ok(decode(&bytes)),
        Err(e) => Err(e),
    }
}

// ---------------------------------------------------------------- finding the bus

/// The kind of an operating-system I/O failure, as far as it matters here.
#[derive(Debug, Clone, Copy, PartialEq, Eq, Structural)]
pub enum IoKind {
    PermissionDenied,
    NotFound,
    TimedOut,
    Other,
}

/// Why a bus could not be opened or talked to.
#[derive(Debug, Clone, Copy, PartialEq, Eq, Structural)]
pub enum BusError {
    /// The open itself failed.
    Io(IoKind),
    /// A later call failed with this error number.
    Errno(i32),
}

/// Whether an error says that access was denied.
pub open spec fn is_denied(err: BusError) -> bool {
    match err {
        BusError::Io(k) => k == IoKind::PermissionDenied,
        BusError::Errno(n) => n == 13 || n == 1,
    }
}

/// Whether opening or talking to the bus was denied — the process lacks i2c access (not in the
/// `i2c` group, and not root). The denial almost always surfaces at the open; the error number
/// (`EACCES`, `EPERM`) covers one raised later.
pub fn is_permission_denied(err: &BusError) -> (r: bool)
    ensures
        r == (match *err {
            BusError::Io(k) => k == IoKind::PermissionDenied,
            BusError::Errno(n) => n == 13 || n == 1,
        }),
        r == is_denied(*err),
{
    match *err {
        BusError::Io(k) => k == IoKind::PermissionDenied,
        BusError::Errno(n) => n == 13 || n == 1,
    }
}

/// What scanning the NVIDIA buses for the telemetry chip turned up. Distinguishing these lets
/// the caller give an actionable message instead of always blaming an idle GPU.
#[derive(Debug, Clone, Copy, PartialEq, Eq, Structural)]
pub enum Detect {
    /// A bus answered with plausible telemetry.
    Found(u32),
    /// No NVIDIA i2c buses exist — the `i2c-dev` module probably isn't loaded.
    NoBuses,
    /// Buses exist but opening them was denied: the process lacks i2c access.
    PermissionDenied,
    /// Buses exist and were readable, but none returned plausible telemetry — the GPU is
    /// genuinely idle, the address is wrong, or the SKU is unsupported.
    NoTelemetry,
}

/// What probing one bus turned up.
#[derive(Debug, Clone, Copy, PartialEq, Eq, Structural)]
pub enum Probe {
    Plausible,
    PermissionDenied,
    Other,
}

/// What a bus that would not open counts as.
pub fn probe_refused(err: &BusError) -> (p: Probe)
    ensures
        p == (match *err {
            BusError::Io(IoKind::PermissionDenied) => Probe::PermissionDenied,
            BusError::Errno(n) => if n == 13 || n == 1 {
                Probe::PermissionDenied
            } else {
                Probe::Other
            },
            BusError::Io(_) => Probe::Other,
        }),
        p == Probe::PermissionDenied <==> is_denied(*err),
        p != Probe::PermissionDenied ==> p == Probe::Other,
{
    if is_permission_denied(err) {
        Probe::PermissionDenied
    } else {
        Probe::Other
    }
}

/// Probe an opened bus: one block is read, and plausible telemetry is what counts.
pub fn probe_bus<R: RegReader>(dev: &mut Recorder<R>) -> (p: Probe)
    ensures
        ({
            let log = final(dev).history().skip(old(dev).history().len() as int);
            let out = block_outcome(log, 0);
            &&& final(dev).history() == old(dev).history() + log
            &&& block_asked(log, 0)
            &&& log.len() == out.0
            &&& p != Probe::PermissionDenied
            &&& p == Probe::Plausible <==> out.1 is Ok && decode::is_plausible(
                Seq::new(6, |i: int| decode::pin_of(out.1->Ok_0, i)),
            )
        }),
{
    match read_raw_from(dev) {
        Ok(raw) => {
            let r = decode(&raw);
            assert(r.pins@ =~= Seq::new(6, |i: int| decode::pin_of(raw@, i)));
            if r.plausible() {
                Probe::Plausible
            } else {
                Probe::Other
            }
        },
        Err(_) => Probe::Other,
    }
}

/// What a scan does next.
#[derive(Debug, Clone, Copy, PartialEq, Eq, Structural)]
pub enum Scan {
    /// Probe this bus and come back with the answer.
    Probe(u32),
    /// The scan is over.
    Done(Detect),
}

/// How many buses a scan asks before it is over: up to the first plausible one.
pub open spec fn first_plausible(probes: Seq<Probe>) -> Option<int>
    decreases probes.len(),
{
    if probes.len() == 0 {
        None
    } else {
        match first_plausible(probes.drop_last()) {
            Some(i) => Some(i),
            None => if probes.last() == Probe::Plausible {
                Some(probes.len() - 1)
            } else {
                None
            },
        }
    }
}

/// What a scan of `buses` does after the first of them answered `probes`.
pub open spec fn scan_step(buses: Seq<u32>, probes: Seq<Probe>) -> Scan {
    if buses.len() == 0 {
        Scan::Done(Detect::NoBuses)
    } else {
        match first_plausible(probes) {
            Some(i) => Scan::Done(Detect::Found(buses[i])),
            None => if probes.len() < buses.len() {
                Scan::Probe(buses[probes.len() as int])
            } else if probes.contains(Probe::PermissionDenied) {
                Scan::Done(Detect::PermissionDenied)
            } else {
                Scan::Done(Detect::NoTelemetry)
            },
        }
    }
}

proof fn lemma_first_plausible(probes: Seq<Probe>)
    ensures
        first_plausible(probes) matches Some(i) ==> 0 <= i < probes.len(),
    decreases probes.len(),
{
    if probes.len() > 0 {
        lemma_first_plausible(probes.drop_last());
    }
}

/// Scan the NVIDIA buses for the chip, one probe at a time, reporting *why* if none answered so
/// that a "deeply idle" message is never shown when the real problem is missing permissions.
/// `probes` holds the answers of the first buses so far.
pub fn detect_bus(buses: &Vec<u32>, probes: &Vec<Probe>) -> (step: Scan)
    requires
        probes.len() <= buses.len(),
    ensures
        step == scan_step(buses@, probes@),
{
    if buses.len() == 0 {
        return Scan::Done(Detect::NoBuses);
    }
    let mut found: Option<usize> = None;
    let mut denied = false;
    let mut i: usize = 0;
    while i < probes.len()
        invariant
            i <= probes.len() <= buses.len(),
            match found {
                Some(k) => first_plausible(probes@.take(i as int)) == Some(k as int) && k < i,
                None => first_plausible(probes@.take(i as int)) is None,
            },
            denied == probes@.take(i as int).contains(Probe::PermissionDenied),
        decreases probes.len() - i,
    {
        let ghost t = probes@.take(i + 1);
        assert(t.drop_last() =~= probes@.take(i as int));
        let p = probes[i];
        if found.is_none() && p == Probe::Plausible {
            found = Some(i);
        }
        proof {
            let s = probes@.take(i as int);
            if s.contains(Probe::PermissionDenied) {
                let k = choose|k: int| 0 <= k < s.len() && s[k] == Probe::PermissionDenied;
                assert(t[k] == Probe::PermissionDenied);
            }
            if p == Probe::PermissionDenied {
                assert(t[i as int] == p);
            }
            if t.contains(Probe::PermissionDenied) && p != Probe::PermissionDenied {
                let k = choose|k: int| 0 <= k < t.len() && t[k] == Probe::PermissionDenied;
                assert(s[k] == Probe::PermissionDenied);
            }
        }
        if p == Probe::PermissionDenied {
            denied = true;
        }
        i = i + 1;
    }
    assert(probes@.take(probes@.len() as int) =~= probes@);
    match found {
        Some(k) => Scan::Done(Detect::Found(buses[k])),
        None => {
            if probes.len() < buses.len() {
                Scan::Probe(buses[probes.len()])
            } else if denied {
                Scan::Done(Detect::PermissionDenied)
            } else {
                Scan::Done(Detect::NoTelemetry)
            }
        },
    }
}

/// Whether a bus belongs to the GPU with the PCI id `want`.
pub open spec fn belongs(bus: (u32, Option<String>), want: Seq<char>) -> bool {
    bus.1 is Some && bus.1->0@ == want
}

/// Consecutive unusable samples on an auto-detected bus before re-running detection — covers the
/// GPU resetting and the kernel re-enumerating the i2c bus under a new number.
pub const REDETECT_AFTER: u32 = 10;

/// The buses whose GPU has the PCI id `want`, in order.
pub open spec fn buses_of(buses: Seq<(u32, Option<String>)>, want: Seq<char>) -> Seq<u32>
    decreases buses.len(),
{
    if buses.len() == 0 {
        seq![]
    } else {
        let before = buses_of(buses.drop_last(), want);
        if belongs(buses.last(), want) {
            before.push(buses.last().0)
        } else {
            before
        }
    }
}

/// Re-detect for a known card: the first plausible bus whose GPU PCI id matches `want_pci`.
/// Unlike [`detect_bus`], this never migrates to a *different* GPU after a renumber, so on a
/// multi-card box a crashed card is never silently swapped for a healthy sibling. `probes` holds
/// the answers of the first matching buses so far.
pub fn redetect_card(
    buses: &Vec<(u32, Option<String>)>,
    want_pci: &str,
    probes: &Vec<Probe>,
) -> (step: Scan)
    requires
        probes.len() <= buses_of(buses@, want_pci@).len(),
    ensures
        step == scan_step(buses_of(buses@, want_pci@), probes@),
{
    let mut own: Vec<u32> = Vec::new();
    let mut i: usize = 0;
    while i < buses.len()
        invariant
            i <= buses.len(),
            own@ == buses_of(buses@.take(i as int), want_pci@),
        decreases buses.len() - i,
    {
        assert(buses@.take(i + 1).drop_last() =~= buses@.take(i as int));
        if let Some(id) = &buses[i].1 {
            if same_text(id.as_str(), want_pci) {
                own.push(buses[i].0);
            }
        }
        i = i + 1;
    }
    assert(buses@.take(buses@.len() as int) =~= buses@);
    detect_bus(&own, probes)
}

/// A re-detection only ever probes or settles on a bus of the wanted card.
pub proof fn law_redetect_never_migrates(
    buses: Seq<(u32, Option<String>)>,
    want: Seq<char>,
    probes: Seq<Probe>,
    b: u32,
)
    requires
        probes.len() <= buses_of(buses, want).len(),
        scan_step(buses_of(buses, want), probes) == Scan::Probe(b) || scan_step(
            buses_of(buses, want),
            probes,
        ) == Scan::Done(Detect::Found(b)),
    ensures
        exists|i: int|
            0 <= i < buses.len() && (#[trigger] buses[i]).0 == b && belongs(buses[i], want),
{
    lemma_first_plausible(probes);
    let own = buses_of(buses, want);
    let k = match first_plausible(probes) {
        Some(i) => i,
        None => probes.len() as int,
    };
    assert(own[k] == b);
    lemma_buses_of(buses, want, k);
}

proof fn lemma_buses_of(buses: Seq<(u32, Option<String>)>, want: Seq<char>, k: int)
    requires
        0 <= k < buses_of(buses, want).len(),
    ensures
        exists|i: int|
            0 <= i < buses.len() && (#[trigger] buses[i]).0 == buses_of(buses, want)[k] && belongs(
                buses[i],
                want,
            ),
    decreases buses.len(),
{
    let before = buses_of(buses.drop_last(), want);
    if k < before.len() {
        lemma_buses_of(buses.drop_last(), want, k);
        let i = choose|i: int|
            0 <= i < buses.drop_last().len() && (#[trigger] buses.drop_last()[i]).0 == before[k]
                && belongs(buses.drop_last()[i], want);
        assert(buses[i].0 == before[k]);
    } else {
        assert(buses[buses.len() - 1].0 == buses_of(buses, want)[k]);
    }
}

/// A denied bus is never reported as an idle GPU: `NoTelemetry` means every bus was readable.
pub proof fn law_idle_is_not_blamed_for_a_denial(buses: Seq<u32>, probes: Seq<Probe>)
    requires
        scan_step(buses, probes) == Scan::Done(Detect::NoTelemetry),
    ensures
        !probes.contains(Probe::PermissionDenied),
        probes.len() >= buses.len() > 0,
{
}

/// An i2c adapter as the system lists it.
#[derive(Debug, Clone, PartialEq)]
pub struct BusEntry {
    /// Name of the entry, such as `i2c-3`, when it is valid text.
    pub file_name: Option<String>,
    /// Name the adapter gives itself, when it could be read.
    pub adapter: Option<String>,
}

/// The bus number of an entry, if it is an NVIDIA adapter with a well-formed name.
pub open spec fn nvidia_bus(e: BusEntry) -> Option<u32> {
    if e.adapter matches Some(a) && text::holds(a@, "NVIDIA"@) && e.file_name is Some
        && "i2c-"@.is_prefix_of(e.file_name->0@) {
        match number::numeral_value(e.file_name->0@.skip(4), 10, u32::MAX as nat) {
            Ok(n) => Some(n as u32),
            Err(_) => None,
        }
    } else {
        None
    }
}

/// The bus numbers of the NVIDIA adapters, in the order of the listing.
pub open spec fn nvidia_numbers(entries: Seq<BusEntry>) -> Seq<u32>
    decreases entries.len(),
{
    if entries.len() == 0 {
        seq![]
    } else {
        let before = nvidia_numbers(entries.drop_last());
        match nvidia_bus(entries.last()) {
            Some(n) => before.push(n),
            None => before,
        }
    }
}

/// The numbers never go down.
pub open spec fn ascending(s: Seq<u32>) -> bool {
    forall|i: int, j: int| 0 <= i <= j < s.len() ==> s[i] <= s[j]
}

fn bus_number(e: &BusEntry) -> (n: Option<u32>)
    ensures
        n == nvidia_bus(*e),
{
    match (&e.adapter, &e.file_name) {
        (Some(a), Some(f)) => {
            if !contains_text(&chars_of(a.as_str()), "NVIDIA") {
                return None;
            }
            let name = chars_of(f.as_str());
            proof {
                reveal_strlit("i2c-");
            }
            if !begins_with(&name, "i2c-") {
                return None;
            }
            assert(name@.subrange(4, name@.len() as int) =~= name@.skip(4));
            match read_unsigned(&slice_of(&name, 4, name.len()), 10, u32::MAX as u64) {
                Ok(n) => Some(n as u32),
                Err(_) => None,
            }
        },
        _ => None,
    }
}

fn insert_ascending(v: &mut Vec<u32>, x: u32)
    requires
        ascending(old(v)@),
    ensures
        ascending(final(v)@),
        final(v)@.to_multiset() == old(v)@.to_multiset().insert(x),
{
    let ghost had = v@;
    let mut at: usize = v.len();
    while at > 0 && v[at - 1] > x
        invariant
            at <= v.len(),
            v@ == had,
            ascending(had),
            forall|j: int| at <= j < v.len() ==> v@[j] > x,
        decreases at,
    {
        at = at - 1;
    }
    v.insert(at, x);
    proof {
        let now = v@;
        assert(now.remove(at as int) =~= had);
        vstd::seq_lib::to_multiset_remove(now, at as int);
        assert(now[at as int] == x);
        assert(now.contains(x));
        now.to_multiset_ensures();
        assert(now.to_multiset() =~= had.to_multiset().insert(x));
    }
}

/// Logical i2c bus numbers that belong to an NVIDIA GPU, ascending.
pub fn nvidia_buses(entries: &Vec<BusEntry>) -> (out: Vec<u32>)
    ensures
        ascending(out@),
        out@.to_multiset() == nvidia_numbers(entries@).to_multiset(),
{
    let mut out: Vec<u32> = Vec::new();
    let mut i: usize = 0;
    while i < entries.len()
        invariant
            i <= entries.len(),
            ascending(out@),
            out@.to_multiset() == nvidia_numbers(entries@.take(i as int)).to_multiset(),
        decreases entries.len() - i,
    {
        let ghost before = nvidia_numbers(entries@.take(i as int));
        assert(entries@.take(i + 1).drop_last() =~= entries@.take(i as int));
        if let Some(n) = bus_number(&entries[i]) {
            insert_ascending(&mut out, n);
            proof {
                vstd::seq_lib::to_multiset_build(before, n);
            }
        }
        i = i + 1;
    }
    assert(entries@.take(entries@.len() as int) =~= entries@);
    out
}

// ---------------------------------------------------------------- PCI ids

/// Whether `c` is a hexadecimal digit.
pub open spec fn is_hex(c: char) -> bool {
    number::digit_value(c) is Some
}

/// A PCI `domain:bus:device.function` slot, e.g. `0000:0b:00.0`.
pub open spec fn is_bdf(s: Seq<char>) -> bool {
    &&& s.len() == 12
    &&& s[4] == ':'
    &&& s[7] == ':'
    &&& s[10] == '.'
    &&& forall|i: int| 0 <= i < 12 && i != 4 && i != 7 && i != 10 ==> is_hex(#[trigger] s[i])
}

/// The last of the path components that is a PCI slot.
pub open spec fn deepest_bdf(parts: Seq<Seq<char>>) -> Option<Seq<char>>
    decreases parts.len(),
{
    if parts.len() == 0 {
        None
    } else if is_bdf(parts.last()) {
        Some(parts.last())
    } else {
        deepest_bdf(parts.drop_last())
    }
}

fn bdf(v: &Vec<char>) -> (r: bool)
    ensures
        r == is_bdf(v@),
{
    if v.len() != 12 || v[4] != ':' || v[7] != ':' || v[10] != '.' {
        return false;
    }
    let mut i: usize = 0;
    while i < 12
        invariant
            i <= 12,
            v.len() == 12,
            forall|j: int| 0 <= j < i && j != 4 && j != 7 && j != 10 ==> is_hex(#[trigger] v@[j]),
        decreases 12 - i,
    {
        if i != 4 && i != 7 && i != 10 && number::digit_of(v[i]).is_none() {
            assert(!is_hex(v@[i as int]));
            return false;
        }
        i = i + 1;
    }
    true
}

/// Matches a PCI `domain:bus:device.function` slot, e.g. `0000:0b:00.0` (rejects `pci0000:00`).
pub fn is_pci_bdf(s: &str) -> (r: bool)
    ensures
        r == is_bdf(s@),
{
    bdf(&chars_of(s))
}

/// Deepest PCI slot of a sysfs path — the GPU function itself, not a parent bridge.
pub fn pci_id_from_path(path: &str) -> (id: Option<String>)
    ensures
        match id {
            Some(s) => deepest_bdf(text::pieces(path@, '/')) == Some(s@),
            None => deepest_bdf(text::pieces(path@, '/')) is None,
        },
{
    let parts = split(&chars_of(path), '/');
    let ghost all = text::char_views(parts@);
    let mut n: usize = parts.len();
    assert(all.take(all.len() as int) =~= all);
    while n > 0
        invariant
            n <= parts.len(),
            all == text::char_views(parts@),
            all == text::pieces(path@, '/'),
            deepest_bdf(all) == deepest_bdf(all.take(n as int)),
        decreases n,
    {
        assert(all.take(n as int).last() == parts@[n - 1]@);
        if bdf(&parts[n - 1]) {
            return Some(text_of(&parts[n - 1]));
        }
        assert(all.take(n as int).drop_last() =~= all.take(n - 1));
        n = n - 1;
    }
    None
}

/// Where the system describes a bus; the link leads to the GPU it belongs to.
pub fn bus_link(bus: u32) -> (s: String)
    ensures
        s@ == "/sys/class/i2c-dev/i2c-"@ + text::decimal(bus as nat),
{
    let mut s = "/sys/class/i2c-dev/i2c-".to_owned();
    s.append(decimal_text(bus as u128).as_str());
    s
}

/// A PCI id with its domain parsed: the domain, and what follows the first colon.
pub open spec fn pci_parts(s: Seq<char>) -> Option<(nat, Seq<char>)> {
    let low = lowered(s);
    match low.index_of_first(':') {
        None => None,
        Some(i) => match number::numeral_value(low.take(i), 16, u32::MAX as nat) {
            Ok(d) => Some((d, low.skip(i + 1))),
            Err(_) => None,
        },
    }
}

/// A PCI id without surrounding white space, in lower case.
pub open spec fn lowered(s: Seq<char>) -> Seq<char> {
    text::trimmed(s).map_values(|c: char| text::ascii_lower(c))
}

/// A PCI id with its domain as eight hexadecimal digits.
pub open spec fn pci_form(domain: nat, rest: Seq<char>) -> Seq<char> {
    text::padded(text::hex(domain), 8, '0') + ":"@ + rest
}

/// The normal form of a PCI id.
pub open spec fn normal_pci(s: Seq<char>) -> Seq<char> {
    match pci_parts(s) {
        Some((d, rest)) => pci_form(d, rest),
        None => lowered(s),
    }
}

/// Normalize a PCI id for cross-source matching. The sysfs form (`0000:0b:00.0`) and the NVML /
/// nvidia-smi form (`00000000:0B:00.0`) differ only in domain width and hex case, so canonicalize
/// to a fixed 8-hex lowercase domain plus the rest. This keeps the two forms equal while still
/// distinguishing GPUs that share a `bus:device.function` across different PCI domains.
pub fn norm_pci(s: &str) -> (out: String)
    ensures
        out@ == normal_pci(s@),
{
    let low = lower(&trim(&chars_of(s)));
    proof {
        low@.index_of_first_ensures(':');
    }
    match find_char(&low, ':') {
        None => text_of(&low),
        Some(i) => {
            assert(low@.subrange(0, i as int) =~= low@.take(i as int));
            assert(low@.subrange(i + 1, low@.len() as int) =~= low@.skip(i + 1));
            match read_unsigned(&slice_of(&low, 0, i), 16, u32::MAX as u64) {
                Ok(d) => {
                    let mut out = pad_left(hex_text(d as u128).as_str(), 8, '0');
                    out.append(":");
                    out.append(text_of(&slice_of(&low, i + 1, low.len())).as_str());
                    out
                },
                Err(_) => text_of(&low),
            }
        },
    }
}

spec fn power_of_16(k: nat) -> nat
    decreases k,
{
    if k == 0 {
        1
    } else {
        16 * power_of_16((k - 1) as nat)
    }
}

proof fn lemma_hex_length(n: nat, k: nat)
    requires
        k >= 1,
        n < power_of_16(k),
    ensures
        text::hex(n).len() <= k,
    decreases k,
{
    if n >= 16 {
        assert(k >= 2) by {
            assert(power_of_16(0) == 1);
            if k == 1 {
                assert(power_of_16(1) == 16 * power_of_16(0));
            }
        }
        lemma_hex_length(n / 16, (k - 1) as nat);
    }
}

proof fn lemma_digit_reads_back(d: nat)
    requires
        d < 16,
    ensures
        number::digit_value(text::digit_char(d)) == Some(d),
{
}

proof fn lemma_hex_reads_back(n: nat, max: nat)
    requires
        n <= max,
    ensures
        number::digits_read(text::hex(n), 16, max) == Ok::<nat, number::NumeralError>(n),
    decreases n,
{
    let s = text::hex(n);
    lemma_digit_reads_back(n % 16);
    if n < 16 {
        assert(s.drop_last() =~= Seq::<char>::empty());
        assert(number::digits_read(s.drop_last(), 16, max) == Ok::<nat, number::NumeralError>(0));
        assert(s.last() == text::digit_char(n));
        assert(n % 16 == n);
    } else {
        assert(s.drop_last() =~= text::hex(n / 16));
        assert(n == (n / 16) * 16 + n % 16);
        lemma_hex_reads_back(n / 16, max);
    }
}

proof fn lemma_leading_zeros(k: nat, s: Seq<char>, max: nat)
    ensures
        number::digits_read(text::repeated('0', k) + s, 16, max) == number::digits_read(
            s,
            16,
            max,
        ),
    decreases s.len() + k,
{
    let t = text::repeated('0', k) + s;
    if s.len() > 0 {
        assert(t.drop_last() =~= text::repeated('0', k) + s.drop_last());
        lemma_leading_zeros(k, s.drop_last(), max);
    } else if k > 0 {
        assert(t.drop_last() =~= text::repeated('0', (k - 1) as nat) + s);
        lemma_leading_zeros((k - 1) as nat, s, max);
    } else {
        assert(t =~= s);
    }
}

proof fn lemma_domain_form(d: nat)
    requires
        d <= u32::MAX,
    ensures
        text::padded(text::hex(d), 8, '0').len() == 8,
        number::digits_read(text::padded(text::hex(d), 8, '0'), 16, u32::MAX as nat) == Ok::<
            nat,
            number::NumeralError,
        >(d),
{
    let h = text::hex(d);
    assert(power_of_16(8) == 0x1_0000_0000) by {
        reveal_with_fuel(power_of_16, 9);
    }
    lemma_hex_length(d, 8);
    lemma_hex_reads_back(d, u32::MAX as nat);
    if h.len() < 8 {
        lemma_leading_zeros((8 - h.len()) as nat, h, u32::MAX as nat);
    }
}

proof fn lemma_digits_in_range(s: Seq<char>, radix: nat, max: nat)
    ensures
        number::digits_read(s, radix, max) matches Ok(v) ==> v <= max || s.len() == 0,
    decreases s.len(),
{
    if s.len() > 0 {
        lemma_digits_in_range(s.drop_last(), radix, max);
    }
}

/// Normal forms tell GPUs apart by domain and slot and by nothing else: two ids that have a
/// domain get the same normal form exactly when their domains are the same number and the rest
/// is the same but for letter case. The width of the domain and surrounding white space never
/// matter.
pub proof fn law_normal_form_identifies_the_slot(a: Seq<char>, b: Seq<char>)
    requires
        pci_parts(a) is Some,
        pci_parts(b) is Some,
    ensures
        normal_pci(a) == normal_pci(b) <==> pci_parts(a) == pci_parts(b),
{
    let (da, ra) = pci_parts(a)->0;
    let (db, rb) = pci_parts(b)->0;
    let la = lowered(a);
    let lb = lowered(b);
    lemma_digits_in_range(
        number::unsigned_digits(la.take(la.index_of_first(':')->0)),
        16,
        u32::MAX as nat,
    );
    lemma_digits_in_range(
        number::unsigned_digits(lb.take(lb.index_of_first(':')->0)),
        16,
        u32::MAX as nat,
    );
    lemma_domain_form(da);
    lemma_domain_form(db);
    reveal_strlit(":");
    let x = normal_pci(a);
    let y = normal_pci(b);
    assert(x.take(8) =~= text::padded(text::hex(da), 8, '0'));
    assert(y.take(8) =~= text::padded(text::hex(db), 8, '0'));
    assert(x.skip(9) =~= ra);
    assert(y.skip(9) =~= rb);
}

proof fn lemma_trimmed_ends(s: Seq<char>)
    ensures
        text::trimmed(s).len() > 0 ==> !text::is_space(text::trimmed(s)[0]) && !text::is_space(
            text::trimmed(s).last(),
        ),
{
    lemma_trim_start_begins(s);
    lemma_trim_end_ends(text::trim_start(s));
}

proof fn lemma_trim_start_begins(s: Seq<char>)
    ensures
        text::trim_start(s).len() > 0 ==> !text::is_space(text::trim_start(s)[0]),
    decreases s.len(),
{
    if s.len() > 0 && text::is_space(s[0]) {
        lemma_trim_start_begins(s.drop_first());
    }
}

proof fn lemma_trim_end_ends(s: Seq<char>)
    ensures
        text::trim_end(s).len() > 0 ==> !text::is_space(text::trim_end(s).last())
            && text::trim_end(s)[0] == s[0],
    decreases s.len(),
{
    if s.len() > 0 && text::is_space(s.last()) {
        lemma_trim_end_ends(s.drop_last());
    }
}

/// A text that neither begins nor ends with white space is not trimmed.
proof fn lemma_lowered_in_place(s: Seq<char>)
    requires
        s.len() > 0 ==> !text::is_space(s[0]) && !text::is_space(s.last()),
    ensures
        lowered(s) == s.map_values(|c: char| text::ascii_lower(c)),
{
    assert(text::trim_start(s) == s);
    assert(text::trim_end(s) == s);
}

proof fn lemma_lower_keeps_kind(c: char)
    ensures
        text::is_space(text::ascii_lower(c)) == text::is_space(c),
        text::ascii_lower(text::ascii_lower(c)) == text::ascii_lower(c),
        text::ascii_lower(c) == ':' <==> c == ':',
        text::ascii_lower(c) == '+' <==> c == '+',
        number::digit_value(text::ascii_lower(c)) == number::digit_value(c),
{
}

proof fn lemma_lowered_ends(s: Seq<char>)
    ensures
        lowered(s).len() > 0 ==> !text::is_space(lowered(s)[0]) && !text::is_space(
            lowered(s).last(),
        ),
        forall|i: int|
            0 <= i < lowered(s).len() ==> text::ascii_lower(#[trigger] lowered(s)[i])
                == lowered(s)[i],
{
    let t = text::trimmed(s);
    lemma_trimmed_ends(s);
    if t.len() > 0 {
        lemma_lower_keeps_kind(t[0]);
        lemma_lower_keeps_kind(t.last());
    }
    assert forall|i: int| 0 <= i < lowered(s).len() implies text::ascii_lower(
        #[trigger] lowered(s)[i],
    ) == lowered(s)[i] by {
        lemma_lower_keeps_kind(t[i]);
    }
}

proof fn lemma_hex_is_lower(n: nat)
    ensures
        text::hex(n).len() > 0,
        forall|i: int|
            0 <= i < text::hex(n).len() ==> is_lower_hex(#[trigger] text::hex(n)[i]),
    decreases n,
{
    let d = n % 16;
    assert(is_lower_hex(text::digit_char(d)));
    if n >= 16 {
        lemma_hex_is_lower(n / 16);
        assert forall|i: int| 0 <= i < text::hex(n).len() implies is_lower_hex(
            #[trigger] text::hex(n)[i],
        ) by {
            if i < text::hex(n / 16).len() {
                assert(text::hex(n)[i] == text::hex(n / 16)[i]);
            }
        }
    } else {
        assert(n % 16 == n);
    }
}

spec fn is_lower_hex(c: char) -> bool {
    '0' <= c <= '9' || 'a' <= c <= 'f'
}

/// Normalizing twice is normalizing once: a normal form is its own normal form.
pub proof fn law_normal_form_is_final(s: Seq<char>)
    ensures
        normal_pci(normal_pci(s)) == normal_pci(s),
{
    let low = lowered(s);
    let n = normal_pci(s);
    lemma_lowered_ends(s);
    match pci_parts(s) {
        None => {
            lemma_lowered_in_place(low);
            assert(lowered(low) =~= low);
        },
        Some((d, rest)) => {
            low.index_of_first_ensures(':');
            let at = low.index_of_first(':')->0;
            lemma_digits_in_range(
                number::unsigned_digits(low.take(at)),
                16,
                u32::MAX as nat,
            );
            lemma_domain_form(d);
            lemma_hex_is_lower(d);
            reveal_strlit(":");
            let head = text::padded(text::hex(d), 8, '0');
            assert forall|i: int| 0 <= i < 8 implies is_lower_hex(#[trigger] head[i]) by {
                let k = 8 - text::hex(d).len();
                if i >= k {
                    assert(head[i] == text::hex(d)[i - k]);
                }
            }
            assert(n.len() == 9 + rest.len());
            assert(n[0] == head[0]);
            assert(is_lower_hex(head[0]));
            if rest.len() > 0 {
                assert(n.last() == low.last());
            } else {
                assert(n.last() == ':');
            }
            lemma_lowered_in_place(n);
            assert forall|i: int| 0 <= i < n.len() implies text::ascii_lower(#[trigger] n[i])
                == n[i] by {
                if i < 8 {
                    assert(n[i] == head[i]);
                } else if i > 8 {
                    assert(n[i] == low[at + 1 + (i - 9)]);
                }
            }
            assert(lowered(n) =~= n);
            n.index_of_first_ensures(':');
            assert(n[8] == ':');
            assert forall|i: int| 0 <= i < 8 implies n[i] != ':' by {
                assert(n[i] == head[i]);
                assert(is_lower_hex(head[i]));
            }
            assert(n.index_of_first(':') == Some(8int));
            assert(n.take(8) =~= head);
            assert(n.skip(9) =~= rest);
        },
    }
}

/// One to eight hexadecimal digits, in either case.
pub open spec fn is_domain(d: Seq<char>) -> bool {
    &&& 1 <= d.len() <= 8
    &&& forall|i: int| 0 <= i < d.len() ==> number::digit_value(#[trigger] d[i]) is Some
}

/// The number that a domain writes.
pub open spec fn domain_value(d: Seq<char>) -> nat
    decreases d.len(),
{
    if d.len() == 0 {
        0
    } else {
        domain_value(d.drop_last()) * 16 + number::digit_value(d.last())->0
    }
}

/// What follows a domain, in lower case.
pub open spec fn lower_case(s: Seq<char>) -> Seq<char> {
    s.map_values(|c: char| text::ascii_lower(c))
}

proof fn lemma_domain_is_read(d: Seq<char>)
    requires
        d.len() <= 8,
        forall|i: int| 0 <= i < d.len() ==> number::digit_value(#[trigger] d[i]) is Some,
    ensures
        domain_value(d) < power_of_16(d.len()),
        number::digits_read(d, 16, u32::MAX as nat) == Ok::<nat, number::NumeralError>(
            domain_value(d),
        ),
    decreases d.len(),
{
    assert(power_of_16(8) == 0x1_0000_0000) by {
        reveal_with_fuel(power_of_16, 9);
    }
    lemma_powers_grow(d.len());
    if d.len() > 0 {
        let init = d.drop_last();
        assert forall|i: int| 0 <= i < init.len() implies number::digit_value(
            #[trigger] init[i],
        ) is Some by {
            assert(init[i] == d[i]);
        }
        lemma_domain_is_read(init);
        assert(d.last() == d[d.len() - 1]);
        assert(number::digit_value(d.last())->0 < 16);
    }
}

proof fn lemma_powers_grow(k: nat)
    requires
        k <= 8,
    ensures
        power_of_16(k) <= power_of_16(8),
    decreases 8 - k,
{
    if k < 8 {
        lemma_powers_grow(k + 1);
    }
}

proof fn lemma_lower_domain(d: Seq<char>)
    ensures
        domain_value(lower_case(d)) == domain_value(d),
    decreases d.len(),
{
    if d.len() > 0 {
        assert(lower_case(d).drop_last() =~= lower_case(d.drop_last()));
        lemma_lower_domain(d.drop_last());
        lemma_lower_keeps_kind(d.last());
    }
}

proof fn lemma_id_parts(d: Seq<char>, r: Seq<char>)
    requires
        is_domain(d),
        forall|i: int| 0 <= i < r.len() ==> !text::is_space(#[trigger] r[i]),
    ensures
        pci_parts(d + ":"@ + r) == Some((domain_value(d), lower_case(r))),
{
    reveal_strlit(":");
    let s = d + ":"@ + r;
    let low = lower_case(s);
    let n = d.len() as int;
    assert(s[0] == d[0]);
    assert(number::digit_value(d[0]) is Some);
    if r.len() > 0 {
        assert(s.last() == r[r.len() - 1]);
    } else {
        assert(s.last() == ':');
    }
    lemma_lowered_in_place(s);
    assert(low.take(n) =~= lower_case(d));
    assert(low.skip(n + 1) =~= lower_case(r));
    assert forall|i: int| 0 <= i < n implies low[i] != ':' && number::digit_value(
        #[trigger] lower_case(d)[i],
    ) is Some by {
        lemma_lower_keeps_kind(d[i]);
        assert(number::digit_value(d[i]) is Some);
        assert(low[i] == text::ascii_lower(d[i]));
    }
    assert(low[n] == ':');
    low.index_of_first_ensures(':');
    assert(low.index_of_first(':') == Some(n));
    assert(number::digit_value(lower_case(d)[0]) is Some);
    assert(number::unsigned_digits(lower_case(d)) == lower_case(d));
    lemma_domain_is_read(lower_case(d));
    lemma_lower_domain(d);
}

/// Two ids written as a domain, a colon and the rest get the same normal form exactly when the
/// domains are the same number and the rests are the same but for letter case.
pub proof fn law_same_slot_same_normal_form(
    d1: Seq<char>,
    r1: Seq<char>,
    d2: Seq<char>,
    r2: Seq<char>,
)
    requires
        is_domain(d1),
        is_domain(d2),
        forall|i: int| 0 <= i < r1.len() ==> !text::is_space(#[trigger] r1[i]),
        forall|i: int| 0 <= i < r2.len() ==> !text::is_space(#[trigger] r2[i]),
    ensures
        normal_pci(d1 + ":"@ + r1) == normal_pci(d2 + ":"@ + r2) <==> domain_value(d1)
            == domain_value(d2) && lower_case(r1) == lower_case(r2),
{
    lemma_id_parts(d1, r1);
    lemma_id_parts(d2, r2);
    law_normal_form_identifies_the_slot(d1 + ":"@ + r1, d2 + ":"@ + r2);
}

} // verus!
