//! Which column of a CSV row holds what.

use crate::alert;
use crate::alert::AlertView;
use crate::decode;
use crate::decode::{Pin, Reading};
use crate::double;
use crate::logger;
use crate::text;
use vstd::prelude::*;

verus! {

/// The fields that a reader splits a row into.
pub open spec fn read_fields(row: Seq<char>) -> Seq<Seq<char>> {
    logger::split_fields(row.drop_last(), false)
}

proof fn lemma_pin_fields(pins: Seq<Pin>, n: nat)
    ensures
        logger::pin_fields(pins, n).len() == 2 * n,
        forall|k: int|
            0 <= k < n ==> #[trigger] logger::pin_fields(pins, n)[2 * k] == double::fixed(
                double::thousandths(pins[k].millivolts as nat),
                3,
            ),
        forall|k: int|
            0 <= k < n ==> #[trigger] logger::pin_fields(pins, n)[2 * k + 1] == double::fixed(
                double::thousandths(pins[k].milliamps as nat),
                3,
            ),
    decreases n,
{
    if n > 0 {
        let before = logger::pin_fields(pins, (n - 1) as nat);
        let all = logger::pin_fields(pins, n);
        lemma_pin_fields(pins, (n - 1) as nat);
        assert forall|k: int| 0 <= k < n implies #[trigger] all[2 * k] == double::fixed(
            double::thousandths(pins[k].millivolts as nat),
            3,
        ) by {
            if k < n - 1 {
                assert(all[2 * k] == before[2 * k]);
            }
        }
        assert forall|k: int| 0 <= k < n implies #[trigger] all[2 * k + 1] == double::fixed(
            double::thousandths(pins[k].milliamps as nat),
            3,
        ) by {
            if k < n - 1 {
                assert(all[2 * k + 1] == before[2 * k + 1]);
            }
        }
    }
}

proof fn lemma_record(fields: Seq<Seq<char>>)
    ensures
        logger::record(fields).drop_last() == text::joined(fields, ","@),
        logger::record(fields).len() > 0,
        logger::record(fields).last() == '\n',
{
    reveal_strlit("\n");
    assert(logger::record(fields).drop_last() =~= text::joined(fields, ","@));
}

/// The column `p<n>_V` of a row holds the voltage of pin `n` and `p<n>_A` its current, each with
/// three digits, for each pin from one to six: of the fields that a reader splits the row into,
/// number `2n - 1` and number `2n`.
pub proof fn law_pin_columns_hold_their_pins(
    ts: Seq<char>,
    r: Reading,
    alerts: Seq<AlertView>,
    n: int,
)
    requires
        !ts.contains(','),
        !ts.contains('"'),
        1 <= n <= 6,
    ensures
        ({
            let row = read_fields(logger::record(logger::sample_fields(ts, r.pins@, alerts)));
            &&& row.len() == 17
            &&& row[2 * n - 1] == double::fixed(
                double::thousandths(r.pins@[n - 1].millivolts as nat),
                3,
            )
            &&& row[2 * n] == double::fixed(
                double::thousandths(r.pins@[n - 1].milliamps as nat),
                3,
            )
        }),
{
    let fields = logger::sample_fields(ts, r.pins@, alerts);
    logger::law_rows_match_the_header(ts, r.pins@, alerts);
    lemma_record(fields);
    lemma_pin_fields(r.pins@, 6);
    let pins = logger::pin_fields(r.pins@, 6);
    assert(fields[2 * n - 1] == pins[2 * (n - 1)]);
    assert(fields[2 * n] == pins[2 * (n - 1) + 1]);
}

/// The other columns of a row: the timestamp first, then behind the pins the total current with
/// three digits, the power in whole watts, the ratio with three digits or nothing, and the alerts
/// with semicolons between them.
pub proof fn law_what_the_other_columns_hold(ts: Seq<char>, r: Reading, alerts: Seq<AlertView>)
    requires
        !ts.contains(','),
        !ts.contains('"'),
    ensures
        ({
            let row = read_fields(logger::record(logger::sample_fields(ts, r.pins@, alerts)));
            &&& row.len() == 17
            &&& row[0] == ts
            &&& row[13] == double::fixed(decode::total_amps(r.pins@), 3)
            &&& row[14] == double::fixed(decode::total_watts(r.pins@), 0)
            &&& row[15] == (match decode::balance(r.pins@) {
                Some(b) => double::fixed(b, 3),
                None => seq![],
            })
            &&& logger::unquoted(row[16]) == text::joined(
                Seq::new(alerts.len(), |i: int| alert::alert_text(alerts[i])),
                seq![';'],
            )
        }),
{
    let fields = logger::sample_fields(ts, r.pins@, alerts);
    logger::law_rows_match_the_header(ts, r.pins@, alerts);
    lemma_record(fields);
    lemma_pin_fields(r.pins@, 6);
    reveal_strlit(";");
    assert(";"@ =~= seq![';']);
    assert(logger::alert_texts(alerts) =~= Seq::new(
        alerts.len(),
        |i: int| alert::alert_text(alerts[i]),
    ));
    logger::law_a_field_reads_back(text::joined(logger::alert_texts(alerts), ";"@));
}

/// A row that records a loss holds the timestamp, the message in the last column, and nothing in
/// between.
pub proof fn law_what_a_row_of_a_loss_holds(ts: Seq<char>, msg: Seq<char>, k: int)
    requires
        !ts.contains(','),
        !ts.contains('"'),
        1 <= k <= 15,
    ensures
        ({
            let row = read_fields(logger::record(logger::unreachable_fields(ts, msg)));
            &&& row.len() == 17
            &&& row[0] == ts
            &&& row[k] == Seq::<char>::empty()
            &&& logger::unquoted(row[16]) == msg
        }),
{
    let fields = logger::unreachable_fields(ts, msg);
    logger::law_unreachable_rows_match_the_header(ts, msg);
    lemma_record(fields);
    logger::law_a_field_reads_back(msg);
}

proof fn lemma_pin_columns(n: nat)
    ensures
        logger::pin_columns(n).len() == 2 * n,
        forall|k: int|
            0 <= k < n ==> #[trigger] logger::pin_columns(n)[2 * k] == "p"@ + text::decimal(
                (k + 1) as nat,
            ) + "_V"@,
        forall|k: int|
            0 <= k < n ==> #[trigger] logger::pin_columns(n)[2 * k + 1] == "p"@ + text::decimal(
                (k + 1) as nat,
            ) + "_A"@,
    decreases n,
{
    if n > 0 {
        let before = logger::pin_columns((n - 1) as nat);
        let all = logger::pin_columns(n);
        lemma_pin_columns((n - 1) as nat);
        assert forall|k: int| 0 <= k < n implies #[trigger] all[2 * k] == "p"@ + text::decimal(
            (k + 1) as nat,
        ) + "_V"@ by {
            if k < n - 1 {
                assert(all[2 * k] == before[2 * k]);
            }
        }
        assert forall|k: int| 0 <= k < n implies #[trigger] all[2 * k + 1] == "p"@ + text::decimal(
            (k + 1) as nat,
        ) + "_A"@ by {
            if k < n - 1 {
                assert(all[2 * k + 1] == before[2 * k + 1]);
            }
        }
    }
}

/// The names of the columns: the timestamp, `p1_V`, `p1_A` and so on up to the sixth pin, the
/// totals, the ratio and the alerts.
pub proof fn law_the_columns_are_named(n: int)
    requires
        1 <= n <= 6,
    ensures
        logger::columns().len() == 17,
        logger::columns()[0] == "timestamp"@,
        logger::columns()[2 * n - 1] == seq!['p', (48 + n) as char, '_', 'V'],
        logger::columns()[2 * n] == seq!['p', (48 + n) as char, '_', 'A'],
        logger::columns()[13] == "total_A"@,
        logger::columns()[14] == "total_W"@,
        logger::columns()[15] == "balance"@,
        logger::columns()[16] == "alerts"@,
{
    lemma_pin_columns(6);
    let all = logger::columns();
    let pins = logger::pin_columns(6);
    assert(all[2 * n - 1] == pins[2 * (n - 1)]);
    assert(all[2 * n] == pins[2 * (n - 1) + 1]);
    reveal_strlit("p");
    reveal_strlit("_V");
    reveal_strlit("_A");
    assert(text::decimal(n as nat) =~= seq![(48 + n) as char]);
    assert("p"@ + text::decimal(n as nat) + "_V"@ =~= seq!['p', (48 + n) as char, '_', 'V']);
    assert("p"@ + text::decimal(n as nat) + "_A"@ =~= seq!['p', (48 + n) as char, '_', 'A']);
}

// ---------------------------------------------------------------- the file

/// The count after so many rows of a new log.
pub open spec fn count_after(n: nat) -> int
    decreases n,
{
    if n == 0 {
        0
    } else {
        logger::row_counted(count_after((n - 1) as nat) as u64)
    }
}

/// The size of the file is looked at after every twentieth row, where there is a size to keep to,
/// and never otherwise.
pub proof fn law_every_twentieth_row_looks_at_the_size(n: nat, max_bytes: u64)
    requires
        n > 0,
    ensures
        logger::look_due(max_bytes, count_after(n)) <==> max_bytes > 0 && n % 20 == 0,
{
    lemma_count(n);
}

proof fn lemma_count(n: nat)
    ensures
        count_after(n) == n % 20,
    decreases n,
{
    if n > 0 {
        lemma_count((n - 1) as nat);
    }
}

/// A file is rotated once it is larger than allowed, and not before.
pub proof fn law_when_a_file_is_outgrown(size: u64, max_bytes: u64)
    ensures
        size <= max_bytes ==> !logger::is_outgrown(size, max_bytes),
        size > max_bytes ==> logger::is_outgrown(size, max_bytes),
{
}

/// The header is written into a file that is new or empty, and never behind rows.
pub proof fn law_when_the_header_is_written(size: Option<u64>)
    ensures
        logger::begins_with_header(None),
        logger::begins_with_header(Some(0)),
        size is Some && size->0 > 0 ==> !logger::begins_with_header(size),
{
}

} // verus!
