//! CSV logging with self-contained size-based rotation.

use crate::alert;
use crate::alert::{Alert, AlertView};
use crate::decode;
use crate::decode::{Pin, Reading};
use crate::double;
use crate::double::Number;
use crate::text;
use crate::text::{chars_of, decimal_text, has_char, join, text_of};
use vstd::prelude::*;

verus! {

/// How many rows are written between two looks at the size of the file.
pub const ROWS_PER_CHECK: u64 = 20;

// ---------------------------------------------------------------- fields

/// Every quotation mark twice.
pub open spec fn doubled(s: Seq<char>) -> Seq<char>
    decreases s.len(),
{
    if s.len() == 0 {
        seq![]
    } else if s[0] == '"' {
        seq!['"', '"'] + doubled(s.drop_first())
    } else {
        seq![s[0]] + doubled(s.drop_first())
    }
}

/// Whether a text cannot stand in a record as it is.
pub open spec fn needs_quotes(s: Seq<char>) -> bool {
    s.contains(',') || s.contains('"') || s.contains('\r') || s.contains('\n')
}

/// A text as a field of a record (RFC 4180): quoted where it has to be.
pub open spec fn field(s: Seq<char>) -> Seq<char> {
    if needs_quotes(s) {
        seq!['"'] + doubled(s) + seq!['"']
    } else {
        s
    }
}

/// A text as a field of a record.
pub fn field_text(s: &str) -> (out: String)
    ensures
        out@ == field(s@),
{
    let v = chars_of(s);
    if !(has_char(&v, ',') || has_char(&v, '"') || has_char(&v, '\r') || has_char(&v, '\n')) {
        return s.to_owned();
    }
    let mut out: Vec<char> = Vec::new();
    out.push('"');
    let mut i: usize = 0;
    assert(v@.skip(0) =~= v@);
    while i < v.len()
        invariant
            i <= v.len(),
            out@ + doubled(v@.skip(i as int)) =~= seq!['"'] + doubled(v@),
        decreases v.len() - i,
    {
        let ghost had = out@;
        let ghost rest = v@.skip(i as int);
        assert(rest[0] == v@[i as int]);
        assert(rest.drop_first() =~= v@.skip(i + 1));
        if v[i] == '"' {
            out.push('"');
            out.push('"');
            assert(out@ =~= had + seq!['"', '"']);
        } else {
            out.push(v[i]);
            assert(out@ =~= had + seq![rest[0]]);
        }
        i = i + 1;
    }
    assert(v@.skip(v@.len() as int) =~= seq![]);
    assert(out@ =~= seq!['"'] + doubled(v@));
    out.push('"');
    text_of(&out)
}

// ---------------------------------------------------------------- rows

/// The voltage and current columns of the first `n` pins.
pub open spec fn pin_columns(n: nat) -> Seq<Seq<char>>
    decreases n,
{
    if n == 0 {
        seq![]
    } else {
        pin_columns((n - 1) as nat).push("p"@ + text::decimal(n) + "_V"@).push(
            "p"@ + text::decimal(n) + "_A"@,
        )
    }
}

/// The names of the columns.
pub open spec fn columns() -> Seq<Seq<char>> {
    (seq!["timestamp"@] + pin_columns(6)).push("total_A"@).push("total_W"@).push("balance"@).push(
        "alerts"@,
    )
}

/// A record: its fields with commas between them, and the end of the line.
pub open spec fn record(fields: Seq<Seq<char>>) -> Seq<char> {
    text::joined(fields, ","@) + "\n"@
}

/// The voltage and current fields of the first `n` pins.
pub open spec fn pin_fields(pins: Seq<Pin>, n: nat) -> Seq<Seq<char>>
    decreases n,
{
    if n == 0 {
        seq![]
    } else {
        pin_fields(pins, (n - 1) as nat).push(
            double::fixed(double::thousandths(pins[n - 1].millivolts as nat), 3),
        ).push(double::fixed(double::thousandths(pins[n - 1].milliamps as nat), 3))
    }
}

/// The balance field: empty when there is no ratio.
pub open spec fn balance_field(pins: Seq<Pin>) -> Seq<char> {
    match decode::balance(pins) {
        Some(r) => double::fixed(r, 3),
        None => seq![],
    }
}

/// The alerts of a sample in words.
pub open spec fn alert_texts(alerts: Seq<AlertView>) -> Seq<Seq<char>> {
    alerts.map_values(|a: AlertView| alert::alert_text(a))
}

/// The fields of a sample.
pub open spec fn sample_fields(ts: Seq<char>, pins: Seq<Pin>, alerts: Seq<AlertView>) -> Seq<
    Seq<char>,
> {
    (seq![ts] + pin_fields(pins, 6)).push(double::fixed(decode::total_amps(pins), 3)).push(
        double::fixed(decode::total_watts(pins), 0),
    ).push(balance_field(pins)).push(field(text::joined(alert_texts(alerts), ";"@)))
}

/// The fields of a sample that could not be taken: only the first and the last are filled.
pub open spec fn unreachable_fields(ts: Seq<char>, msg: Seq<char>) -> Seq<Seq<char>> {
    (seq![ts] + Seq::new(15, |i: int| Seq::<char>::empty())).push(field(msg))
}

fn line_of(fields: &Vec<String>) -> (row: String)
    ensures
        row@ == record(text::views(fields@)),
{
    let mut row = join(fields, ",");
    row.append("\n");
    row
}

/// The first line of a log.
pub fn header() -> (h: String)
    ensures
        h@ == record(columns()),
{
    let mut v: Vec<String> = Vec::new();
    v.push("timestamp".to_owned());
    let mut i: usize = 0;
    assert(text::views(v@) =~= seq!["timestamp"@] + pin_columns(0));
    while i < 6
        invariant
            i <= 6,
            text::views(v@) == seq!["timestamp"@] + pin_columns(i as nat),
        decreases 6 - i,
    {
        let ghost had = text::views(v@);
        i = i + 1;
        let mut volts = "p".to_owned();
        volts.append(decimal_text(i as u128).as_str());
        volts.append("_V");
        let mut amps = "p".to_owned();
        amps.append(decimal_text(i as u128).as_str());
        amps.append("_A");
        let ghost a = volts@;
        let ghost b = amps@;
        v.push(volts);
        v.push(amps);
        assert(text::views(v@) =~= had.push(a).push(b));
        assert(had.push(a).push(b) =~= seq!["timestamp"@] + pin_columns(i as nat));
    }
    v.push("total_A".to_owned());
    v.push("total_W".to_owned());
    v.push("balance".to_owned());
    v.push("alerts".to_owned());
    assert(text::views(v@) =~= columns());
    line_of(&v)
}

fn alerts_field(alerts: &Vec<Alert>) -> (s: String)
    ensures
        s@ == field(text::joined(alert_texts(alert::alert_views(alerts@)), ";"@)),
{
    let ghost all = alert_texts(alert::alert_views(alerts@));
    let mut texts: Vec<String> = Vec::new();
    let mut i: usize = 0;
    assert(text::views(texts@) =~= all.take(0));
    while i < alerts.len()
        invariant
            i <= alerts.len(),
            all == alert_texts(alert::alert_views(alerts@)),
            text::views(texts@) == all.take(i as int),
        decreases alerts.len() - i,
    {
        let ghost had = text::views(texts@);
        let t = alerts[i].to_string();
        let ghost said = t@;
        texts.push(t);
        assert(text::views(texts@) =~= had.push(said));
        assert(all[i as int] == said);
        assert(all.take(i + 1) =~= had.push(said));
        i = i + 1;
    }
    assert(all.take(all.len() as int) =~= all);
    field_text(join(&texts, ";").as_str())
}

/// The row of one decoded sample plus any alerts.
pub fn sample_row(ts: &str, r: &Reading, alerts: &Vec<Alert>) -> (row: String)
    ensures
        row@ == record(sample_fields(ts@, r.pins@, alert::alert_views(alerts@))),
{
    let mut v: Vec<String> = Vec::new();
    v.push(ts.to_owned());
    let mut i: usize = 0;
    assert(text::views(v@) =~= seq![ts@] + pin_fields(r.pins@, 0));
    while i < 6
        invariant
            i <= 6,
            text::views(v@) == seq![ts@] + pin_fields(r.pins@, i as nat),
        decreases 6 - i,
    {
        let ghost had = text::views(v@);
        let volts = Number::thousandths(r.pins[i].millivolts as u64).fixed(3);
        let amps = Number::thousandths(r.pins[i].milliamps as u64).fixed(3);
        let ghost a = volts@;
        let ghost b = amps@;
        v.push(volts);
        v.push(amps);
        i = i + 1;
        assert(text::views(v@) =~= had.push(a).push(b));
        assert(had.push(a).push(b) =~= seq![ts@] + pin_fields(r.pins@, i as nat));
    }
    let ghost had = text::views(v@);
    let total = r.total_amps().fixed(3);
    let watts = r.total_watts().fixed(0);
    let bal = match r.balance() {
        Some(b) => b.fixed(3),
        None => {
            proof {
                reveal_strlit("");
            }
            "".to_owned()
        },
    };
    assert(bal@ =~= balance_field(r.pins@));
    let al = alerts_field(alerts);
    let ghost a = total@;
    let ghost b = watts@;
    let ghost c = bal@;
    let ghost d = al@;
    v.push(total);
    v.push(watts);
    v.push(bal);
    v.push(al);
    assert(text::views(v@) =~= had.push(a).push(b).push(c).push(d));
    line_of(&v)
}

/// The row that records that the chip was unreachable (e.g. the GPU fell off the bus).
pub fn unreachable_row(ts: &str, msg: &str) -> (row: String)
    ensures
        row@ == record(unreachable_fields(ts@, msg@)),
{
    proof {
        reveal_strlit("");
    }
    let mut v: Vec<String> = Vec::new();
    v.push(ts.to_owned());
    let mut i: usize = 0;
    assert(text::views(v@) =~= seq![ts@] + Seq::new(0, |i: int| Seq::<char>::empty()));
    while i < 15
        invariant
            i <= 15,
            ""@ == Seq::<char>::empty(),
            text::views(v@) == seq![ts@] + Seq::new(i as nat, |i: int| Seq::<char>::empty()),
        decreases 15 - i,
    {
        let ghost had = text::views(v@);
        v.push("".to_owned());
        i = i + 1;
        assert(text::views(v@) =~= had.push(Seq::<char>::empty()));
        assert(had.push(Seq::<char>::empty()) =~= seq![ts@] + Seq::new(
            i as nat,
            |i: int| Seq::<char>::empty(),
        ));
    }
    let ghost had = text::views(v@);
    let f = field_text(msg);
    let ghost said = f@;
    v.push(f);
    assert(text::views(v@) =~= had.push(said));
    line_of(&v)
}

// ---------------------------------------------------------------- the log and its rotation

/// One step of a rotation. Backup `i` of `FILE` is `FILE.i`.
#[derive(Debug, Clone, Copy, PartialEq, Eq, Structural)]
pub enum FileStep {
    /// Delete this backup.
    Remove(u32),
    /// Rename this backup to the next one, if it exists.
    Shift(u32),
    /// Rename the live file to the first backup.
    Retire,
    /// Delete the live file.
    Discard,
}

/// The steps of a rotation that keeps `keep` backups. After them a new file with a header is
/// begun.
pub open spec fn rotation(keep: u32) -> Seq<FileStep> {
    if keep == 0 {
        seq![FileStep::Discard]
    } else {
        (seq![FileStep::Remove(keep)] + shifts(keep)).push(FileStep::Retire)
    }
}

/// Every backup but the last moves up one, the oldest first.
pub open spec fn shifts(keep: u32) -> Seq<FileStep> {
    Seq::new((keep - 1) as nat, |k: int| FileStep::Shift((keep - 1 - k) as u32))
}

/// Appends per-sample rows to a CSV, rotating to `FILE.1 .. FILE.keep` once it passes
/// `max_bytes`.
#[derive(Debug, Clone, Copy, PartialEq, Eq, Structural)]
pub struct CsvLogger {
    max_bytes: u64,
    keep: u32,
    rows: u64,
}

/// The count of rows once another was written.
pub open spec fn row_counted(rows: u64) -> int {
    (rows + 1) % (ROWS_PER_CHECK as int)
}

/// Whether the size of a file is due for a look with so many rows counted.
pub open spec fn look_due(max_bytes: u64, rows: int) -> bool {
    max_bytes > 0 && rows == 0
}

/// Whether a file of this size is to be rotated.
pub open spec fn is_outgrown(size: u64, max_bytes: u64) -> bool {
    size > max_bytes
}

/// Whether a log begins with its header: where the file holds nothing yet.
pub open spec fn begins_with_header(size: Option<u64>) -> bool {
    size is None || size->0 == 0
}

impl CsvLogger {
    /// The size beyond which the file is rotated; zero for never.
    pub closed spec fn max_bytes(&self) -> u64 {
        self.max_bytes
    }

    /// How many backups are kept.
    pub closed spec fn keep(&self) -> u32 {
        self.keep
    }

    /// How many rows were written since the size was last due for a look.
    pub closed spec fn rows(&self) -> u64 {
        self.rows
    }

    /// The count of rows is below the number between two looks.
    pub closed spec fn wf(&self) -> bool {
        self.rows < ROWS_PER_CHECK
    }

    /// Begin logging to a file of the given size (`None` when it does not exist). The second
    /// part is what to write first: the header, when the file holds nothing yet.
    pub fn open(size: Option<u64>, max_bytes: u64, keep: u32) -> (r: (CsvLogger, Option<String>))
        ensures
            r.0.wf(),
            r.0.max_bytes() == max_bytes,
            r.0.keep() == keep,
            r.0.rows() == 0,
            match r.1 {
                Some(h) => (size is None || size == Some(0u64)) && h@ == record(columns()),
                None => size is Some && size->0 > 0,
            },
            r.1 is Some <==> begins_with_header(size),
    {
        let log = CsvLogger { max_bytes, keep, rows: 0 };
        match size {
            Some(n) => {
                if n > 0 {
                    (log, None)
                } else {
                    (log, Some(header()))
                }
            },
            None => (log, Some(header())),
        }
    }

    /// The row of one decoded sample plus any alerts.
    pub fn log(&self, ts: &str, r: &Reading, alerts: &Vec<Alert>) -> (row: String)
        ensures
            row@ == record(sample_fields(ts@, r.pins@, alert::alert_views(alerts@))),
    {
        sample_row(ts, r, alerts)
    }

    /// The row that records that the chip was unreachable.
    pub fn log_unreachable(&self, ts: &str, msg: &str) -> (row: String)
        ensures
            row@ == record(unreachable_fields(ts@, msg@)),
    {
        unreachable_row(ts, msg)
    }

    /// A row was written and flushed; true when the size of the file is due for a look.
    pub fn wrote(&mut self) -> (look: bool)
        requires
            old(self).wf(),
        ensures
            final(self).wf(),
            final(self).max_bytes() == old(self).max_bytes(),
            final(self).keep() == old(self).keep(),
            final(self).rows() == (old(self).rows() + 1) % (ROWS_PER_CHECK as int),
            look == (old(self).max_bytes() > 0 && final(self).rows() == 0),
            final(self).rows() == row_counted(old(self).rows()),
            look == look_due(old(self).max_bytes(), row_counted(old(self).rows())),
    {
        self.rows = (self.rows + 1) % ROWS_PER_CHECK;
        self.max_bytes > 0 && self.rows == 0
    }

    /// Whether a file of this size is to be rotated.
    pub fn outgrown(&self, size: u64) -> (r: bool)
        ensures
            r == (size > self.max_bytes()),
            r == is_outgrown(size, self.max_bytes()),
    {
        size > self.max_bytes
    }

    /// Step `k` of a rotation, while there is one.
    pub fn rotate(&self, k: u32) -> (step: Option<FileStep>)
        ensures
            match step {
                Some(s) => k < rotation(self.keep()).len() && s == rotation(self.keep())[k as int],
                None => k >= rotation(self.keep()).len(),
            },
    {
        if self.keep == 0 {
            if k == 0 {
                Some(FileStep::Discard)
            } else {
                None
            }
        } else if k == 0 {
            Some(FileStep::Remove(self.keep))
        } else if k < self.keep {
            Some(FileStep::Shift(self.keep - k))
        } else if k == self.keep {
            Some(FileStep::Retire)
        } else {
            None
        }
    }
}

/// The name of a backup.
pub fn backup_name(path: &str, i: u32) -> (s: String)
    ensures
        s@ == path@ + "."@ + text::decimal(i as nat),
{
    let mut s = path.to_owned();
    s.append(".");
    s.append(decimal_text(i as u128).as_str());
    s
}

// ---------------------------------------------------------------- laws of the record

/// The fields of a record as a reader splits them: commas part them except between quotation
/// marks. `inside` says whether the text begins between quotation marks.
pub open spec fn split_fields(s: Seq<char>, inside: bool) -> Seq<Seq<char>>
    decreases s.len(),
{
    if s.len() == 0 {
        seq![seq![]]
    } else if s[0] == ',' && !inside {
        seq![Seq::<char>::empty()] + split_fields(s.drop_first(), false)
    } else {
        let rest = split_fields(s.drop_first(), if s[0] == '"' { !inside } else { inside });
        rest.update(0, seq![s[0]] + rest[0])
    }
}

/// Whether a text ends between quotation marks.
pub open spec fn ends_inside(s: Seq<char>, inside: bool) -> bool
    decreases s.len(),
{
    if s.len() == 0 {
        inside
    } else {
        ends_inside(s.drop_first(), if s[0] == '"' { !inside } else { inside })
    }
}

/// Whether a text is read as one field, whatever follows it.
pub open spec fn sealed(f: Seq<char>) -> bool {
    split_fields(f, false) == seq![f] && !ends_inside(f, false)
}

proof fn lemma_split_nonempty(s: Seq<char>, inside: bool)
    ensures
        split_fields(s, inside).len() >= 1,
    decreases s.len(),
{
    if s.len() > 0 {
        lemma_split_nonempty(s.drop_first(), if s[0] == '"' { !inside } else { inside });
        lemma_split_nonempty(s.drop_first(), false);
    }
}

/// A text read as one field joins what follows onto its end.
proof fn lemma_split_after(a: Seq<char>, b: Seq<char>, inside: bool)
    requires
        split_fields(a, inside) == seq![a],
    ensures
        split_fields(a + b, inside) == split_fields(b, ends_inside(a, inside)).update(
            0,
            a + split_fields(b, ends_inside(a, inside))[0],
        ),
    decreases a.len(),
{
    let then = split_fields(b, ends_inside(a, inside));
    lemma_split_nonempty(b, ends_inside(a, inside));
    if a.len() == 0 {
        assert(a + b =~= b);
        assert(then.update(0, a + then[0]) =~= then) by {
            assert(a + then[0] =~= then[0]);
        }
    } else {
        let c = a[0];
        let now = if c == '"' { !inside } else { inside };
        let rest = a.drop_first();
        lemma_split_nonempty(rest, now);
        lemma_split_nonempty(rest, false);
        if c == ',' && !inside {
            assert(split_fields(a, inside).len() >= 2);
            assert(false);
        }
        let r = split_fields(rest, now);
        assert(split_fields(a, inside) == r.update(0, seq![c] + r[0]));
        assert(r.len() == 1);
        assert(r.update(0, seq![c] + r[0])[0] == a);
        assert((seq![c] + r[0]).drop_first() =~= r[0]);
        assert(r =~= seq![rest]);
        lemma_split_after(rest, b, now);
        assert((a + b)[0] == c);
        assert((a + b).drop_first() =~= rest + b);
        let t = split_fields(rest + b, now);
        assert(t == then.update(0, rest + then[0]));
        assert(split_fields(a + b, inside) == t.update(0, seq![c] + t[0]));
        assert(seq![c] + (rest + then[0]) =~= a + then[0]);
        assert(t.update(0, seq![c] + t[0]) =~= then.update(0, a + then[0]));
    }
}

proof fn lemma_ends_after(a: Seq<char>, b: Seq<char>, inside: bool)
    ensures
        ends_inside(a + b, inside) == ends_inside(b, ends_inside(a, inside)),
    decreases a.len(),
{
    if a.len() == 0 {
        assert(a + b =~= b);
    } else {
        assert((a + b).drop_first() =~= a.drop_first() + b);
        lemma_ends_after(
            a.drop_first(),
            b,
            if a[0] == '"' { !inside } else { inside },
        );
    }
}

proof fn lemma_plain_is_sealed(s: Seq<char>)
    requires
        !s.contains(','),
        !s.contains('"'),
    ensures
        sealed(s),
    decreases s.len(),
{
    if s.len() > 0 {
        let rest = s.drop_first();
        assert(s[0] != ',' && s[0] != '"');
        assert forall|i: int| 0 <= i < rest.len() implies rest[i] != ',' && rest[i] != '"' by {
            assert(rest[i] == s[i + 1]);
        }
        lemma_plain_is_sealed(rest);
        assert(seq![s[0]] + rest =~= s);
        assert(split_fields(s, false) =~= seq![s]);
    } else {
        assert(s =~= seq![]);
    }
}

proof fn lemma_doubled_stays_inside(s: Seq<char>)
    ensures
        split_fields(doubled(s), true) == seq![doubled(s)],
        ends_inside(doubled(s), true),
    decreases s.len(),
{
    if s.len() > 0 {
        let rest = doubled(s.drop_first());
        lemma_doubled_stays_inside(s.drop_first());
        let d = doubled(s);
        if s[0] == '"' {
            let one = d.drop_first();
            assert(d[0] == '"' && one[0] == '"');
            assert(one.drop_first() =~= rest);
            assert(ends_inside(one, false) == ends_inside(rest, true));
            assert(split_fields(one, false) =~= seq![one]) by {
                assert(seq!['"'] + rest =~= one);
            }
            assert(split_fields(d, true) =~= seq![d]) by {
                assert(seq!['"'] + one =~= d);
            }
        } else {
            assert(d.drop_first() =~= rest);
            assert(d[0] == s[0]);
            assert(split_fields(d, true) =~= seq![d]) by {
                assert(seq![s[0]] + rest =~= d);
            }
        }
    } else {
        assert(doubled(s) =~= seq![]);
    }
}

/// Whatever a text holds — commas, quotation marks, line ends — its field is read as one field.
pub proof fn law_a_field_never_breaks_the_columns(s: Seq<char>)
    ensures
        sealed(field(s)),
{
    if needs_quotes(s) {
        let d = doubled(s);
        let open = seq!['"'] + d;
        lemma_doubled_stays_inside(s);
        assert(open.drop_first() =~= d);
        assert(split_fields(open, false) =~= seq![open]) by {
            assert(seq!['"'] + d =~= open);
        }
        assert(ends_inside(open, false));
        let close = seq!['"'];
        assert(close.drop_first() =~= seq![]);
        assert(ends_inside(close, true) == ends_inside(Seq::<char>::empty(), false));
        assert(split_fields(close, true) =~= seq![close]) by {
            let rest = split_fields(Seq::<char>::empty(), false);
            assert(rest =~= seq![Seq::<char>::empty()]);
            assert(seq!['"'] + rest[0] =~= close);
        }
        lemma_split_after(open, close, false);
        lemma_ends_after(open, close, false);
        assert(split_fields(field(s), false) =~= seq![field(s)]);
    } else {
        lemma_plain_is_sealed(s);
    }
}

proof fn lemma_joined_splits(fields: Seq<Seq<char>>)
    requires
        fields.len() > 0,
        forall|i: int| 0 <= i < fields.len() ==> sealed(#[trigger] fields[i]),
    ensures
        split_fields(text::joined(fields, ","@), false) == fields,
        !ends_inside(text::joined(fields, ","@), false),
    decreases fields.len(),
{
    reveal_strlit(",");
    let sep = ","@;
    assert(sep =~= seq![',']);
    let last = fields.last();
    assert(sealed(fields[fields.len() - 1]));
    let front = fields.drop_last();
    if front.len() == 0 {
        assert(text::joined(fields, sep) == last);
        assert(fields =~= seq![last]);
    } else {
        assert forall|i: int| 0 <= i < front.len() implies sealed(#[trigger] front[i]) by {
            assert(front[i] == fields[i]);
        }
        lemma_joined_splits(front);
        let a = text::joined(front, sep);
        assert(text::joined(fields, sep) == a + sep + last);
        lemma_split_many(a, sep + last, false);
        assert(a + (sep + last) =~= a + sep + last);
        assert((sep + last).drop_first() =~= last);
        assert((sep + last)[0] == ',');
        let tail = split_fields(sep + last, false);
        assert(tail =~= seq![Seq::<char>::empty(), last]);
        assert(front.last() + tail[0] =~= front.last());
        assert(front.drop_last().push(front.last() + tail[0]) + tail.drop_first() =~= fields);
        lemma_ends_after(a, sep + last, false);
        lemma_ends_after(sep, last, false);
        assert(sep.drop_first() =~= seq![]);
        assert(!ends_inside(sep, false)) by {
            assert(ends_inside(sep, false) == ends_inside(sep.drop_first(), false));
        }
    }
}

/// What follows a text joins onto its last field.
proof fn lemma_split_many(a: Seq<char>, b: Seq<char>, inside: bool)
    ensures
        split_fields(a + b, inside) == split_fields(a, inside).drop_last().push(
            split_fields(a, inside).last() + split_fields(b, ends_inside(a, inside))[0],
        ) + split_fields(b, ends_inside(a, inside)).drop_first(),
    decreases a.len(),
{
    let then = split_fields(b, ends_inside(a, inside));
    lemma_split_nonempty(b, ends_inside(a, inside));
    if a.len() == 0 {
        assert(a + b =~= b);
        let fa = split_fields(a, inside);
        assert(fa.last() + then[0] =~= then[0]);
        assert(fa.drop_last().push(fa.last() + then[0]) + then.drop_first() =~= then);
    } else {
        let c = a[0];
        let rest = a.drop_first();
        assert((a + b)[0] == c);
        assert((a + b).drop_first() =~= rest + b);
        if c == ',' && !inside {
            lemma_split_many(rest, b, false);
            lemma_split_nonempty(rest, false);
            let fr = split_fields(rest, false);
            let fa = split_fields(a, inside);
            assert(fa == seq![Seq::<char>::empty()] + fr);
            assert(fa.last() == fr.last());
            assert(fa.drop_last() =~= seq![Seq::<char>::empty()] + fr.drop_last());
            assert(fa.drop_last().push(fa.last() + then[0]) + then.drop_first() =~= seq![
                Seq::<char>::empty(),
            ] + (fr.drop_last().push(fr.last() + then[0]) + then.drop_first()));
        } else {
            let now = if c == '"' { !inside } else { inside };
            lemma_split_many(rest, b, now);
            lemma_split_nonempty(rest, now);
            let fr = split_fields(rest, now);
            let fa = split_fields(a, inside);
            assert(fa == fr.update(0, seq![c] + fr[0]));
            let whole = fr.drop_last().push(fr.last() + then[0]) + then.drop_first();
            assert(split_fields(a + b, inside) == whole.update(0, seq![c] + whole[0]));
            if fr.len() == 1 {
                assert(whole[0] == fr[0] + then[0]);
                assert(seq![c] + (fr[0] + then[0]) =~= (seq![c] + fr[0]) + then[0]);
            } else {
                assert(whole[0] == fr[0]);
                assert(fa.last() == fr.last());
            }
            assert(whole.update(0, seq![c] + whole[0]) =~= fa.drop_last().push(
                fa.last() + then[0],
            ) + then.drop_first());
        }
    }
}

proof fn lemma_number_is_sealed(n: Number, places: nat)
    ensures
        sealed(double::fixed(n, places)),
{
    double::lemma_number_numeral(n, places);
    assert(!double::is_numeral(',') && !double::is_numeral('"'));
    lemma_plain_is_sealed(double::fixed(n, places));
}

proof fn lemma_pin_fields_are_sealed(pins: Seq<Pin>, n: nat)
    ensures
        pin_fields(pins, n).len() == 2 * n,
        forall|i: int| 0 <= i < 2 * n ==> sealed(#[trigger] pin_fields(pins, n)[i]),
    decreases n,
{
    if n > 0 {
        lemma_pin_fields_are_sealed(pins, (n - 1) as nat);
        lemma_number_is_sealed(double::thousandths(pins[n - 1].millivolts as nat), 3);
        lemma_number_is_sealed(double::thousandths(pins[n - 1].milliamps as nat), 3);
        let s = pin_fields(pins, n);
        let before = pin_fields(pins, (n - 1) as nat);
        assert forall|i: int| 0 <= i < 2 * n implies sealed(#[trigger] s[i]) by {
            if i < 2 * n - 2 {
                assert(s[i] == before[i]);
            }
        }
    }
}

proof fn lemma_pin_columns(n: nat)
    ensures
        pin_columns(n).len() == 2 * n,
    decreases n,
{
    if n > 0 {
        lemma_pin_columns((n - 1) as nat);
    }
}

/// A row is read back as it was written: a timestamp without commas and quotation marks, and any
/// alert texts whatsoever, give a record of exactly as many fields as the header has columns,
/// with each field in its own column.
pub proof fn law_rows_match_the_header(ts: Seq<char>, pins: Seq<Pin>, alerts: Seq<AlertView>)
    requires
        !ts.contains(','),
        !ts.contains('"'),
    ensures
        sample_fields(ts, pins, alerts).len() == columns().len(),
        columns().len() == 17,
        record(sample_fields(ts, pins, alerts)) == text::joined(
            sample_fields(ts, pins, alerts),
            ","@,
        ) + "\n"@,
        split_fields(text::joined(sample_fields(ts, pins, alerts), ","@), false)
            == sample_fields(ts, pins, alerts),
{
    lemma_pin_columns(6);
    lemma_pin_fields_are_sealed(pins, 6);
    lemma_plain_is_sealed(ts);
    lemma_number_is_sealed(decode::total_amps(pins), 3);
    lemma_number_is_sealed(decode::total_watts(pins), 0);
    match decode::balance(pins) {
        Some(r) => {
            lemma_number_is_sealed(r, 3);
        },
        None => {
            lemma_plain_is_sealed(balance_field(pins));
        },
    }
    law_a_field_never_breaks_the_columns(text::joined(alert_texts(alerts), ";"@));
    let f = sample_fields(ts, pins, alerts);
    let p = pin_fields(pins, 6);
    assert forall|i: int| 0 <= i < f.len() implies sealed(#[trigger] f[i]) by {
        if 1 <= i < 13 {
            assert(f[i] == p[i - 1]);
        }
    }
    lemma_joined_splits(f);
}

/// A row that records a loss has the same columns.
pub proof fn law_unreachable_rows_match_the_header(ts: Seq<char>, msg: Seq<char>)
    requires
        !ts.contains(','),
        !ts.contains('"'),
    ensures
        unreachable_fields(ts, msg).len() == columns().len(),
        split_fields(text::joined(unreachable_fields(ts, msg), ","@), false)
            == unreachable_fields(ts, msg),
{
    lemma_pin_columns(6);
    lemma_plain_is_sealed(ts);
    lemma_plain_is_sealed(seq![]);
    law_a_field_never_breaks_the_columns(msg);
    lemma_joined_splits(unreachable_fields(ts, msg));
}

/// The text of a field, as a reader takes it out of its quotation marks.
pub open spec fn unquoted(f: Seq<char>) -> Seq<char> {
    if f.len() >= 2 && f[0] == '"' {
        undoubled(f.subrange(1, f.len() - 1))
    } else {
        f
    }
}

/// Every two quotation marks become one.
pub open spec fn undoubled(s: Seq<char>) -> Seq<char>
    decreases s.len(),
{
    if s.len() == 0 {
        seq![]
    } else if s.len() >= 2 && s[0] == '"' && s[1] == '"' {
        seq!['"'] + undoubled(s.skip(2))
    } else {
        seq![s[0]] + undoubled(s.drop_first())
    }
}

proof fn lemma_undoubled(s: Seq<char>)
    ensures
        undoubled(doubled(s)) == s,
    decreases s.len(),
{
    if s.len() > 0 {
        lemma_undoubled(s.drop_first());
        let d = doubled(s);
        let rest = doubled(s.drop_first());
        if s[0] == '"' {
            assert(d.skip(2) =~= rest);
        } else {
            assert(d[0] == s[0]);
            assert(d.drop_first() =~= rest);
        }
        assert(seq![s[0]] + s.drop_first() =~= s);
    } else {
        assert(doubled(s) =~= seq![]);
        assert(s =~= seq![]);
    }
}

/// Quoting loses nothing: reading a field gives back the text it was made of.
pub proof fn law_a_field_reads_back(s: Seq<char>)
    ensures
        unquoted(field(s)) == s,
{
    if needs_quotes(s) {
        lemma_undoubled(s);
        let f = field(s);
        assert(f.subrange(1, f.len() - 1) =~= doubled(s));
    } else if s.len() >= 2 {
        assert(s[0] != '"');
    }
}

// ---------------------------------------------------------------- laws of the rotation

/// The files of a log — the live one under zero, backup `i` under `i` — after one step.
pub open spec fn after_step<A>(files: Map<int, A>, step: FileStep) -> Map<int, A> {
    match step {
        FileStep::Remove(i) => files.remove(i as int),
        FileStep::Shift(i) => if files.contains_key(i as int) {
            files.remove(i as int).insert(i + 1, files[i as int])
        } else {
            files
        },
        FileStep::Retire => if files.contains_key(0) {
            files.remove(0).insert(1, files[0])
        } else {
            files
        },
        FileStep::Discard => files.remove(0),
    }
}

/// The files after several steps.
pub open spec fn after_steps<A>(files: Map<int, A>, steps: Seq<FileStep>) -> Map<int, A>
    decreases steps.len(),
{
    if steps.len() == 0 {
        files
    } else {
        after_step(after_steps(files, steps.drop_last()), steps.last())
    }
}

/// The files after the oldest backup was deleted and the `k` oldest of the others moved up.
spec fn moved<A>(files: Map<int, A>, keep: int, k: int) -> Map<int, A> {
    Map::new(
        |i: int|
            if i <= keep - 1 - k || i > keep {
                files.contains_key(i)
            } else {
                keep - k < i && files.contains_key(i - 1)
            },
        |i: int|
            if i <= keep - 1 - k || i > keep {
                files[i]
            } else {
                files[i - 1]
            },
    )
}

proof fn lemma_shifts<A>(files: Map<int, A>, keep: u32, k: int)
    requires
        keep >= 1,
        0 <= k <= keep - 1,
    ensures
        after_steps(files, seq![FileStep::Remove(keep)] + shifts(keep).take(k)) == moved(
            files,
            keep as int,
            k,
        ),
    decreases k,
{
    let steps = seq![FileStep::Remove(keep)] + shifts(keep).take(k);
    if k == 0 {
        assert(steps.drop_last() =~= seq![]);
        assert(after_steps(files, steps.drop_last()) == files);
        assert(steps.last() == FileStep::Remove(keep));
        assert(files.remove(keep as int) =~= moved(files, keep as int, 0));
    } else {
        lemma_shifts(files, keep, k - 1);
        assert(steps.drop_last() =~= seq![FileStep::Remove(keep)] + shifts(keep).take(k - 1));
        let i = (keep - k) as u32;
        assert(steps.last() == FileStep::Shift(i));
        let before = moved(files, keep as int, k - 1);
        assert(after_step(before, FileStep::Shift(i)) =~= moved(files, keep as int, k));
    }
}

/// Where a file stands before a rotation that ends under `i`: the live file and the backups that
/// are kept move up one, and files beyond them stay.
pub open spec fn comes_from(keep: u32, i: int) -> int {
    if 1 <= i <= keep {
        i - 1
    } else {
        i
    }
}

/// A rotation that keeps backups moves every file up one — the live file becomes the first
/// backup, backup `i` becomes backup `i + 1` — and drops only the oldest; nothing is lost before
/// its turn. Files beyond the backups that are kept are left alone.
pub proof fn law_rotation_keeps_the_newest<A>(files: Map<int, A>, keep: u32)
    requires
        keep >= 1,
    ensures
        ({
            let after = after_steps(files, rotation(keep));
            &&& forall|i: int|
                #[trigger] after.contains_key(i) <==> i != 0 && files.contains_key(
                    comes_from(keep, i),
                )
            &&& forall|i: int| #[trigger]
                after.contains_key(i) ==> after[i] == files[comes_from(keep, i)]
        }),
{
    lemma_shifts(files, keep, keep - 1);
    let steps = rotation(keep);
    assert(shifts(keep).take(keep - 1) =~= shifts(keep));
    assert(steps.drop_last() =~= seq![FileStep::Remove(keep)] + shifts(keep));
    let before = moved(files, keep as int, keep - 1);
    assert(after_steps(files, steps) == after_step(before, FileStep::Retire));
}

/// A rotation that keeps no backups leaves none: the live file is dropped and nothing else is
/// touched.
pub proof fn law_keeping_none_leaves_no_backup<A>(files: Map<int, A>)
    ensures
        after_steps(files, rotation(0)) == files.remove(0),
{
    let steps = rotation(0);
    assert(steps.drop_last() =~= seq![]);
    assert(after_steps(files, steps.drop_last()) == files);
}

} // verus!
