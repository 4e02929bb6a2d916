//! CSV export of samples: `t_seconds,current_ua,d0..d7`.

use vstd::prelude::*;

use crate::ieee::Double;
use crate::samples::Sample;
use crate::trigger::pin_is_high;

verus! {

/// The first line of an export.
pub open spec fn header() -> Seq<char> {
    "t_seconds,current_ua,d0,d1,d2,d3,d4,d5,d6,d7\n"@
}

/// The first line of an export.
pub fn csv_header() -> (r: String)
    ensures
        r@ == header(),
{
    "t_seconds,current_ua,d0,d1,d2,d3,d4,d5,d6,d7\n".to_owned()
}

/// The column of pin `i`: `1` where it is high and `0` where it is low.
pub open spec fn pin_column(pins: u8, i: int) -> Seq<char> {
    if crate::trigger::pin_high(pins, i) {
        ",1"@
    } else {
        ",0"@
    }
}

/// The columns of the first `n` pins.
pub open spec fn pin_columns(pins: u8, n: nat) -> Seq<char>
    decreases n,
{
    if n == 0 {
        Seq::empty()
    } else {
        pin_columns(pins, (n - 1) as nat) + pin_column(pins, n - 1)
    }
}

/// The line of one sample, with its time and its current as text.
pub open spec fn row(t_seconds: Seq<char>, current_ua: Seq<char>, pins: u8) -> Seq<char> {
    t_seconds + ","@ + current_ua + pin_columns(pins, 8) + "\n"@
}

/// The line of one sample. `t_seconds` and `current_ua` are its time and its current
/// as text; the state of the pins takes one column each.
pub fn csv_row(t_seconds: &str, current_ua: &str, pins: u8) -> (r: String)
    ensures
        r@ == row(t_seconds@, current_ua@, pins),
{
    let mut s = t_seconds.to_owned();
    s.append(",");
    s.append(current_ua);
    let ghost start = s@;
    let mut i: usize = 0;
    assert(start + pin_columns(pins, 0) =~= start);
    while i < 8
        invariant
            i <= 8,
            s@ == start + pin_columns(pins, i as nat),
        decreases 8 - i,
    {
        let ghost before = pin_columns(pins, i as nat);
        if pin_is_high(pins, i) {
            s.append(",1");
        } else {
            s.append(",0");
        }
        assert(start + before + pin_column(pins, i as int) =~= start + (before + pin_column(
            pins,
            i as int,
        )));
        i = i + 1;
    }
    s.append("\n");
    s
}

/// One line of an export: time and current as text, and the pins.
pub type Row = (Seq<char>, Seq<char>, u8);

/// An export of these rows: the first line, and then one line per row, in order.
pub open spec fn csv_text(rows: Seq<Row>) -> Seq<char>
    decreases rows.len(),
{
    if rows.len() == 0 {
        header()
    } else {
        let (t_seconds, current_ua, pins) = rows.last();
        csv_text(rows.drop_last()) + row(t_seconds, current_ua, pins)
    }
}

/// The seconds between two samples; none without a rate.
pub open spec fn interval(sps: usize) -> Double {
    if sps > 0 {
        crate::arith::over(crate::arith::whole(1), crate::arith::whole(sps as nat))
    } else {
        Double { bits: 0 }
    }
}

/// The time of sample `i` in seconds.
pub open spec fn sample_time(i: nat, sps: usize) -> Double {
    crate::arith::times(crate::arith::whole(i), interval(sps))
}

/// An export under way, as contracts see it.
pub struct ExportView {
    /// Samples per second.
    pub sps: usize,
    /// The samples to write, oldest first.
    pub samples: Seq<Sample>,
    /// The rows written so far.
    pub rows: Seq<Row>,
    /// The text written so far.
    pub text: Seq<char>,
}

impl ExportView {
    /// What was written is the export of the first samples: the text is that of the rows,
    /// and the row of each sample has its pins.
    pub open spec fn wf(self) -> bool {
        &&& self.text == csv_text(self.rows)
        &&& self.rows.len() <= self.samples.len()
        &&& forall|i: int|
            0 <= i < self.rows.len() ==> (#[trigger] self.rows[i]).2 == self.samples[i].pins
    }

    /// The export after one more line, that of the first sample not yet written.
    pub open spec fn written(self, t_seconds: Seq<char>, current_ua: Seq<char>) -> ExportView {
        let pins = self.samples[self.rows.len() as int].pins;
        ExportView {
            rows: self.rows.push((t_seconds, current_ua, pins)),
            text: self.text + row(t_seconds, current_ua, pins),
            ..self
        }
    }

    /// Whether every sample has been written.
    pub open spec fn complete(self) -> bool {
        self.rows.len() == self.samples.len()
    }
}

/// An export under way. It hands out the text piece by piece, so that a long export need
/// not be held in memory.
pub struct CsvExport {
    interval: Double,
    sps: usize,
    samples: Vec<Sample>,
    next: usize,
    rows: Ghost<Seq<Row>>,
}

impl View for CsvExport {
    type V = ExportView;

    closed spec fn view(&self) -> ExportView {
        ExportView {
            sps: self.sps,
            samples: self.samples@,
            rows: self.rows@,
            text: csv_text(self.rows@),
        }
    }
}

impl CsvExport {
    /// The position agrees with what was written.
    pub closed spec fn wf(&self) -> bool {
        &&& self.next == self.rows@.len()
        &&& self.interval == interval(self.sps)
        &&& self@.wf()
    }

    /// Begin to export samples at a rate. The text returned is the first line.
    pub fn begin(sps: usize, samples: Vec<Sample>) -> (r: (CsvExport, String))
        ensures
            r.0.wf(),
            r.0@.wf(),
            r.0@ == (ExportView { sps, samples: samples@, rows: Seq::empty(), text: r.1@ }),
    {
        let interval: Double = if sps > 0 {
            Double::from_whole(1).quotient(Double::from_whole(sps as u64))
        } else {
            Double { bits: 0 }
        };
        (
            CsvExport { interval, sps, samples, next: 0, rows: Ghost(Seq::empty()) },
            csv_header(),
        )
    }

    /// The first sample not yet written, and its time in seconds, unless the export is
    /// complete.
    pub fn pending(&self) -> (r: Option<(Double, Sample)>)
        requires
            self.wf(),
        ensures
            match r {
                Some((time, sample)) => {
                    let i = self@.rows.len();
                    &&& i < self@.samples.len()
                    &&& time == sample_time(i, self@.sps)
                    &&& sample == self@.samples[i as int]
                },
                None => self@.complete(),
            },
    {
        if self.next < self.samples.len() {
            let time: Double = Double::from_whole(self.next as u64).product(self.interval);
            Some((time, self.samples[self.next]))
        } else {
            None
        }
    }

    /// Write the line of the first sample not yet written. `t_seconds` and `current_ua`
    /// are its time and its current as text. The text returned follows what was written
    /// before.
    pub fn line(&mut self, t_seconds: &str, current_ua: &str) -> (r: String)
        requires
            old(self).wf(),
            !old(self)@.complete(),
        ensures
            final(self).wf(),
            final(self)@.wf(),
            final(self)@ == old(self)@.written(t_seconds@, current_ua@),
            final(self)@.text == old(self)@.text + r@,
    {
        let pins: u8 = self.samples[self.next].pins;
        let r: String = csv_row(t_seconds, current_ua, pins);
        let ghost before = self.rows@;
        let ghost after = before.push((t_seconds@, current_ua@, pins));
        assert(after.drop_last() =~= before);
        self.rows = Ghost(after);
        assert(self.next < self.samples.len());
        self.next = self.next + 1;
        r
    }
}

/// How often a character stands in a text.
pub open spec fn occurrences(s: Seq<char>, c: char) -> nat
    decreases s.len(),
{
    if s.len() == 0 {
        0
    } else {
        occurrences(s.drop_last(), c) + if s.last() == c {
            1nat
        } else {
            0nat
        }
    }
}

proof fn lemma_occurrences_concat(a: Seq<char>, b: Seq<char>, c: char)
    ensures
        occurrences(a + b, c) == occurrences(a, c) + occurrences(b, c),
    decreases b.len(),
{
    if b.len() == 0 {
        assert(a + b =~= a);
    } else {
        lemma_occurrences_concat(a, b.drop_last(), c);
        assert((a + b).drop_last() =~= a + b.drop_last());
    }
}

proof fn lemma_pin_columns_shape(pins: u8, n: nat)
    ensures
        pin_columns(pins, n).len() == 2 * n,
        occurrences(pin_columns(pins, n), ',') == n,
        forall|i: int|
            0 <= i < n ==> (#[trigger] crate::trigger::pin_high(pins, i) <==> pin_columns(
                pins,
                n,
            )[2 * i + 1] == '1'),
    decreases n,
{
    if n > 0 {
        let before = pin_columns(pins, (n - 1) as nat);
        let last = pin_column(pins, n - 1);
        lemma_pin_columns_shape(pins, (n - 1) as nat);
        reveal_strlit(",1");
        reveal_strlit(",0");
        reveal_with_fuel(occurrences, 3);
        assert(last.drop_last().drop_last() =~= Seq::<char>::empty());
        assert(occurrences(last, ',') == 1);
        lemma_occurrences_concat(before, last, ',');
        assert forall|i: int| 0 <= i < n implies (#[trigger] crate::trigger::pin_high(
            pins,
            i,
        ) <==> pin_columns(pins, n)[2 * i + 1] == '1') by {
            if i < n - 1 {
                assert(pin_columns(pins, n)[2 * i + 1] == before[2 * i + 1]);
            }
        }
    }
}

/// A line tells the state of every pin: the same pin columns mean the same state.
pub proof fn lemma_columns_determine_pins(a: u8, b: u8)
    requires
        pin_columns(a, 8) == pin_columns(b, 8),
    ensures
        a == b,
{
    lemma_pin_columns_shape(a, 8);
    lemma_pin_columns_shape(b, 8);
    assert forall|i: int| 0 <= i < 8 implies crate::trigger::pin_high(a, i)
        == #[trigger] crate::trigger::pin_high(b, i) by {
        assert(pin_columns(a, 8)[2 * i + 1] == pin_columns(b, 8)[2 * i + 1]);
    }
    crate::trigger::lemma_pins_determine_byte(a, b);
}

/// Every line has as many columns as the first: where time and current hold no comma,
/// a line has as many commas.
pub proof fn lemma_row_has_header_columns(t_seconds: Seq<char>, current_ua: Seq<char>, pins: u8)
    requires
        occurrences(t_seconds, ',') == 0,
        occurrences(current_ua, ',') == 0,
    ensures
        occurrences(row(t_seconds, current_ua, pins), ',') == occurrences(header(), ','),
{
    lemma_pin_columns_shape(pins, 8);
    lemma_occurrences_concat(t_seconds, ","@, ',');
    lemma_occurrences_concat(t_seconds + ","@, current_ua, ',');
    lemma_occurrences_concat(t_seconds + ","@ + current_ua, pin_columns(pins, 8), ',');
    lemma_occurrences_concat(t_seconds + ","@ + current_ua + pin_columns(pins, 8), "\n"@, ',');
    reveal_strlit(",");
    reveal_strlit("\n");
    assert(occurrences(","@, ',') == 1) by {
        reveal_with_fuel(occurrences, 2);
        assert(","@.drop_last() =~= Seq::<char>::empty());
    }
    lemma_absent("\n"@, ',');
    lemma_header_commas();
}

proof fn lemma_absent(s: Seq<char>, c: char)
    requires
        forall|i: int| 0 <= i < s.len() ==> s[i] != c,
    ensures
        occurrences(s, c) == 0,
    decreases s.len(),
{
    if s.len() > 0 {
        lemma_absent(s.drop_last(), c);
    }
}

/// A comma and a text without one add one to the count.
proof fn lemma_one_more_column(before: Seq<char>, column: Seq<char>)
    requires
        column.len() > 0,
        column[0] == ',',
        forall|i: int| 1 <= i < column.len() ==> column[i] != ',',
    ensures
        occurrences(before + column, ',') == occurrences(before, ',') + 1,
{
    let first = column.take(1);
    let rest = column.skip(1);
    assert(column =~= first + rest);
    assert(occurrences(first, ',') == 1) by {
        reveal_with_fuel(occurrences, 2);
        assert(first.drop_last() =~= Seq::<char>::empty());
    }
    lemma_absent(rest, ',');
    lemma_occurrences_concat(first, rest, ',');
    lemma_occurrences_concat(before, column, ',');
}

proof fn lemma_header_commas()
    ensures
        occurrences(header(), ',') == 9,
{
    reveal_strlit("t_seconds,current_ua,d0,d1,d2,d3,d4,d5,d6,d7\n");
    let h = header();
    lemma_absent(h.take(9), ',');
    assert(h.take(20) =~= h.take(9) + h.subrange(9, 20));
    lemma_one_more_column(h.take(9), h.subrange(9, 20));
    assert(h.take(23) =~= h.take(20) + h.subrange(20, 23));
    lemma_one_more_column(h.take(20), h.subrange(20, 23));
    assert(h.take(26) =~= h.take(23) + h.subrange(23, 26));
    lemma_one_more_column(h.take(23), h.subrange(23, 26));
    assert(h.take(29) =~= h.take(26) + h.subrange(26, 29));
    lemma_one_more_column(h.take(26), h.subrange(26, 29));
    assert(h.take(32) =~= h.take(29) + h.subrange(29, 32));
    lemma_one_more_column(h.take(29), h.subrange(29, 32));
    assert(h.take(35) =~= h.take(32) + h.subrange(32, 35));
    lemma_one_more_column(h.take(32), h.subrange(32, 35));
    assert(h.take(38) =~= h.take(35) + h.subrange(35, 38));
    lemma_one_more_column(h.take(35), h.subrange(35, 38));
    assert(h.take(41) =~= h.take(38) + h.subrange(38, 41));
    lemma_one_more_column(h.take(38), h.subrange(38, 41));
    assert(h =~= h.take(41) + h.subrange(41, 45));
    lemma_one_more_column(h.take(41), h.subrange(41, 45));
}

/// A line ends with its only line break, where time and current hold none.
proof fn lemma_row_is_a_line(t_seconds: Seq<char>, current_ua: Seq<char>, pins: u8)
    requires
        occurrences(t_seconds, '\n') == 0,
        occurrences(current_ua, '\n') == 0,
    ensures
        occurrences(row(t_seconds, current_ua, pins), '\n') == 1,
        row(t_seconds, current_ua, pins).last() == '\n',
{
    let columns = pin_columns(pins, 8);
    lemma_columns_in_one_line(pins, 8);
    reveal_strlit(",");
    reveal_strlit("\n");
    lemma_absent(","@, '\n');
    assert(occurrences("\n"@, '\n') == 1) by {
        reveal_with_fuel(occurrences, 2);
        assert("\n"@.drop_last() =~= Seq::<char>::empty());
    }
    lemma_occurrences_concat(t_seconds, ","@, '\n');
    lemma_occurrences_concat(t_seconds + ","@, current_ua, '\n');
    lemma_occurrences_concat(t_seconds + ","@ + current_ua, columns, '\n');
    lemma_occurrences_concat(t_seconds + ","@ + current_ua + columns, "\n"@, '\n');
}

proof fn lemma_columns_in_one_line(pins: u8, n: nat)
    ensures
        occurrences(pin_columns(pins, n), '\n') == 0,
    decreases n,
{
    if n > 0 {
        lemma_columns_in_one_line(pins, (n - 1) as nat);
        reveal_strlit(",1");
        reveal_strlit(",0");
        lemma_absent(pin_column(pins, n - 1), '\n');
        lemma_occurrences_concat(
            pin_columns(pins, (n - 1) as nat),
            pin_column(pins, n - 1),
            '\n',
        );
    }
}

/// An export has one line more than it has rows, each ended by a line break, where no
/// time and no current holds one.
pub proof fn lemma_export_lines(rows: Seq<Row>)
    requires
        forall|i: int|
            0 <= i < rows.len() ==> occurrences((#[trigger] rows[i]).0, '\n') == 0 && occurrences(
                rows[i].1,
                '\n',
            ) == 0,
    ensures
        occurrences(csv_text(rows), '\n') == rows.len() + 1,
        csv_text(rows).last() == '\n',
    decreases rows.len(),
{
    if rows.len() == 0 {
        reveal_strlit("t_seconds,current_ua,d0,d1,d2,d3,d4,d5,d6,d7\n");
        lemma_absent(header().drop_last(), '\n');
    } else {
        let before = rows.drop_last();
        assert forall|i: int| 0 <= i < before.len() implies occurrences(
            (#[trigger] before[i]).0,
            '\n',
        ) == 0 && occurrences(before[i].1, '\n') == 0 by {
            assert(before[i] == rows[i]);
        }
        lemma_export_lines(before);
        let (t_seconds, current_ua, pins) = rows.last();
        assert(rows[rows.len() - 1] == rows.last());
        lemma_row_is_a_line(t_seconds, current_ua, pins);
        lemma_occurrences_concat(csv_text(before), row(t_seconds, current_ua, pins), '\n');
    }
}

proof fn lemma_export_begins(rows: Seq<Row>)
    ensures
        header().is_prefix_of(csv_text(rows)),
    decreases rows.len(),
{
    if rows.len() > 0 {
        lemma_export_begins(rows.drop_last());
        let before = csv_text(rows.drop_last());
        assert(csv_text(rows).take(header().len() as int) =~= before.take(header().len() as int));
    }
}

/// An export begins with the first line, and holds the line of row `i` right after those
/// of the rows before it.
pub proof fn lemma_export_in_order(rows: Seq<Row>, i: int)
    requires
        0 <= i < rows.len(),
    ensures
        header().is_prefix_of(csv_text(rows)),
        csv_text(rows.take(i + 1)).is_prefix_of(csv_text(rows)),
        csv_text(rows.take(i + 1)) == csv_text(rows.take(i)) + row(rows[i].0, rows[i].1, rows[i].2),
    decreases rows.len(),
{
    let before = rows.drop_last();
    assert(rows.take(i + 1).drop_last() =~= rows.take(i));
    lemma_export_begins(rows);
    if i < before.len() {
        lemma_export_in_order(before, i);
        assert(before.take(i + 1) =~= rows.take(i + 1));
    } else {
        assert(rows.take(i + 1) =~= rows);
    }
}

/// A complete export has one line for each sample, in order, after the first line: so
/// many lines and one more, where no time and no current holds a line break.
pub proof fn lemma_complete_export(e: ExportView)
    requires
        e.wf(),
        e.complete(),
        forall|i: int|
            0 <= i < e.rows.len() ==> occurrences((#[trigger] e.rows[i]).0, '\n') == 0
                && occurrences(e.rows[i].1, '\n') == 0,
    ensures
        e.text == csv_text(e.rows),
        e.rows.len() == e.samples.len(),
        forall|i: int| 0 <= i < e.samples.len() ==> e.rows[i].2 == (#[trigger] e.samples[i]).pins,
        occurrences(e.text, '\n') == e.samples.len() + 1,
{
    lemma_export_lines(e.rows);
    assert forall|i: int| 0 <= i < e.samples.len() implies e.rows[i].2 == (
    #[trigger] e.samples[i]).pins by {
        assert(e.rows[i].2 == e.samples[i].pins);
    }
}

/// The columns of the pins, character by character.
proof fn lemma_pin_columns_by_place(pins: u8, n: nat)
    requires
        n <= 8,
    ensures
        pin_columns(pins, n).len() == 2 * n,
        forall|b: int|
            0 <= b < n ==> {
                &&& #[trigger] pin_columns(pins, n)[2 * b] == ','
                &&& pin_columns(pins, n)[2 * b + 1] == if crate::trigger::pin_high(pins, b) {
                    '1'
                } else {
                    '0'
                }
            },
    decreases n,
{
    if n > 0 {
        let before = pin_columns(pins, (n - 1) as nat);
        lemma_pin_columns_by_place(pins, (n - 1) as nat);
        reveal_strlit(",1");
        reveal_strlit(",0");
        let all = pin_columns(pins, n);
        assert forall|b: int| 0 <= b < n implies {
            &&& #[trigger] all[2 * b] == ','
            &&& all[2 * b + 1] == if crate::trigger::pin_high(pins, b) {
                '1'
            } else {
                '0'
            }
        } by {
            if b < n - 1 {
                assert(all[2 * b] == before[2 * b]);
                assert(all[2 * b + 1] == before[2 * b + 1]);
            }
        }
    }
}

/// The line of a sample, place by place: its time, a comma, its current, then for each pin
/// from D0 on a comma and the pin's bit, and at last the line break.
pub proof fn lemma_row_by_place(t_seconds: Seq<char>, current_ua: Seq<char>, pins: u8)
    ensures
        ({
            let r = row(t_seconds, current_ua, pins);
            let n = t_seconds.len() as int;
            let m = current_ua.len() as int;
            &&& r.len() == n + m + 18
            &&& r.subrange(0, n) == t_seconds
            &&& r[n] == ','
            &&& r.subrange(n + 1, n + 1 + m) == current_ua
            &&& forall|b: int|
                0 <= b < 8 ==> #[trigger] r[n + m + 1 + 2 * b] == ',' && r[n + m + 2 + 2 * b] == if (
                pins as int / vstd::arithmetic::power2::pow2(b as nat) as int) % 2 == 1 {
                    '1'
                } else {
                    '0'
                }
            &&& r[n + m + 17] == '\n'
        }),
{
    let r = row(t_seconds, current_ua, pins);
    let c = pin_columns(pins, 8);
    let n = t_seconds.len() as int;
    let m = current_ua.len() as int;
    reveal_strlit(",");
    reveal_strlit("\n");
    lemma_pin_columns_by_place(pins, 8);
    assert(r.subrange(0, n) =~= t_seconds);
    assert(r.subrange(n + 1, n + 1 + m) =~= current_ua);
    assert forall|b: int| 0 <= b < 8 implies #[trigger] r[n + m + 1 + 2 * b] == ',' && r[n + m + 2
        + 2 * b] == if (pins as int / vstd::arithmetic::power2::pow2(b as nat) as int) % 2 == 1 {
        '1'
    } else {
        '0'
    } by {
        crate::trigger::lemma_pin_is_a_bit(pins, b);
        assert(r[n + m + 1 + 2 * b] == c[2 * b]);
        assert(r[n + m + 2 + 2 * b] == c[2 * b + 1]);
    }
}

/// An export without rows is the first line alone.
pub proof fn lemma_empty_export()
    ensures
        csv_text(Seq::empty()) == header(),
{
}

/// A line that is written is that of the first sample not yet written, with the time and
/// the current that were given for it; it follows what was written before, and nothing
/// else changes.
pub proof fn lemma_written_line(e: ExportView, t_seconds: Seq<char>, current_ua: Seq<char>)
    requires
        e.wf(),
        !e.complete(),
    ensures
        ({
            let after = e.written(t_seconds, current_ua);
            let k = e.rows.len() as int;
            &&& after.wf()
            &&& after.sps == e.sps && after.samples == e.samples
            &&& after.rows.len() == k + 1
            &&& after.rows.take(k) == e.rows
            &&& after.rows[k].0 == t_seconds && after.rows[k].1 == current_ua && after.rows[k].2
                == e.samples[k].pins
            &&& after.text == e.text + row(t_seconds, current_ua, e.samples[k].pins)
        }),
{
    let after = e.written(t_seconds, current_ua);
    assert(after.rows.drop_last() =~= e.rows);
    assert(after.rows.take(e.rows.len() as int) =~= e.rows);
}

/// The time of a sample is its number over the rate, but for rounding.
pub proof fn lemma_sample_time(i: nat, sps: usize)
    requires
        i <= crate::figures::TWO_52,
        0 < sps <= crate::figures::TWO_52,
    ensures
        ({
            let o = crate::rounding::one();
            let t = sample_time(i, sps);
            &&& t.is_finite()
            &&& t.value() >= 0
            &&& -(2 * (i * o)) <= (t.value() * sps - i * o) * crate::figures::TWO_52 <= 2 * (i * o)
        }),
{
    let o = crate::rounding::one();
    let p = crate::figures::TWO_52 as int;
    let n = sps as int;
    let dt = interval(sps);
    let w = crate::arith::whole(i);
    let u = crate::arith::whole(1);
    vstd::arithmetic::power2::lemma2_to64();
    vstd::arithmetic::power2::lemma2_to64_rest();
    vstd::arithmetic::power2::lemma_pow2_pos(1074);
    crate::arith::lemma_whole(1, 0);
    crate::rounding::lemma_power_is_exact(1074);
    assert(1 * o == o);
    vstd::arithmetic::power2::lemma_pow2_strictly_increases(1074, 1385);
    crate::figures::lemma_mean_of(u, sps as nat);
    crate::arith::lemma_whole(sps as nat, 52);
    crate::arith::lemma_over(u, crate::arith::whole(sps as nat), 1074);
    crate::arith::lemma_whole(i, 52);
    crate::rounding::lemma_rounded_scaled(i, 1074);
    crate::rounding::lemma_small_is_exact(i);
    crate::arith::lemma_times(w, dt, 1126, 1074);
    let d = dt.value();
    assert(d == dt.mag());
    assert((i * o) * dt.mag() == o * (i * dt.mag())) by (nonlinear_arith);
    crate::rounding::lemma_whole_ratio(i * dt.mag(), o);
    crate::rounding::lemma_rounding_error(i * dt.mag());
    let t = sample_time(i, sps).value();
    let x = i * d;
    assert(-x <= (t - x) * (2 * p) <= x);
    vstd::arithmetic::power2::lemma_pow2_adds(52, 52);
    vstd::arithmetic::power2::lemma_pow2_strictly_increases(104, 1074);
    assert(p * n <= o) by (nonlinear_arith)
        requires
            n <= p,
            p * p <= o,
            p > 0,
    ;
    assert(-(2 * o) <= (o - d * n) * (2 * p) <= 2 * o);
    assert(d * n <= 2 * o) by (nonlinear_arith)
        requires
            -(2 * o) <= (o - d * n) * (2 * p),
            p >= 1,
            o > 0,
    ;
    let z = o - d * n;
    assert(t * n - i * o == (t - x) * n - i * z) by (nonlinear_arith)
        requires
            x == i * d,
            z == o - d * n,
    ;
    assert(-(4 * (i * o)) <= (t * n - i * o) * (2 * p) <= 4 * (i * o)) by (nonlinear_arith)
        requires
            t * n - i * o == (t - x) * n - i * z,
            -x <= (t - x) * (2 * p) <= x,
            -(2 * o) <= z * (2 * p) <= 2 * o,
            x == i * d,
            d * n <= 2 * o,
            d >= 0,
            n > 0,
            i >= 0,
    {
        assert(((t - x) * n) * (2 * p) == ((t - x) * (2 * p)) * n);
        assert(((t - x) * (2 * p)) * n <= x * n);
        assert(((t - x) * (2 * p)) * n >= -x * n);
        assert(x * n == i * (d * n));
        assert(i * (d * n) <= i * (2 * o));
        assert((i * z) * (2 * p) == i * (z * (2 * p)));
        assert(i * (z * (2 * p)) <= i * (2 * o));
        assert(i * (z * (2 * p)) >= -(i * (2 * o)));
        assert(i * (2 * o) == 2 * (i * o));
    }
    assert((t * n - i * o) * (2 * p) == 2 * ((t * n - i * o) * p)) by (nonlinear_arith);
}

/// Without a rate every sample has the time zero.
pub proof fn lemma_sample_time_without_rate(i: nat)
    requires
        i <= crate::figures::TWO_52,
    ensures
        sample_time(i, 0).is_finite(),
        sample_time(i, 0).value() == 0,
{
    let zero = Double { bits: 0 };
    let w = crate::arith::whole(i);
    vstd::arithmetic::power2::lemma2_to64_rest();
    vstd::arithmetic::power2::lemma_pow2_pos(1074);
    assert(zero.is_finite() && zero.mag() == 0);
    crate::arith::lemma_whole(i, 52);
    crate::arith::lemma_times(w, zero, 1126, 1074);
    assert(w.mag() * 0 == 0);
    crate::arith::lemma_rounds_to_zero(0, crate::rounding::one());
}

/// The first line names the time, the current and each pin by its number, in the order of
/// the columns.
pub proof fn lemma_first_line()
    ensures
        header() == "t_seconds"@ + ",current_ua"@ + ",d"@ + crate::text::decimal(0) + ",d"@
            + crate::text::decimal(1) + ",d"@ + crate::text::decimal(2) + ",d"@
            + crate::text::decimal(3) + ",d"@ + crate::text::decimal(4) + ",d"@
            + crate::text::decimal(5) + ",d"@ + crate::text::decimal(6) + ",d"@
            + crate::text::decimal(7) + "\n"@,
{
    reveal_strlit("t_seconds,current_ua,d0,d1,d2,d3,d4,d5,d6,d7\n");
    reveal_strlit("t_seconds");
    reveal_strlit(",current_ua");
    reveal_strlit(",d");
    reveal_strlit("\n");
    assert(header() =~= "t_seconds"@ + ",current_ua"@ + ",d"@ + crate::text::decimal(0) + ",d"@
        + crate::text::decimal(1) + ",d"@ + crate::text::decimal(2) + ",d"@ + crate::text::decimal(
        3,
    ) + ",d"@ + crate::text::decimal(4) + ",d"@ + crate::text::decimal(5) + ",d"@
        + crate::text::decimal(6) + ",d"@ + crate::text::decimal(7) + "\n"@);
}

} // verus!
