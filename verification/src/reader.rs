use crate::lines::{find_lines, lemma_spans_are_lines, line_spans, lines_of, span_bytes, spans_of, LineSpan};
use crate::record::{decode_index, records_of, IndexRecord};
use crate::reindexer::{days_of, texts_of, DayLog};
use crate::text::{bytes_to_text, text_of_bytes};
use vstd::prelude::*;
use vstd::slice::slice_subrange;
use vstd::string::StringExecFns;

verus! {

/// The lines in the order asked for: as they are, or the last one first.
pub open spec fn in_order<T>(lines: Seq<T>, reverse: bool) -> Seq<T> {
    if reverse {
        lines.reverse()
    } else {
        lines
    }
}

/// The texts among a list of lines of bytes, in their order. A line that is
/// no text is left out.
pub open spec fn texts_among(lines: Seq<Seq<u8>>) -> Seq<Seq<char>>
    decreases lines.len(),
{
    if lines.len() == 0 {
        Seq::empty()
    } else {
        let before = texts_among(lines.drop_last());
        match text_of_bytes(lines.last()) {
            Some(t) => before.push(t),
            None => before,
        }
    }
}

/// The lines of a channel file, as texts.
pub open spec fn channel_lines(b: Seq<u8>) -> Seq<Seq<char>> {
    texts_among(lines_of(b))
}

/// The record lies within the file.
pub open spec fn in_file(b: Seq<u8>, r: IndexRecord) -> bool {
    r.offset + r.length <= b.len()
}

/// The bytes of a file that a record points at.
pub open spec fn record_bytes_in(b: Seq<u8>, r: IndexRecord) -> Seq<u8> {
    b.subrange(r.offset as int, r.offset + r.length)
}

/// The line that a record points at, where the record lies within the file
/// and the bytes there are text.
pub open spec fn record_line(b: Seq<u8>, r: IndexRecord) -> Option<Seq<char>> {
    if in_file(b, r) {
        text_of_bytes(record_bytes_in(b, r))
    } else {
        None
    }
}

/// The lines of one day that the records of a user point at, in the order of
/// the records. Records of other days, records that reach beyond the file and
/// records that point at no text give no line.
pub open spec fn day_lines(records: Seq<IndexRecord>, day: u32, b: Seq<u8>) -> Seq<Seq<char>>
    decreases records.len(),
{
    if records.len() == 0 {
        Seq::empty()
    } else {
        let before = day_lines(records.drop_last(), day, b);
        if records.last().day == day {
            match record_line(b, records.last()) {
                Some(t) => before.push(t),
                None => before,
            }
        } else {
            before
        }
    }
}

/// The lines of a month that the records of a user point at: day by day in
/// the order of the files given, within a day in the order of the records.
/// Records of days of which there is no file give no line.
pub open spec fn month_lines(records: Seq<IndexRecord>, days: Seq<(u32, Seq<u8>)>) -> Seq<Seq<char>>
    decreases days.len(),
{
    if days.len() == 0 {
        Seq::empty()
    } else {
        month_lines(records, days.drop_last()) + day_lines(records, days.last().0, days.last().1)
    }
}

/// Reversing twice gives the order back.
pub proof fn lemma_reverse_twice<T>(lines: Seq<T>)
    ensures
        lines.reverse().reverse() == lines,
        in_order(in_order(lines, true), true) == lines,
{
    assert(lines.reverse().reverse() =~= lines);
}

/// Puts a list in the opposite order.
pub fn reversed<T>(items: Vec<T>) -> (r: Vec<T>)
    ensures
        r@ == items@.reverse(),
{
    let mut rest = items;
    let mut out: Vec<T> = Vec::new();
    let ghost all = items@;
    while rest.len() > 0
        invariant
            rest@.len() + out@.len() == all.len(),
            rest@ == all.take(rest@.len() as int),
            forall|j: int| 0 <= j < out@.len() ==> #[trigger] out@[j] == all[all.len() - 1 - j],
        decreases rest@.len(),
    {
        let last = rest.pop().unwrap();
        assert(rest@ =~= all.take(rest@.len() as int));
        out.push(last);
    }
    assert(out@ =~= all.reverse());
    out
}

/// The texts of a list in the opposite order are the texts of the list, in
/// the opposite order.
pub proof fn lemma_texts_reverse(lines: Seq<String>)
    ensures
        texts_of(lines.reverse()) == texts_of(lines).reverse(),
{
    assert(texts_of(lines.reverse()) =~= texts_of(lines).reverse());
}

/// Puts a list of lines in the order asked for.
pub fn ordered(lines: Vec<String>, reverse: bool) -> (r: Vec<String>)
    ensures
        r@ == in_order(lines@, reverse),
        texts_of(r@) == in_order(texts_of(lines@), reverse),
{
    proof {
        lemma_texts_reverse(lines@);
    }
    if reverse {
        reversed(lines)
    } else {
        lines
    }
}

/// Reads the lines of a channel file, first to last.
pub fn channel_day_lines(bytes: &[u8]) -> (r: Vec<String>)
    ensures
        texts_of(r@) == channel_lines(bytes@),
{
    let spans = find_lines(bytes);
    let n: usize = spans.len();
    let mut out: Vec<String> = Vec::new();
    let mut i: usize = 0;
    let ghost all = lines_of(bytes@);
    assert(all.take(0) =~= Seq::empty());
    assert(texts_of(out@) =~= texts_among(all.take(0)));
    while i < n
        invariant
            i <= n,
            n == spans@.len(),
            all == lines_of(bytes@),
            spans_of(spans@) == line_spans(bytes@),
            texts_of(out@) == texts_among(all.take(i as int)),
        decreases n - i,
    {
        let span: LineSpan = spans[i];
        proof {
            assert(spans_of(spans@)[i as int] == (span.offset as int, span.length as int));
            lemma_spans_are_lines(bytes@, 0, i as int);
            assert(all.take(i + 1).drop_last() == all.take(i as int));
            assert(all.take(i + 1).last() == all[i as int]);
            assert(all[i as int] == span_bytes(bytes@, line_spans(bytes@)[i as int]));
        }
        let ghost before = texts_of(out@);
        let total: usize = bytes.len();
        let raw = slice_subrange(bytes, span.offset, span.offset + span.length);
        match bytes_to_text(raw) {
            Some(text) => {
                out.push(String::from_str(text));
                assert(texts_of(out@) =~= before.push(text@));
            },
            None => {},
        }
        i += 1;
    }
    assert(all.take(n as int) == all);
    out
}

/// Reads the lines of a channel for one day.
pub fn read_channel_day(bytes: &[u8], reverse: bool) -> (r: Vec<String>)
    ensures
        texts_of(r@) == in_order(channel_lines(bytes@), reverse),
{
    ordered(channel_day_lines(bytes), reverse)
}

/// The lines of the channel files of a month, file by file in the order given.
pub open spec fn channel_month_lines(days: Seq<(u32, Seq<u8>)>) -> Seq<Seq<char>>
    decreases days.len(),
{
    if days.len() == 0 {
        Seq::empty()
    } else {
        channel_month_lines(days.drop_last()) + channel_lines(days.last().1)
    }
}

/// Reads the lines of a channel for one month.
pub fn read_channel_month(days: &Vec<DayLog>, reverse: bool) -> (r: Vec<String>)
    ensures
        texts_of(r@) == in_order(channel_month_lines(days_of(days@)), reverse),
{
    let n: usize = days.len();
    let mut out: Vec<String> = Vec::new();
    let mut i: usize = 0;
    let ghost all = days_of(days@);
    assert(all.take(0) =~= Seq::empty());
    assert(texts_of(out@) =~= channel_month_lines(all.take(0)));
    while i < n
        invariant
            i <= n,
            n == days@.len(),
            all == days_of(days@),
            texts_of(out@) == channel_month_lines(all.take(i as int)),
        decreases n - i,
    {
        assert(all.take(i + 1).drop_last() == all.take(i as int));
        assert(all.take(i + 1).last() == all[i as int]);
        let ghost before = texts_of(out@);
        let mut lines = channel_day_lines(days[i].bytes.as_slice());
        let ghost added = texts_of(lines@);
        out.append(&mut lines);
        assert(texts_of(out@) =~= before + added);
        i += 1;
    }
    assert(all.take(n as int) == all);
    ordered(out, reverse)
}

/// Reads the line that a record points at.
pub fn read_record<'a>(bytes: &'a [u8], record: &IndexRecord) -> (r: Option<&'a str>)
    ensures
        match r {
            Some(t) => record_line(bytes@, *record) == Some(t@),
            None => record_line(bytes@, *record) is None,
        },
{
    let total: usize = bytes.len();
    if record.offset > total as u64 || record.length as u64 > total as u64 - record.offset {
        return None;
    }
    let start: usize = record.offset as usize;
    let end: usize = start + record.length as usize;
    bytes_to_text(slice_subrange(bytes, start, end))
}

/// Appends the lines of one day that the records point at.
pub fn append_day_lines(out: &mut Vec<String>, records: &Vec<IndexRecord>, day: u32, bytes: &[u8])
    ensures
        texts_of(final(out)@) == texts_of(old(out)@) + day_lines(records@, day, bytes@),
{
    let n: usize = records.len();
    let mut i: usize = 0;
    let ghost start = texts_of(out@);
    assert(records@.take(0) =~= Seq::empty());
    assert(texts_of(out@) =~= start + day_lines(records@.take(0), day, bytes@));
    while i < n
        invariant
            i <= n,
            n == records@.len(),
            start == texts_of(old(out)@),
            texts_of(out@) == start + day_lines(records@.take(i as int), day, bytes@),
        decreases n - i,
    {
        assert(records@.take(i + 1).drop_last() == records@.take(i as int));
        assert(records@.take(i + 1).last() == records@[i as int]);
        let ghost before = texts_of(out@);
        if records[i].day == day {
            match read_record(bytes, &records[i]) {
                Some(text) => {
                    out.push(String::from_str(text));
                    assert(texts_of(out@) =~= before.push(text@));
                    assert(before.push(text@) =~= start + day_lines(records@.take(i as int), day, bytes@).push(
                        text@,
                    ));
                },
                None => {},
            }
        }
        i += 1;
    }
    assert(records@.take(n as int) == records@);
}

/// Reads the lines of a user for one day.
pub fn read_user_day(index: &[u8], day: u32, bytes: &[u8], reverse: bool) -> (r: Vec<String>)
    ensures
        texts_of(r@) == in_order(day_lines(records_of(index@), day, bytes@), reverse),
{
    let records = decode_index(index);
    let mut out: Vec<String> = Vec::new();
    assert(texts_of(out@) =~= Seq::empty());
    append_day_lines(&mut out, &records, day, bytes);
    assert(texts_of(out@) =~= day_lines(records@, day, bytes@));
    ordered(out, reverse)
}

/// Reads the lines of a user for one month from the user's index file and the
/// channel files of the month.
pub fn read_user_month(index: &[u8], days: &Vec<DayLog>, reverse: bool) -> (r: Vec<String>)
    ensures
        texts_of(r@) == in_order(month_lines(records_of(index@), days_of(days@)), reverse),
{
    let records = decode_index(index);
    let n: usize = days.len();
    let mut out: Vec<String> = Vec::new();
    let mut i: usize = 0;
    let ghost all = days_of(days@);
    assert(all.take(0) =~= Seq::empty());
    assert(texts_of(out@) =~= month_lines(records@, all.take(0)));
    while i < n
        invariant
            i <= n,
            n == days@.len(),
            all == days_of(days@),
            texts_of(out@) == month_lines(records@, all.take(i as int)),
        decreases n - i,
    {
        assert(all.take(i + 1).drop_last() == all.take(i as int));
        assert(all.take(i + 1).last() == all[i as int]);
        append_day_lines(&mut out, &records, days[i].day, days[i].bytes.as_slice());
        i += 1;
    }
    assert(all.take(n as int) == all);
    ordered(out, reverse)
}

} // verus!
