use crate::index::{
    distinct_users, lemma_records_of_entries, lemma_with_entries_distinct, records_among, records_for,
};
use crate::lines::{is_line, lemma_spans_are_lines, lemma_spans_increase, line_spans, lines_of, span_bytes};
use crate::reader::{
    channel_lines, channel_month_lines, day_lines, month_lines, record_bytes_in, record_line, texts_among,
};
use crate::record::IndexRecord;
use crate::reindexer::{
    day_owners, month_entries, month_index_of, owners_among, resolved_entries, span_owner, span_record,
};
use crate::text::text_of_bytes;
use crate::users::NameView;
use vstd::prelude::*;

verus! {

/// The record points at one of the lines of the file.
pub open spec fn is_line_record(b: Seq<u8>, r: IndexRecord) -> bool {
    exists|k: int| 0 <= k < line_spans(b).len() && #[trigger] line_spans(b)[k] == (r.offset as int, r.length as int)
}

/// The record points at one of the lines of the file of its day.
pub open spec fn points_at(days: Seq<(u32, Seq<u8>)>, r: IndexRecord) -> bool {
    exists|d: int| 0 <= d < days.len() && (#[trigger] days[d]).0 == r.day && is_line_record(days[d].1, r)
}

/// Among records of the same day, a later one lies behind an earlier one.
pub open spec fn rising(rs: Seq<IndexRecord>) -> bool {
    forall|i: int, j: int|
        0 <= i < j < rs.len() && (#[trigger] rs[i]).day == (#[trigger] rs[j]).day ==> rs[i].offset < rs[j].offset
}

/// No two files are of the same day.
pub open spec fn distinct_days(days: Seq<(u32, Seq<u8>)>) -> bool {
    forall|i: int, j: int| 0 <= i < j < days.len() ==> (#[trigger] days[i]).0 != (#[trigger] days[j]).0
}

/// Every file is short enough for the 64-bit offsets of records.
pub open spec fn sizes_fit(days: Seq<(u32, Seq<u8>)>) -> bool {
    forall|i: int| 0 <= i < days.len() ==> (#[trigger] days[i]).1.len() <= u64::MAX
}

/// A record that points at a line of a file lies within the file and covers
/// one whole line of it, without a newline.
pub proof fn lemma_line_record_is_line(b: Seq<u8>, r: IndexRecord)
    requires
        is_line_record(b, r),
    ensures
        is_line(b, r.offset as int, r.length as int),
{
    let k = choose|k: int| 0 <= k < line_spans(b).len() && #[trigger] line_spans(b)[k] == (r.offset as int, r.length as int);
    lemma_spans_are_lines(b, 0, k);
}

/// What holds of the record of every owned line holds of the record of every
/// entry made from them.
pub proof fn lemma_resolved_all(
    owners: Seq<(NameView, IndexRecord)>,
    directory: Seq<(Seq<char>, Seq<char>)>,
    p: spec_fn(IndexRecord) -> bool,
)
    requires
        forall|j: int| 0 <= j < owners.len() ==> p((#[trigger] owners[j]).1),
    ensures
        forall|i: int|
            0 <= i < resolved_entries(owners, directory).len() ==> p(
                (#[trigger] resolved_entries(owners, directory)[i]).1,
            ),
    decreases owners.len(),
{
    if owners.len() > 0 {
        let front = owners.drop_last();
        assert forall|j: int| 0 <= j < front.len() implies p((#[trigger] front[j]).1) by {
            assert(front[j] == owners[j]);
        }
        lemma_resolved_all(front, directory, p);
        let before = resolved_entries(front, directory);
        let now = resolved_entries(owners, directory);
        assert forall|i: int| 0 <= i < now.len() implies p((#[trigger] now[i]).1) by {
            if i < before.len() {
                assert(now[i] == before[i]);
            } else {
                assert(now[i].1 == owners[owners.len() - 1].1);
            }
        }
    }
}

/// What holds of the record of every entry holds of every record that goes to
/// the index of a user.
pub proof fn lemma_records_among_all(
    entries: Seq<(Seq<char>, IndexRecord)>,
    id: Seq<char>,
    p: spec_fn(IndexRecord) -> bool,
)
    requires
        forall|j: int| 0 <= j < entries.len() ==> p((#[trigger] entries[j]).1),
    ensures
        forall|i: int| 0 <= i < records_among(entries, id).len() ==> p(#[trigger] records_among(entries, id)[i]),
    decreases entries.len(),
{
    if entries.len() > 0 {
        let front = entries.drop_last();
        assert forall|j: int| 0 <= j < front.len() implies p((#[trigger] front[j]).1) by {
            assert(front[j] == entries[j]);
        }
        lemma_records_among_all(front, id, p);
        let before = records_among(front, id);
        let now = records_among(entries, id);
        assert forall|i: int| 0 <= i < now.len() implies p(#[trigger] now[i]) by {
            if i < before.len() {
                assert(now[i] == before[i]);
            } else {
                assert(now[i] == entries[entries.len() - 1].1);
            }
        }
    }
}

/// The owned lines among the first `n` lines of a file have records of the
/// day that point at lines of the file, each behind the one before, and all
/// before the end of the last of those `n` lines.
pub proof fn lemma_owners_sound(day: u32, b: Seq<u8>, n: int)
    requires
        0 <= n <= line_spans(b).len(),
        b.len() <= u64::MAX,
    ensures
        forall|i: int|
            0 <= i < owners_among(day, b, line_spans(b).take(n)).len() ==> {
                let r = (#[trigger] owners_among(day, b, line_spans(b).take(n))[i]).1;
                &&& r.day == day
                &&& is_line_record(b, r)
                &&& n > 0
                &&& r.offset + r.length <= line_spans(b)[n - 1].0 + line_spans(b)[n - 1].1
            },
        forall|i: int, j: int|
            0 <= i < j < owners_among(day, b, line_spans(b).take(n)).len() ==> (#[trigger] owners_among(
                day,
                b,
                line_spans(b).take(n),
            )[i]).1.offset < (#[trigger] owners_among(day, b, line_spans(b).take(n))[j]).1.offset,
    decreases n,
{
    let spans = line_spans(b);
    if n > 0 {
        lemma_owners_sound(day, b, n - 1);
        let front = owners_among(day, b, spans.take(n - 1));
        let now = owners_among(day, b, spans.take(n));
        assert(spans.take(n).drop_last() == spans.take(n - 1));
        assert(spans.take(n).last() == spans[n - 1]);
        lemma_spans_are_lines(b, 0, n - 1);
        if n > 1 {
            lemma_spans_increase(b, 0, n - 2, n - 1);
        }
        let last = span_record(day, spans[n - 1]);
        assert forall|i: int| 0 <= i < now.len() implies {
            let r = (#[trigger] now[i]).1;
            &&& r.day == day
            &&& is_line_record(b, r)
            &&& r.offset + r.length <= spans[n - 1].0 + spans[n - 1].1
        } by {
            if i < front.len() {
                assert(now[i] == front[i]);
            } else {
                assert(now[i].1 == last);
                assert(span_owner(b, spans[n - 1]) is Some);
                assert(spans[n - 1] == (last.offset as int, last.length as int));
            }
        }
        assert forall|i: int, j: int| 0 <= i < j < now.len() implies (#[trigger] now[i]).1.offset < (
        #[trigger] now[j]).1.offset by {
            assert(now[i] == front[i]);
            if j < front.len() {
                assert(now[j] == front[j]);
            } else {
                assert(now[j].1 == last);
                assert(span_owner(b, spans[n - 1]) is Some);
            }
        }
    }
}

/// The entries made from the first `m` of a list of owned lines whose records
/// lie each behind the one before: their records too lie each behind the one
/// before, and none behind the last of those `m`.
pub proof fn lemma_resolved_rising(
    owners: Seq<(NameView, IndexRecord)>,
    directory: Seq<(Seq<char>, Seq<char>)>,
    m: int,
)
    requires
        0 <= m <= owners.len(),
        forall|i: int, j: int|
            0 <= i < j < owners.len() ==> (#[trigger] owners[i]).1.offset < (#[trigger] owners[j]).1.offset,
    ensures
        forall|i: int|
            0 <= i < resolved_entries(owners.take(m), directory).len() ==> m > 0 && (#[trigger] resolved_entries(
                owners.take(m),
                directory,
            )[i]).1.offset <= owners[m - 1].1.offset,
        forall|i: int, j: int|
            0 <= i < j < resolved_entries(owners.take(m), directory).len() ==> (#[trigger] resolved_entries(
                owners.take(m),
                directory,
            )[i]).1.offset < (#[trigger] resolved_entries(owners.take(m), directory)[j]).1.offset,
    decreases m,
{
    if m > 0 {
        lemma_resolved_rising(owners, directory, m - 1);
        let front = resolved_entries(owners.take(m - 1), directory);
        let now = resolved_entries(owners.take(m), directory);
        assert(owners.take(m).drop_last() == owners.take(m - 1));
        assert(owners.take(m).last() == owners[m - 1]);
        if m > 1 {
            assert(owners[m - 2].1.offset < owners[m - 1].1.offset);
        }
        assert forall|i: int| 0 <= i < now.len() implies (#[trigger] now[i]).1.offset <= owners[m - 1].1.offset by {
            if i < front.len() {
                assert(now[i] == front[i]);
            }
        }
        assert forall|i: int, j: int| 0 <= i < j < now.len() implies (#[trigger] now[i]).1.offset < (
        #[trigger] now[j]).1.offset by {
            assert(now[i] == front[i]);
            if j < front.len() {
                assert(now[j] == front[j]);
            }
        }
    }
}

/// The entries of the file of one day have records of that day that point at
/// lines of the file, each behind the one before.
pub proof fn lemma_day_entries_sound(day: u32, b: Seq<u8>, directory: Seq<(Seq<char>, Seq<char>)>)
    requires
        b.len() <= u64::MAX,
    ensures
        forall|i: int|
            0 <= i < resolved_entries(day_owners(day, b), directory).len() ==> {
                let r = (#[trigger] resolved_entries(day_owners(day, b), directory)[i]).1;
                r.day == day && is_line_record(b, r)
            },
        forall|i: int, j: int|
            0 <= i < j < resolved_entries(day_owners(day, b), directory).len() ==> (#[trigger] resolved_entries(
                day_owners(day, b),
                directory,
            )[i]).1.offset < (#[trigger] resolved_entries(day_owners(day, b), directory)[j]).1.offset,
{
    let spans = line_spans(b);
    let owners = day_owners(day, b);
    assert(spans.take(spans.len() as int) == spans);
    lemma_owners_sound(day, b, spans.len() as int);
    lemma_resolved_all(owners, directory, |r: IndexRecord| r.day == day && is_line_record(b, r));
    assert(owners.take(owners.len() as int) == owners);
    lemma_resolved_rising(owners, directory, owners.len() as int);
}

/// Every record of the entries points at a line of the file of its day.
pub open spec fn entries_point(days: Seq<(u32, Seq<u8>)>, entries: Seq<(Seq<char>, IndexRecord)>) -> bool {
    forall|i: int| 0 <= i < entries.len() ==> points_at(days, (#[trigger] entries[i]).1)
}

/// Among entries of the same day, a later one lies behind an earlier one.
pub open spec fn entries_rising(entries: Seq<(Seq<char>, IndexRecord)>) -> bool {
    forall|i: int, j: int|
        0 <= i < j < entries.len() && (#[trigger] entries[i]).1.day == (#[trigger] entries[j]).1.day
            ==> entries[i].1.offset < entries[j].1.offset
}

/// A record that points at a line among some files still does so among more.
pub proof fn lemma_points_at_more(days: Seq<(u32, Seq<u8>)>, n: int, r: IndexRecord)
    requires
        0 <= n <= days.len(),
        points_at(days.take(n), r),
    ensures
        points_at(days, r),
{
    let front = days.take(n);
    let d = choose|d: int| 0 <= d < front.len() && (#[trigger] front[d]).0 == r.day && is_line_record(front[d].1, r);
    assert(days[d] == front[d]);
}

/// The entries of the files of a month, where no two files are of the same
/// day: every record points at a line of the file of its day, and among
/// entries of the same day a later one lies behind an earlier one.
pub proof fn lemma_month_entries_sound(days: Seq<(u32, Seq<u8>)>, directory: Seq<(Seq<char>, Seq<char>)>)
    requires
        distinct_days(days),
        sizes_fit(days),
    ensures
        entries_point(days, month_entries(days, directory)),
        entries_rising(month_entries(days, directory)),
    decreases days.len(),
{
    if days.len() > 0 {
        let n = days.len() - 1;
        let front = days.drop_last();
        let day = days[n].0;
        let b = days[n].1;
        assert(front == days.take(n));
        assert(distinct_days(front)) by {
            assert forall|i: int, j: int| 0 <= i < j < front.len() implies (#[trigger] front[i]).0 != (
            #[trigger] front[j]).0 by {
                assert(front[i] == days[i] && front[j] == days[j]);
            }
        }
        assert(sizes_fit(front)) by {
            assert forall|i: int| 0 <= i < front.len() implies (#[trigger] front[i]).1.len() <= u64::MAX by {
                assert(front[i] == days[i]);
            }
        }
        lemma_month_entries_sound(front, directory);
        assert(days[n].1.len() <= u64::MAX);
        lemma_day_entries_sound(day, b, directory);
        let before = month_entries(front, directory);
        let block = resolved_entries(day_owners(day, b), directory);
        let all = month_entries(days, directory);
        assert(all == before + block);
        assert forall|i: int| 0 <= i < all.len() implies points_at(days, (#[trigger] all[i]).1) by {
            if i < before.len() {
                assert(all[i] == before[i]);
                lemma_points_at_more(days, n, before[i].1);
            } else {
                assert(all[i] == block[i - before.len()]);
                assert(days[n].0 == all[i].1.day && is_line_record(days[n].1, all[i].1));
            }
        }
        assert forall|i: int, j: int|
            0 <= i < j < all.len() && (#[trigger] all[i]).1.day == (#[trigger] all[j]).1.day implies all[i].1.offset
            < all[j].1.offset by {
            if j < before.len() {
                assert(all[i] == before[i] && all[j] == before[j]);
            } else if i >= before.len() {
                assert(all[i] == block[i - before.len()] && all[j] == block[j - before.len()]);
            } else {
                assert(all[i] == before[i] && all[j] == block[j - before.len()]);
                let r = before[i].1;
                assert(points_at(front, r));
                let d = choose|d: int|
                    0 <= d < front.len() && (#[trigger] front[d]).0 == r.day && is_line_record(front[d].1, r);
                assert(front[d] == days[d]);
                assert(days[d].0 != days[n].0);
            }
        }
    }
}

/// Where no two indexes are under the same id, the records of the index at a
/// place are the records found under its id.
pub proof fn lemma_distinct_lookup(users: Seq<(Seq<char>, Seq<IndexRecord>)>, u: int)
    requires
        distinct_users(users),
        0 <= u < users.len(),
    ensures
        records_for(users, users[u].0) == users[u].1,
    decreases users.len(),
{
    if u > 0 {
        let rest = users.drop_first();
        assert(distinct_users(rest)) by {
            assert forall|i: int, j: int| 0 <= i < j < rest.len() implies (#[trigger] rest[i]).0 != (
            #[trigger] rest[j]).0 by {
                assert(rest[i] == users[i + 1] && rest[j] == users[j + 1]);
            }
        }
        assert(rest[u - 1] == users[u]);
        assert(users[0].0 != users[u].0);
        lemma_distinct_lookup(rest, u - 1);
    }
}

/// The records that go to the index of one user out of sound entries point at
/// lines, and among those of the same day a later one lies behind an earlier
/// one.
pub proof fn lemma_user_records_sound(
    days: Seq<(u32, Seq<u8>)>,
    entries: Seq<(Seq<char>, IndexRecord)>,
    id: Seq<char>,
)
    requires
        entries_point(days, entries),
        entries_rising(entries),
    ensures
        forall|k: int|
            0 <= k < records_among(entries, id).len() ==> points_at(days, #[trigger] records_among(entries, id)[k]),
        rising(records_among(entries, id)),
    decreases entries.len(),
{
    lemma_records_among_all(entries, id, |r: IndexRecord| points_at(days, r));
    if entries.len() > 0 {
        let front = entries.drop_last();
        let last = entries[entries.len() - 1];
        assert(entries_point(days, front)) by {
            assert forall|i: int| 0 <= i < front.len() implies points_at(days, (#[trigger] front[i]).1) by {
                assert(front[i] == entries[i]);
            }
        }
        assert(entries_rising(front)) by {
            assert forall|i: int, j: int|
                0 <= i < j < front.len() && (#[trigger] front[i]).1.day == (#[trigger] front[j]).1.day implies front[i].1.offset
                < front[j].1.offset by {
                assert(front[i] == entries[i] && front[j] == entries[j]);
            }
        }
        lemma_user_records_sound(days, front, id);
        assert forall|j: int| 0 <= j < front.len() implies (|r: IndexRecord|
            r.day == last.1.day ==> r.offset < last.1.offset)((#[trigger] front[j]).1) by {
            assert(front[j] == entries[j]);
        }
        lemma_records_among_all(front, id, |r: IndexRecord| r.day == last.1.day ==> r.offset < last.1.offset);
        let before = records_among(front, id);
        let now = records_among(entries, id);
        assert forall|i: int, j: int|
            0 <= i < j < now.len() && (#[trigger] now[i]).day == (#[trigger] now[j]).day implies now[i].offset
            < now[j].offset by {
            assert(now[i] == before[i]);
            if j < before.len() {
                assert(now[j] == before[j]);
            } else {
                assert(now[j] == last.1);
            }
        }
    }
}

/// In the indexes that the files of a month determine, where no two files are
/// of the same day: no two indexes are under the same id, every record of
/// every index points at one whole line of the file of its day, and within an
/// index the records of one day lie each behind the one before.
pub proof fn lemma_rebuilt_index_sound(days: Seq<(u32, Seq<u8>)>, directory: Seq<(Seq<char>, Seq<char>)>)
    requires
        distinct_days(days),
        sizes_fit(days),
    ensures
        distinct_users(month_index_of(days, directory)),
        forall|u: int, k: int|
            0 <= u < month_index_of(days, directory).len() && 0 <= k < month_index_of(days, directory)[u].1.len()
                ==> points_at(days, #[trigger] month_index_of(days, directory)[u].1[k]),
        forall|u: int|
            0 <= u < month_index_of(days, directory).len() ==> rising(
                (#[trigger] month_index_of(days, directory)[u]).1,
            ),
{
    let entries = month_entries(days, directory);
    let index = month_index_of(days, directory);
    lemma_month_entries_sound(days, directory);
    lemma_with_entries_distinct(entries);
    assert forall|u: int| 0 <= u < index.len() implies rising((#[trigger] index[u]).1) && (forall|k: int|
        0 <= k < index[u].1.len() ==> points_at(days, #[trigger] index[u].1[k])) by {
        lemma_distinct_lookup(index, u);
        lemma_records_of_entries(entries, index[u].0);
        lemma_user_records_sound(days, entries, index[u].0);
    }
}

/// The text is one of the lines of one of the files.
pub open spec fn in_channel(days: Seq<(u32, Seq<u8>)>, t: Seq<char>) -> bool {
    exists|d: int| 0 <= d < days.len() && channel_lines((#[trigger] days[d]).1).contains(t)
}

/// A line of one of the files of a month is among the lines of the month.
pub proof fn lemma_in_channel_month(days: Seq<(u32, Seq<u8>)>, t: Seq<char>)
    requires
        in_channel(days, t),
    ensures
        channel_month_lines(days).contains(t),
    decreases days.len(),
{
    let d = choose|d: int| 0 <= d < days.len() && channel_lines((#[trigger] days[d]).1).contains(t);
    let front = days.drop_last();
    let before = channel_month_lines(front);
    let block = channel_lines(days.last().1);
    let all = channel_month_lines(days);
    if d == days.len() - 1 {
        let i = choose|i: int| 0 <= i < block.len() && block[i] == t;
        assert(all[before.len() + i] == t);
    } else {
        assert(front[d] == days[d]);
        lemma_in_channel_month(front, t);
        let i = choose|i: int| 0 <= i < before.len() && before[i] == t;
        assert(all[i] == t);
    }
}

/// A line of bytes that is text is among the texts of the lines.
pub proof fn lemma_text_among(lines: Seq<Seq<u8>>, k: int)
    requires
        0 <= k < lines.len(),
        text_of_bytes(lines[k]) is Some,
    ensures
        texts_among(lines).contains(text_of_bytes(lines[k])->0),
    decreases lines.len(),
{
    let front = lines.drop_last();
    let before = texts_among(front);
    let now = texts_among(lines);
    if k == lines.len() - 1 {
        assert(now[now.len() - 1] == text_of_bytes(lines[k])->0);
    } else {
        assert(front[k] == lines[k]);
        lemma_text_among(front, k);
        let t = text_of_bytes(lines[k])->0;
        let i = choose|i: int| 0 <= i < before.len() && before[i] == t;
        assert(now[i] == t);
    }
}

/// The line that a record reads from a file, where the record points at a line
/// of the file, is one of the lines of the file.
pub proof fn lemma_record_line_in_file(b: Seq<u8>, r: IndexRecord)
    requires
        is_line_record(b, r),
        record_line(b, r) is Some,
    ensures
        channel_lines(b).contains(record_line(b, r)->0),
{
    let k = choose|k: int| 0 <= k < line_spans(b).len() && #[trigger] line_spans(b)[k] == (r.offset as int, r.length as int);
    assert(lines_of(b)[k] == span_bytes(b, line_spans(b)[k]));
    assert(lines_of(b)[k] == record_bytes_in(b, r));
    lemma_text_among(lines_of(b), k);
}

/// What holds of every line that a record of the day reads from the file
/// holds of every line of the day that the records give.
pub proof fn lemma_day_lines_all(records: Seq<IndexRecord>, day: u32, b: Seq<u8>, p: spec_fn(Seq<char>) -> bool)
    requires
        forall|i: int|
            0 <= i < records.len() && (#[trigger] records[i]).day == day && record_line(b, records[i]) is Some
                ==> p(record_line(b, records[i])->0),
    ensures
        forall|k: int| 0 <= k < day_lines(records, day, b).len() ==> p(#[trigger] day_lines(records, day, b)[k]),
    decreases records.len(),
{
    if records.len() > 0 {
        let front = records.drop_last();
        let last = records[records.len() - 1];
        assert forall|i: int|
            0 <= i < front.len() && (#[trigger] front[i]).day == day && record_line(b, front[i]) is Some implies p(
            record_line(b, front[i])->0,
        ) by {
            assert(front[i] == records[i]);
        }
        lemma_day_lines_all(front, day, b, p);
        let before = day_lines(front, day, b);
        let now = day_lines(records, day, b);
        assert forall|k: int| 0 <= k < now.len() implies p(#[trigger] now[k]) by {
            if k < before.len() {
                assert(now[k] == before[k]);
            } else {
                assert(now[k] == record_line(b, last)->0);
            }
        }
    }
}

/// Where no two files are of the same day and every record points at a line
/// of the file of its day, every line that a query for a user's month gives
/// is one of the lines of one of the files.
pub proof fn lemma_user_lines_in_channel(records: Seq<IndexRecord>, days: Seq<(u32, Seq<u8>)>, n: int)
    requires
        distinct_days(days),
        0 <= n <= days.len(),
        forall|i: int| 0 <= i < records.len() ==> points_at(days, #[trigger] records[i]),
    ensures
        forall|k: int|
            0 <= k < month_lines(records, days.take(n)).len() ==> in_channel(
                days,
                #[trigger] month_lines(records, days.take(n))[k],
            ),
    decreases n,
{
    if n > 0 {
        lemma_user_lines_in_channel(records, days, n - 1);
        let front = days.take(n - 1);
        assert(days.take(n).drop_last() == front);
        assert(days.take(n).last() == days[n - 1]);
        let day = days[n - 1].0;
        let b = days[n - 1].1;
        let before = month_lines(records, front);
        let block = day_lines(records, day, b);
        let now = month_lines(records, days.take(n));
        assert(now == before + block);
        assert forall|i: int|
            0 <= i < records.len() && (#[trigger] records[i]).day == day && record_line(b, records[i]) is Some implies (
        |t: Seq<char>| in_channel(days, t))(record_line(b, records[i])->0) by {
            let r = records[i];
            assert(points_at(days, r));
            let d = choose|d: int| 0 <= d < days.len() && (#[trigger] days[d]).0 == r.day && is_line_record(days[d].1, r);
            if d != n - 1 {
                if d < n - 1 {
                    assert(days[d].0 != days[n - 1].0);
                } else {
                    assert(days[n - 1].0 != days[d].0);
                }
            }
            lemma_record_line_in_file(b, r);
            assert(channel_lines(days[n - 1].1).contains(record_line(b, r)->0));
        }
        lemma_day_lines_all(records, day, b, |t: Seq<char>| in_channel(days, t));
        assert forall|k: int| 0 <= k < now.len() implies in_channel(days, #[trigger] now[k]) by {
            if k < before.len() {
                assert(now[k] == before[k]);
            } else {
                assert(now[k] == block[k - before.len()]);
            }
        }
    }
}

/// A query for the month of a user, over the index that the files of the
/// month determine, gives only lines that the files of the channel hold.
pub proof fn lemma_user_month_within_channel(
    days: Seq<(u32, Seq<u8>)>,
    directory: Seq<(Seq<char>, Seq<char>)>,
    id: Seq<char>,
)
    requires
        distinct_days(days),
        sizes_fit(days),
    ensures
        forall|k: int|
            0 <= k < month_lines(records_for(month_index_of(days, directory), id), days).len()
                ==> channel_month_lines(days).contains(
                #[trigger] month_lines(records_for(month_index_of(days, directory), id), days)[k],
            ),
{
    let entries = month_entries(days, directory);
    let lines = month_lines(records_for(month_index_of(days, directory), id), days);
    lemma_month_entries_sound(days, directory);
    lemma_records_of_entries(entries, id);
    lemma_user_records_sound(days, entries, id);
    assert(days.take(days.len() as int) == days);
    lemma_user_lines_in_channel(records_for(month_index_of(days, directory), id), days, days.len() as int);
    assert forall|k: int| 0 <= k < lines.len() implies channel_month_lines(days).contains(#[trigger] lines[k]) by {
        lemma_in_channel_month(days, lines[k]);
    }
}

} // verus!
