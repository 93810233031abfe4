use crate::frame::pairs_of;
use crate::index::{
    distinct_users, lemma_records_after_record, lemma_records_of_entries, lemma_with_entries_distinct,
    lemma_with_record_distinct, records_for, with_record, MonthIndex,
};
use crate::lines::{is_closed, lemma_spans_append, line_spans, NEWLINE};
use crate::reader::{channel_month_lines, in_order, month_lines, read_user_month};
use crate::record::{encode_index, index_bytes, lemma_index_round_trip, IndexRecord};
use crate::reindexer::{days_of, month_entries, month_index_of, rebuild_month, texts_of, DayLog};
use crate::soundness::{
    distinct_days, is_line_record, lemma_distinct_lookup, lemma_in_channel_month, lemma_line_record_is_line,
    lemma_month_entries_sound, lemma_user_lines_in_channel, lemma_user_records_sound, points_at, rising,
    sizes_fit,
};
use crate::store::{append_error, place_line, AppendError};
use crate::users::str_of;
use vstd::prelude::*;
use vstd::string::StringSliceAdditionalSpecFns;

verus! {

/// The records point at lines of the files of their days, and among those of
/// the same day a later one lies behind an earlier one.
pub open spec fn records_sound(days: Seq<(u32, Seq<u8>)>, rs: Seq<IndexRecord>) -> bool {
    &&& forall|k: int| 0 <= k < rs.len() ==> points_at(days, #[trigger] rs[k])
    &&& rising(rs)
}

/// The files and indexes of a month fit together: no two files are of the
/// same day, no two indexes are under the same id, and the records of every
/// user are sound.
pub open spec fn archive_sound(days: Seq<(u32, Seq<u8>)>, index: Seq<(Seq<char>, Seq<IndexRecord>)>) -> bool {
    &&& distinct_days(days)
    &&& distinct_users(index)
    &&& forall|id: Seq<char>| records_sound(days, #[trigger] records_for(index, id))
}

/// Every file is empty or ends in a newline.
pub open spec fn all_closed(days: Seq<(u32, Seq<u8>)>) -> bool {
    forall|d: int| 0 <= d < days.len() ==> is_closed((#[trigger] days[d]).1)
}

/// The place of the file of a day, or the number of files where there is none.
pub open spec fn day_position(days: Seq<(u32, Seq<u8>)>, day: u32) -> int
    decreases days.len(),
{
    if days.len() == 0 {
        0
    } else if days[0].0 == day {
        0
    } else {
        1 + day_position(days.drop_first(), day)
    }
}

/// The size of the file of a day; nothing where there is none.
pub open spec fn day_size(days: Seq<(u32, Seq<u8>)>, day: u32) -> int {
    if day_position(days, day) < days.len() {
        days[day_position(days, day)].1.len() as int
    } else {
        0
    }
}

/// The files after a line was appended to the file of a day: the line and a
/// newline stand at the end of that file, which is new and last where the day
/// had none.
pub open spec fn with_line(days: Seq<(u32, Seq<u8>)>, day: u32, line: Seq<u8>) -> Seq<(u32, Seq<u8>)> {
    let p = day_position(days, day);
    if p < days.len() {
        days.update(p, (day, days[p].1 + line.push(NEWLINE)))
    } else {
        days.push((day, line.push(NEWLINE)))
    }
}

/// The record of a line that is appended to the file of a day.
pub open spec fn appended_record(days: Seq<(u32, Seq<u8>)>, day: u32, line: Seq<u8>) -> IndexRecord {
    IndexRecord { day, offset: day_size(days, day) as u64, length: line.len() as u32 }
}

/// The indexes after a line of a user was appended to the file of a day. A
/// line of nobody leaves them as they are.
pub open spec fn with_line_record(
    index: Seq<(Seq<char>, Seq<IndexRecord>)>,
    days: Seq<(u32, Seq<u8>)>,
    day: u32,
    line: Seq<u8>,
    user: Option<Seq<char>>,
) -> Seq<(Seq<char>, Seq<IndexRecord>)> {
    match user {
        Some(id) => with_record(index, id, appended_record(days, day, line)),
        None => index,
    }
}

/// The place of a day lies within the files or just behind them; the file at
/// the place is of the day and none before it is.
pub proof fn lemma_day_position(days: Seq<(u32, Seq<u8>)>, day: u32)
    ensures
        0 <= day_position(days, day) <= days.len(),
        day_position(days, day) < days.len() ==> days[day_position(days, day)].0 == day,
        forall|j: int| 0 <= j < day_position(days, day) ==> (#[trigger] days[j]).0 != day,
    decreases days.len(),
{
    if days.len() > 0 && days[0].0 != day {
        lemma_day_position(days.drop_first(), day);
        assert forall|j: int| 0 <= j < day_position(days, day) implies (#[trigger] days[j]).0 != day by {
            if j > 0 {
                assert(days.drop_first()[j - 1] == days[j]);
            }
        }
    }
}

/// A record that points at a line of a closed file still does so after a line
/// was appended to the file.
pub proof fn lemma_line_record_stays(b: Seq<u8>, line: Seq<u8>, r: IndexRecord)
    requires
        is_closed(b),
        !line.contains(NEWLINE),
        is_line_record(b, r),
    ensures
        is_line_record(b + line.push(NEWLINE), r),
{
    lemma_spans_append(b, line, 0);
    let k = choose|k: int| 0 <= k < line_spans(b).len() && #[trigger] line_spans(b)[k] == (r.offset as int, r.length as int);
    assert(line_spans(b + line.push(NEWLINE))[k] == line_spans(b)[k]);
}

/// Appending a line to the file of a day keeps the days distinct and the files
/// closed, keeps every record pointing at its line, and puts the new line
/// where its record says.
pub proof fn lemma_with_line(days: Seq<(u32, Seq<u8>)>, day: u32, line: Seq<u8>)
    requires
        distinct_days(days),
        all_closed(days),
        !line.contains(NEWLINE),
        line.len() <= u32::MAX,
        day_size(days, day) <= u64::MAX,
    ensures
        distinct_days(with_line(days, day, line)),
        all_closed(with_line(days, day, line)),
        points_at(with_line(days, day, line), appended_record(days, day, line)),
        forall|r: IndexRecord| points_at(days, r) ==> #[trigger] points_at(with_line(days, day, line), r),
        forall|r: IndexRecord| #[trigger] points_at(days, r) && r.day == day ==> r.offset < day_size(days, day),
{
    lemma_day_position(days, day);
    let p = day_position(days, day);
    let after = with_line(days, day, line);
    let rec = appended_record(days, day, line);
    let b = if p < days.len() {
        days[p].1
    } else {
        Seq::<u8>::empty()
    };
    assert(is_closed(b));
    lemma_spans_append(b, line, 0);
    let grown = b + line.push(NEWLINE);
    assert(p >= days.len() ==> grown =~= line.push(NEWLINE));
    assert(after[p] == (day, grown));
    assert(line_spans(grown)[line_spans(b).len() as int] == (rec.offset as int, rec.length as int));
    assert(is_line_record(after[p].1, rec));
    assert forall|i: int, j: int| 0 <= i < j < after.len() implies (#[trigger] after[i]).0 != (
    #[trigger] after[j]).0 by {
        if j < days.len() {
            assert(after[i].0 == days[i].0 && after[j].0 == days[j].0);
        } else {
            assert(after[i].0 == days[i].0);
        }
    }
    assert forall|d: int| 0 <= d < after.len() implies is_closed((#[trigger] after[d]).1) by {
        if d != p {
            assert(after[d] == days[d]);
        }
    }
    assert forall|r: IndexRecord| points_at(days, r) implies #[trigger] points_at(after, r) by {
        let d = choose|d: int| 0 <= d < days.len() && (#[trigger] days[d]).0 == r.day && is_line_record(days[d].1, r);
        if d == p {
            lemma_line_record_stays(b, line, r);
            assert(after[d].0 == r.day && is_line_record(after[d].1, r));
        } else {
            assert(after[d] == days[d]);
        }
    }
    assert forall|r: IndexRecord| #[trigger] points_at(days, r) && r.day == day implies r.offset < day_size(
        days,
        day,
    ) by {
        let d = choose|d: int| 0 <= d < days.len() && (#[trigger] days[d]).0 == r.day && is_line_record(days[d].1, r);
        if d < p {
            assert(days[d].0 != day);
        } else if d > p {
            assert(days[p].0 != days[d].0);
        }
        lemma_line_record_is_line(days[d].1, r);
    }
}

/// Appending a line of a user to the file of a day, and its record to the
/// index of the user, keeps files and indexes fitting together.
pub proof fn lemma_ingest_sound(
    days: Seq<(u32, Seq<u8>)>,
    index: Seq<(Seq<char>, Seq<IndexRecord>)>,
    day: u32,
    line: Seq<u8>,
    user: Option<Seq<char>>,
)
    requires
        archive_sound(days, index),
        all_closed(days),
        !line.contains(NEWLINE),
        line.len() <= u32::MAX,
        day_size(days, day) <= u64::MAX,
    ensures
        archive_sound(with_line(days, day, line), with_line_record(index, days, day, line, user)),
        all_closed(with_line(days, day, line)),
{
    lemma_with_line(days, day, line);
    let after = with_line(days, day, line);
    let rec = appended_record(days, day, line);
    let grown = with_line_record(index, days, day, line, user);
    if let Some(id) = user {
        lemma_with_record_distinct(index, id, rec);
    }
    assert forall|other: Seq<char>| records_sound(after, #[trigger] records_for(grown, other)) by {
        let old_rs = records_for(index, other);
        assert(records_sound(days, old_rs));
        let new_rs = records_for(grown, other);
        if let Some(id) = user {
            lemma_records_after_record(index, id, rec, other);
        }
        assert forall|k: int| 0 <= k < new_rs.len() implies points_at(after, #[trigger] new_rs[k]) by {
            if k < old_rs.len() {
                assert(new_rs[k] == old_rs[k]);
                assert(points_at(days, old_rs[k]));
            }
        }
        assert forall|i: int, j: int|
            0 <= i < j < new_rs.len() && (#[trigger] new_rs[i]).day == (#[trigger] new_rs[j]).day implies new_rs[i].offset
            < new_rs[j].offset by {
            assert(new_rs[i] == old_rs[i]);
            if j < old_rs.len() {
                assert(new_rs[j] == old_rs[j]);
            } else {
                assert(points_at(days, old_rs[i]));
            }
        }
    }
}

/// Where the files and indexes of a month fit together, every record of every
/// index points at one whole line of the file of its day, and within an index
/// the records of one day lie each behind the one before.
pub proof fn lemma_sound_archive(days: Seq<(u32, Seq<u8>)>, index: Seq<(Seq<char>, Seq<IndexRecord>)>)
    requires
        archive_sound(days, index),
    ensures
        forall|u: int, k: int|
            0 <= u < index.len() && 0 <= k < index[u].1.len() ==> points_at(days, #[trigger] index[u].1[k]),
        forall|u: int| 0 <= u < index.len() ==> rising((#[trigger] index[u]).1),
{
    assert forall|u: int| 0 <= u < index.len() implies rising((#[trigger] index[u]).1) && (forall|k: int|
        0 <= k < index[u].1.len() ==> points_at(days, #[trigger] index[u].1[k])) by {
        lemma_distinct_lookup(index, u);
        assert(records_sound(days, records_for(index, index[u].0)));
    }
}

/// Where the files and indexes of a month fit together, a query for the month
/// of a user gives only lines that the files of the channel hold.
pub proof fn lemma_sound_archive_reads_channel(
    days: Seq<(u32, Seq<u8>)>,
    index: Seq<(Seq<char>, Seq<IndexRecord>)>,
    id: Seq<char>,
)
    requires
        archive_sound(days, index),
    ensures
        forall|k: int|
            0 <= k < month_lines(records_for(index, id), days).len() ==> channel_month_lines(days).contains(
                #[trigger] month_lines(records_for(index, id), days)[k],
            ),
{
    let lines = month_lines(records_for(index, id), days);
    assert(records_sound(days, records_for(index, id)));
    assert(days.take(days.len() as int) == days);
    lemma_user_lines_in_channel(records_for(index, id), days, days.len() as int);
    assert forall|k: int| 0 <= k < lines.len() implies channel_month_lines(days).contains(#[trigger] lines[k]) by {
        lemma_in_channel_month(days, lines[k]);
    }
}

/// The files of one month of a channel together with the indexes of its
/// users, held in memory.
#[derive(Debug, Clone)]
pub struct MonthArchive {
    pub days: Vec<DayLog>,
    pub index: MonthIndex,
}

/// The indexes of an archive after it was reindexed once more, whatever they
/// were before: those that its files determine.
pub open spec fn reindexed(
    days: Seq<(u32, Seq<u8>)>,
    before: Seq<(Seq<char>, Seq<IndexRecord>)>,
    directory: Seq<(Seq<char>, Seq<char>)>,
) -> Seq<(Seq<char>, Seq<IndexRecord>)> {
    month_index_of(days, directory)
}

/// The indexes of an archive after it was reindexed `n` times.
pub open spec fn reindexed_times(
    days: Seq<(u32, Seq<u8>)>,
    before: Seq<(Seq<char>, Seq<IndexRecord>)>,
    directory: Seq<(Seq<char>, Seq<char>)>,
    n: nat,
) -> Seq<(Seq<char>, Seq<IndexRecord>)>
    decreases n,
{
    if n == 0 {
        before
    } else {
        reindexed(days, reindexed_times(days, before, directory, (n - 1) as nat), directory)
    }
}

/// Reindexing the same files once or more often gives the same indexes,
/// whatever the indexes were before.
pub proof fn lemma_reindex_idempotent(
    days: Seq<(u32, Seq<u8>)>,
    before: Seq<(Seq<char>, Seq<IndexRecord>)>,
    other: Seq<(Seq<char>, Seq<IndexRecord>)>,
    directory: Seq<(Seq<char>, Seq<char>)>,
    n: nat,
)
    requires
        n >= 1,
    ensures
        reindexed_times(days, before, directory, n) == reindexed(days, before, directory),
        reindexed_times(days, before, directory, n) == reindexed_times(days, other, directory, 1),
        index_files(reindexed_times(days, before, directory, n)) == index_files(
            reindexed(days, other, directory),
        ),
{
    assert(reindexed_times(days, other, directory, 1) == reindexed(
        days,
        reindexed_times(days, other, directory, 0),
        directory,
    ));
}

/// The index files of a month: under each user's id the bytes of the user's
/// records.
pub open spec fn index_files(index: Seq<(Seq<char>, Seq<IndexRecord>)>) -> Seq<(Seq<char>, Seq<u8>)> {
    Seq::new(index.len(), |u: int| (index[u].0, index_bytes(index[u].1)))
}

impl MonthArchive {
    /// The files and indexes fit together.
    pub open spec fn sound(&self) -> bool {
        archive_sound(days_of(self.days@), self.index@)
    }

    /// Every file is empty or ends in a newline.
    pub open spec fn closed(&self) -> bool {
        all_closed(days_of(self.days@))
    }

    /// An archive without files and indexes.
    pub fn new() -> (r: MonthArchive)
        ensures
            r.sound(),
            r.closed(),
            days_of(r.days@) == Seq::<(u32, Seq<u8>)>::empty(),
            r.index@ == Seq::<(Seq<char>, Seq<IndexRecord>)>::empty(),
    {
        let r = MonthArchive { days: Vec::new(), index: MonthIndex::new() };
        assert(days_of(r.days@) =~= Seq::<(u32, Seq<u8>)>::empty());
        assert forall|id: Seq<char>| records_sound(days_of(r.days@), #[trigger] records_for(r.index@, id)) by {
            assert(records_for(r.index@, id) =~= Seq::<IndexRecord>::empty());
        }
        r
    }

    /// Finds the place of the file of a day.
    pub fn find_day(&self, day: u32) -> (r: usize)
        ensures
            r == day_position(days_of(self.days@), day),
    {
        let n: usize = self.days.len();
        let mut i: usize = 0;
        let ghost days = days_of(self.days@);
        assert(days.skip(0) == days);
        while i < n
            invariant
                i <= n,
                n == self.days@.len(),
                days == days_of(self.days@),
                day_position(days, day) == i + day_position(days.skip(i as int), day),
            decreases n - i,
        {
            assert(days.skip(i as int).drop_first() == days.skip(i as int + 1));
            assert(days.skip(i as int)[0] == days[i as int]);
            if self.days[i].day == day {
                return i;
            }
            i += 1;
        }
        n
    }

    /// Throws the indexes away and builds them again from the files.
    pub fn reindex(&mut self, directory: &Vec<(String, String)>)
        ensures
            final(self).days == old(self).days,
            final(self).index@ == reindexed(days_of(old(self).days@), old(self).index@, pairs_of(directory@)),
            distinct_days(days_of(old(self).days@)) ==> final(self).sound(),
    {
        self.index = rebuild_month(&self.days, directory);
        proof {
            let days = days_of(self.days@);
            let dir = pairs_of(directory@);
            if distinct_days(days) {
                assert(sizes_fit(days)) by {
                    assert forall|i: int| 0 <= i < days.len() implies (#[trigger] days[i]).1.len() <= u64::MAX by {
                        assert(days[i].1.len() == self.days@[i].bytes.len());
                    }
                }
                lemma_month_entries_sound(days, dir);
                lemma_with_entries_distinct(month_entries(days, dir));
                assert forall|id: Seq<char>| records_sound(days, #[trigger] records_for(self.index@, id)) by {
                    lemma_records_of_entries(month_entries(days, dir), id);
                    lemma_user_records_sound(days, month_entries(days, dir), id);
                }
            }
        }
    }

    /// Appends a line to the file of a day and, where the line belongs to a
    /// user, its record to the index of the user. A line that cannot be
    /// placed leaves the archive as it was.
    pub fn ingest(&mut self, day: u32, raw_line: &str, user_id: Option<&str>) -> (r: Result<
        IndexRecord,
        AppendError,
    >)
        requires
            old(self).sound(),
            old(self).closed(),
        ensures
            final(self).sound(),
            final(self).closed(),
            match r {
                Ok(record) => {
                    &&& append_error(day_size(days_of(old(self).days@), day) as u64, raw_line.spec_bytes()) is None
                    &&& record == appended_record(days_of(old(self).days@), day, raw_line.spec_bytes())
                    &&& days_of(final(self).days@) == with_line(days_of(old(self).days@), day, raw_line.spec_bytes())
                    &&& final(self).index@ == with_line_record(
                        old(self).index@,
                        days_of(old(self).days@),
                        day,
                        raw_line.spec_bytes(),
                        str_of(user_id),
                    )
                },
                Err(e) => {
                    &&& append_error(day_size(days_of(old(self).days@), day) as u64, raw_line.spec_bytes()) == Some(
                        e,
                    )
                    &&& days_of(final(self).days@) == days_of(old(self).days@)
                    &&& final(self).index@ == old(self).index@
                },
            },
    {
        let ghost days = days_of(self.days@);
        let ghost line = raw_line.spec_bytes();
        let p = self.find_day(day);
        proof {
            lemma_day_position(days, day);
            if p < self.days@.len() {
                assert(days[p as int].1.len() == self.days@[p as int].bytes.len());
            }
        }
        let size: u64 = if p < self.days.len() {
            self.days[p].bytes.len() as u64
        } else {
            0
        };
        let (placement, mut written) = match place_line(size, raw_line) {
            Ok(placed) => placed,
            Err(e) => {
                return Err(e);
            },
        };
        proof {
            lemma_ingest_sound(days, self.index@, day, line, str_of(user_id));
        }
        if p < self.days.len() {
            self.days[p].bytes.append(&mut written);
        } else {
            self.days.push(DayLog { day, bytes: written });
        }
        assert(days_of(self.days@) =~= with_line(days, day, line));
        let record = IndexRecord { day, offset: placement.offset, length: placement.length };
        match user_id {
            Some(id) => {
                self.index.add(id, record);
            },
            None => {},
        }
        Ok(record)
    }

    /// Reads the lines of one user, from the user's records in the archive.
    pub fn read_user(&self, user_id: &str, reverse: bool) -> (r: Vec<String>)
        ensures
            texts_of(r@) == in_order(
                month_lines(records_for(self.index@, user_id@), days_of(self.days@)),
                reverse,
            ),
    {
        let records = self.index.records(user_id);
        let index = encode_index(&records);
        proof {
            lemma_index_round_trip(records@);
        }
        read_user_month(index.as_slice(), &self.days, reverse)
    }
}

} // verus!
