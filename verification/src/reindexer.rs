use crate::decimal::{decimal, digits_of};
use crate::frame::{archive_frame_of, pairs_of, read_archive_frame, tag_value};
use crate::index::{entries_of, with_entries, IndexEntry, MonthIndex, UserIndex};
use crate::lines::{find_lines, lemma_spans_are_lines, line_spans, span_bytes, spans_of, LineSpan};
use crate::message::find_tag;
use crate::paths::{get_user_index_path, get_users_path, user_index_path, users_path};
use crate::record::{encode_index, index_bytes, IndexRecord};
use crate::text::{bytes_to_text, text_of_bytes};
use crate::users::{extract_user, frame_user, NameView, UserKey};
use vstd::prelude::*;
use vstd::slice::slice_subrange;

verus! {

/// A line of a channel file that belongs to a user, and where it lies.
#[derive(Debug, Clone)]
pub struct LineOwner {
    pub user: UserKey,
    pub record: IndexRecord,
}

/// What a list of owned lines holds.
pub open spec fn owners_of(v: Seq<LineOwner>) -> Seq<(NameView, IndexRecord)> {
    Seq::new(v.len(), |i: int| (v[i].user@, v[i].record))
}

/// The record that points at a span of the file of a day.
pub open spec fn span_record(day: u32, span: (int, int)) -> IndexRecord {
    IndexRecord { day, offset: span.0 as u64, length: span.1 as u32 }
}

/// The user to whom the line at a span belongs. A line belongs to nobody where
/// its length does not fit in a record, where it is no text, where it is not
/// archived under a frame, or where its frame belongs to nobody.
pub open spec fn span_owner(b: Seq<u8>, span: (int, int)) -> Option<NameView> {
    if span.1 > u32::MAX {
        None
    } else {
        match text_of_bytes(span_bytes(b, span)) {
            None => None,
            Some(t) => match archive_frame_of(t) {
                None => None,
                Some(f) => frame_user(f),
            },
        }
    }
}

/// The owned lines among the given spans of a file, in their order.
pub open spec fn owners_among(day: u32, b: Seq<u8>, spans: Seq<(int, int)>) -> Seq<(NameView, IndexRecord)>
    decreases spans.len(),
{
    if spans.len() == 0 {
        Seq::empty()
    } else {
        let before = owners_among(day, b, spans.drop_last());
        match span_owner(b, spans.last()) {
            Some(u) => before.push((u, span_record(day, spans.last()))),
            None => before,
        }
    }
}

/// The owned lines of the file of a day, in the order of the file.
pub open spec fn day_owners(day: u32, b: Seq<u8>) -> Seq<(NameView, IndexRecord)> {
    owners_among(day, b, line_spans(b))
}

/// Goes through the file of a day line by line and lists each line that
/// belongs to a user, with the record that points at it. Lines that are no
/// frames are passed over.
pub fn scan_day(day: u32, bytes: &[u8]) -> (r: Vec<LineOwner>)
    ensures
        owners_of(r@) == day_owners(day, bytes@),
{
    let spans = find_lines(bytes);
    let n: usize = spans.len();
    let total: usize = bytes.len();
    let mut out: Vec<LineOwner> = Vec::new();
    let mut i: usize = 0;
    let ghost all = line_spans(bytes@);
    assert(all.take(0) =~= Seq::<(int, int)>::empty());
    assert(owners_of(out@) =~= owners_among(day, bytes@, all.take(0)));
    while i < n
        invariant
            i <= n,
            n == spans@.len(),
            total == bytes@.len(),
            all == line_spans(bytes@),
            spans_of(spans@) == all,
            owners_of(out@) == owners_among(day, bytes@, all.take(i as int)),
        decreases n - i,
    {
        let span: LineSpan = spans[i];
        proof {
            assert(spans_of(spans@)[i as int] == (span.offset as int, span.length as int));
            lemma_spans_are_lines(bytes@, 0, i as int);
            assert(all.take(i + 1).drop_last() == all.take(i as int));
            assert(all.take(i + 1).last() == all[i as int]);
        }
        let ghost before = owners_of(out@);
        if span.length <= 0xFFFF_FFFF {
            let raw = slice_subrange(bytes, span.offset, span.offset + span.length);
            match bytes_to_text(raw) {
                Some(text) => match read_archive_frame(text) {
                    Some(frame) => match extract_user(&frame) {
                        Some(user) => {
                            out.push(
                                LineOwner {
                                    user: user.to_key(),
                                    record: IndexRecord {
                                        day,
                                        offset: span.offset as u64,
                                        length: span.length as u32,
                                    },
                                },
                            );
                            assert(owners_of(out@) =~= before.push(
                                (user@, span_record(day, all[i as int])),
                            ));
                        },
                        None => {},
                    },
                    None => {},
                },
                None => {},
            }
        }
        i += 1;
    }
    assert(all.take(n as int) == all);
    out
}

/// The id of a user: the id itself, or the one that the directory has for the
/// login.
pub open spec fn resolved_id(directory: Seq<(Seq<char>, Seq<char>)>, name: NameView) -> Option<Seq<char>> {
    match name {
        NameView::Id(i) => Some(i),
        NameView::Login(l) => tag_value(directory, l),
    }
}

/// The entries that owned lines make once their users are resolved. A line
/// whose login the directory does not know makes none.
pub open spec fn resolved_entries(
    owners: Seq<(NameView, IndexRecord)>,
    directory: Seq<(Seq<char>, Seq<char>)>,
) -> Seq<(Seq<char>, IndexRecord)>
    decreases owners.len(),
{
    if owners.len() == 0 {
        Seq::empty()
    } else {
        let before = resolved_entries(owners.drop_last(), directory);
        match resolved_id(directory, owners.last().0) {
            Some(id) => before.push((id, owners.last().1)),
            None => before,
        }
    }
}

/// The logins among owned lines, in their order.
pub open spec fn logins_among(owners: Seq<(NameView, IndexRecord)>) -> Seq<Seq<char>>
    decreases owners.len(),
{
    if owners.len() == 0 {
        Seq::empty()
    } else {
        let before = logins_among(owners.drop_last());
        match owners.last().0 {
            NameView::Login(l) => before.push(l),
            NameView::Id(_) => before,
        }
    }
}

/// What a list of texts holds.
pub open spec fn texts_of(v: Seq<String>) -> Seq<Seq<char>> {
    Seq::new(v.len(), |i: int| v[i]@)
}

/// Lists the logins that have to be resolved before the lines can be filed.
pub fn pending_logins(owners: &Vec<LineOwner>) -> (r: Vec<String>)
    ensures
        texts_of(r@) == logins_among(owners_of(owners@)),
{
    let n: usize = owners.len();
    let mut out: Vec<String> = Vec::new();
    let mut i: usize = 0;
    let ghost all = owners_of(owners@);
    assert(all.take(0) =~= Seq::empty());
    assert(texts_of(out@) =~= logins_among(all.take(0)));
    while i < n
        invariant
            i <= n,
            n == owners@.len(),
            all == owners_of(owners@),
            texts_of(out@) == logins_among(all.take(i as int)),
        decreases n - i,
    {
        assert(all.take(i + 1).drop_last() == all.take(i as int));
        assert(all.take(i + 1).last() == all[i as int]);
        let ghost before = texts_of(out@);
        match &owners[i].user {
            UserKey::Login(l) => {
                out.push(l.clone());
                assert(texts_of(out@) =~= before.push(l@));
            },
            UserKey::Id(_) => {},
        }
        i += 1;
    }
    assert(all.take(n as int) == all);
    out
}

/// Resolves the users of owned lines with the logins that the directory
/// knows, and drops the lines whose login it does not know.
pub fn resolve_owners(owners: &Vec<LineOwner>, directory: &Vec<(String, String)>) -> (r: Vec<IndexEntry>)
    ensures
        entries_of(r@) == resolved_entries(owners_of(owners@), pairs_of(directory@)),
{
    let n: usize = owners.len();
    let mut out: Vec<IndexEntry> = Vec::new();
    let mut i: usize = 0;
    let ghost all = owners_of(owners@);
    let ghost dir = pairs_of(directory@);
    assert(all.take(0) =~= Seq::empty());
    assert(entries_of(out@) =~= resolved_entries(all.take(0), dir));
    while i < n
        invariant
            i <= n,
            n == owners@.len(),
            all == owners_of(owners@),
            dir == pairs_of(directory@),
            entries_of(out@) == resolved_entries(all.take(i as int), dir),
        decreases n - i,
    {
        assert(all.take(i + 1).drop_last() == all.take(i as int));
        assert(all.take(i + 1).last() == all[i as int]);
        let ghost before = entries_of(out@);
        let id: Option<String> = match &owners[i].user {
            UserKey::Id(id) => Some(id.clone()),
            UserKey::Login(l) => match find_tag(directory, l.as_str()) {
                Some(id) => Some(id.clone()),
                None => None,
            },
        };
        match id {
            Some(user_id) => {
                let ghost shown = user_id@;
                out.push(IndexEntry { user_id, record: owners[i].record });
                assert(entries_of(out@) =~= before.push((shown, all[i as int].1)));
            },
            None => {},
        }
        i += 1;
    }
    assert(all.take(n as int) == all);
    out
}

/// The file of one day of a month.
#[derive(Debug, Clone)]
pub struct DayLog {
    pub day: u32,
    pub bytes: Vec<u8>,
}

impl View for DayLog {
    type V = (u32, Seq<u8>);

    open spec fn view(&self) -> (u32, Seq<u8>) {
        (self.day, self.bytes@)
    }
}

/// What a list of day files holds.
pub open spec fn days_of(v: Seq<DayLog>) -> Seq<(u32, Seq<u8>)> {
    Seq::new(v.len(), |i: int| v[i]@)
}

/// The entries of the files of a month, day by day in the order given.
pub open spec fn month_entries(days: Seq<(u32, Seq<u8>)>, directory: Seq<(Seq<char>, Seq<char>)>) -> Seq<
    (Seq<char>, IndexRecord),
>
    decreases days.len(),
{
    if days.len() == 0 {
        Seq::empty()
    } else {
        month_entries(days.drop_last(), directory) + resolved_entries(
            day_owners(days.last().0, days.last().1),
            directory,
        )
    }
}

/// The indexes of a month as its files alone determine them.
pub open spec fn month_index_of(days: Seq<(u32, Seq<u8>)>, directory: Seq<(Seq<char>, Seq<char>)>) -> Seq<
    (Seq<char>, Seq<IndexRecord>),
> {
    with_entries(Seq::empty(), month_entries(days, directory))
}

/// Adding two lists of entries one after the other is adding them joined.
pub proof fn lemma_with_entries_join(
    users: Seq<(Seq<char>, Seq<IndexRecord>)>,
    a: Seq<(Seq<char>, IndexRecord)>,
    b: Seq<(Seq<char>, IndexRecord)>,
)
    ensures
        with_entries(users, a + b) == with_entries(with_entries(users, a), b),
    decreases b.len(),
{
    if b.len() == 0 {
        assert(a + b =~= a);
    } else {
        lemma_with_entries_join(users, a, b.drop_last());
        assert((a + b).drop_last() =~= a + b.drop_last());
        assert((a + b).last() == b.last());
    }
}

/// Builds the indexes of a month from its files: every file is gone through
/// in the order given, and every record goes to the index of its user.
pub fn rebuild_month(days: &Vec<DayLog>, directory: &Vec<(String, String)>) -> (r: MonthIndex)
    ensures
        r@ == month_index_of(days_of(days@), pairs_of(directory@)),
{
    let n: usize = days.len();
    let mut index = MonthIndex::new();
    let mut i: usize = 0;
    let ghost all = days_of(days@);
    let ghost dir = pairs_of(directory@);
    assert(all.take(0) =~= Seq::empty());
    while i < n
        invariant
            i <= n,
            n == days@.len(),
            all == days_of(days@),
            dir == pairs_of(directory@),
            index@ == month_index_of(all.take(i as int), dir),
        decreases n - i,
    {
        assert(all.take(i + 1).drop_last() == all.take(i as int));
        assert(all.take(i + 1).last() == all[i as int]);
        let owners = scan_day(days[i].day, days[i].bytes.as_slice());
        let entries = resolve_owners(&owners, directory);
        proof {
            lemma_with_entries_join(
                Seq::empty(),
                month_entries(all.take(i as int), dir),
                entries_of(entries@),
            );
        }
        index.add_all(&entries);
        i += 1;
    }
    assert(all.take(n as int) == all);
    index
}

/// The files of one month of a channel.
#[derive(Debug, Clone)]
pub struct MonthLogs {
    pub year: u32,
    pub month: u32,
    pub days: Vec<DayLog>,
}

/// The files of a channel, month by month.
#[derive(Debug, Clone)]
pub struct ChannelLogs {
    pub channel_id: String,
    pub months: Vec<MonthLogs>,
}

/// An index file to write: its path and its bytes.
#[derive(Debug, Clone)]
pub struct IndexFile {
    pub path: String,
    pub bytes: Vec<u8>,
}

/// What reindexing a month asks for: the directory of the user indexes, to be
/// removed with all that is in it, and the index files to write after that.
#[derive(Debug, Clone)]
pub struct MonthRebuild {
    pub users_path: String,
    pub files: Vec<IndexFile>,
}

impl View for MonthLogs {
    type V = (u32, u32, Seq<(u32, Seq<u8>)>);

    open spec fn view(&self) -> (u32, u32, Seq<(u32, Seq<u8>)>) {
        (self.year, self.month, days_of(self.days@))
    }
}

/// What a list of index files holds.
pub open spec fn files_of(v: Seq<IndexFile>) -> Seq<(Seq<char>, Seq<u8>)> {
    Seq::new(v.len(), |i: int| (v[i].path@, v[i].bytes@))
}

impl View for MonthRebuild {
    type V = (Seq<char>, Seq<(Seq<char>, Seq<u8>)>);

    open spec fn view(&self) -> (Seq<char>, Seq<(Seq<char>, Seq<u8>)>) {
        (self.users_path@, files_of(self.files@))
    }
}

/// The index files of a month: for each user, in the order of the indexes,
/// the path of the user's index and the bytes of the user's records.
pub open spec fn index_files_at(
    root: Seq<char>,
    channel_id: Seq<char>,
    year: u32,
    month: u32,
    index: Seq<(Seq<char>, Seq<IndexRecord>)>,
) -> Seq<(Seq<char>, Seq<u8>)> {
    Seq::new(
        index.len(),
        |u: int|
            (
                user_index_path(
                    root,
                    channel_id,
                    digits_of(year as nat),
                    digits_of(month as nat),
                    index[u].0,
                ),
                index_bytes(index[u].1),
            ),
    )
}

/// What reindexing a month asks for, as the files of the month alone
/// determine it.
pub open spec fn month_rebuild_of(
    root: Seq<char>,
    channel_id: Seq<char>,
    logs: (u32, u32, Seq<(u32, Seq<u8>)>),
    directory: Seq<(Seq<char>, Seq<char>)>,
) -> (Seq<char>, Seq<(Seq<char>, Seq<u8>)>) {
    (
        users_path(root, channel_id, digits_of(logs.0 as nat), digits_of(logs.1 as nat)),
        index_files_at(root, channel_id, logs.0, logs.1, month_index_of(logs.2, directory)),
    )
}

/// What a list of months holds.
pub open spec fn months_of(v: Seq<MonthLogs>) -> Seq<(u32, u32, Seq<(u32, Seq<u8>)>)> {
    Seq::new(v.len(), |i: int| v[i]@)
}

/// What a list of rebuilt months holds.
pub open spec fn rebuilds_of(v: Seq<MonthRebuild>) -> Seq<(Seq<char>, Seq<(Seq<char>, Seq<u8>)>)> {
    Seq::new(v.len(), |i: int| v[i]@)
}

/// What reindexing a channel asks for: what each of its months asks for, in
/// the order of the months.
pub open spec fn channel_rebuild_of(
    root: Seq<char>,
    channel_id: Seq<char>,
    months: Seq<(u32, u32, Seq<(u32, Seq<u8>)>)>,
    directory: Seq<(Seq<char>, Seq<char>)>,
) -> Seq<(Seq<char>, Seq<(Seq<char>, Seq<u8>)>)> {
    Seq::new(months.len(), |i: int| month_rebuild_of(root, channel_id, months[i], directory))
}

/// Makes the index file of one user.
fn index_file(root: &str, channel_id: &str, year: &str, month: &str, user: &UserIndex) -> (r: IndexFile)
    ensures
        r.path@ == user_index_path(root@, channel_id@, year@, month@, user@.0),
        r.bytes@ == index_bytes(user@.1),
{
    IndexFile {
        path: get_user_index_path(root, channel_id, year, month, user.user_id.as_str()),
        bytes: encode_index(&user.records),
    }
}

/// Rebuilds the user indexes of one month from the files of the month.
pub fn reindex_month(root: &str, channel_id: &str, logs: &MonthLogs, directory: &Vec<(String, String)>) -> (r:
    MonthRebuild)
    ensures
        r@ == month_rebuild_of(root@, channel_id@, logs@, pairs_of(directory@)),
{
    let year = decimal(logs.year as u64);
    let month = decimal(logs.month as u64);
    let index = rebuild_month(&logs.days, directory);
    let n: usize = index.users.len();
    let mut files: Vec<IndexFile> = Vec::new();
    let mut i: usize = 0;
    let ghost want = index_files_at(root@, channel_id@, logs.year, logs.month, index@);
    assert(files_of(files@) =~= want.take(0));
    while i < n
        invariant
            i <= n,
            n == index.users@.len(),
            n == want.len(),
            year@ == digits_of(logs.year as nat),
            month@ == digits_of(logs.month as nat),
            forall|j: int|
                0 <= j < n ==> #[trigger] want[j] == (
                    user_index_path(root@, channel_id@, year@, month@, index.users@[j]@.0),
                    index_bytes(index.users@[j]@.1),
                ),
            files_of(files@) == want.take(i as int),
        decreases n - i,
    {
        let ghost before = files_of(files@);
        let file = index_file(root, channel_id, year.as_str(), month.as_str(), &index.users[i]);
        let ghost shown = (file.path@, file.bytes@);
        files.push(file);
        assert(files_of(files@) =~= before.push(shown));
        assert(want.take(i + 1) =~= want.take(i as int).push(want[i as int]));
        i += 1;
    }
    assert(want.take(n as int) == want);
    MonthRebuild { users_path: get_users_path(root, channel_id, year.as_str(), month.as_str()), files }
}

/// Rebuilds the user indexes of a channel, month by month.
pub fn reindex_channel(root: &str, logs: &ChannelLogs, directory: &Vec<(String, String)>) -> (r: Vec<MonthRebuild>)
    ensures
        rebuilds_of(r@) == channel_rebuild_of(root@, logs.channel_id@, months_of(logs.months@), pairs_of(directory@)),
{
    let n: usize = logs.months.len();
    let mut out: Vec<MonthRebuild> = Vec::new();
    let mut i: usize = 0;
    let ghost want = channel_rebuild_of(root@, logs.channel_id@, months_of(logs.months@), pairs_of(directory@));
    assert(rebuilds_of(out@) =~= want.take(0));
    while i < n
        invariant
            i <= n,
            n == logs.months@.len(),
            n == want.len(),
            forall|j: int|
                0 <= j < n ==> #[trigger] want[j] == month_rebuild_of(
                    root@,
                    logs.channel_id@,
                    logs.months@[j]@,
                    pairs_of(directory@),
                ),
            rebuilds_of(out@) == want.take(i as int),
        decreases n - i,
    {
        let ghost before = rebuilds_of(out@);
        let month = reindex_month(root, logs.channel_id.as_str(), &logs.months[i], directory);
        let ghost shown = month@;
        out.push(month);
        assert(rebuilds_of(out@) =~= before.push(shown));
        assert(want.take(i + 1) =~= want.take(i as int).push(want[i as int]));
        i += 1;
    }
    assert(want.take(n as int) == want);
    out
}

/// What reindexing one channel of a run asks for. A channel whose files could
/// not be listed asks for nothing.
pub open spec fn run_step_of(
    root: Seq<char>,
    channel: Option<ChannelLogs>,
    directory: Seq<(Seq<char>, Seq<char>)>,
) -> Option<Seq<(Seq<char>, Seq<(Seq<char>, Seq<u8>)>)>> {
    match channel {
        Some(logs) => Some(channel_rebuild_of(root, logs.channel_id@, months_of(logs.months@), directory)),
        None => None,
    }
}

/// What one step of a run holds.
pub open spec fn step_of(step: Option<Vec<MonthRebuild>>) -> Option<Seq<(Seq<char>, Seq<(Seq<char>, Seq<u8>)>)>> {
    match step {
        Some(v) => Some(rebuilds_of(v@)),
        None => None,
    }
}

/// Rebuilds the user indexes of every channel. A channel whose files could
/// not be listed is passed over, and the run goes on with the next.
pub fn run(root: &str, channels: &Vec<Option<ChannelLogs>>, directory: &Vec<(String, String)>) -> (r: Vec<
    Option<Vec<MonthRebuild>>,
>)
    ensures
        r@.len() == channels@.len(),
        forall|i: int|
            0 <= i < channels@.len() ==> step_of(#[trigger] r@[i]) == run_step_of(
                root@,
                channels@[i],
                pairs_of(directory@),
            ),
{
    let n: usize = channels.len();
    let mut out: Vec<Option<Vec<MonthRebuild>>> = Vec::new();
    let mut i: usize = 0;
    while i < n
        invariant
            i <= n,
            n == channels@.len(),
            out@.len() == i,
            forall|j: int|
                0 <= j < i ==> step_of(#[trigger] out@[j]) == run_step_of(root@, channels@[j], pairs_of(directory@)),
        decreases n - i,
    {
        let step = match &channels[i] {
            Some(logs) => Some(reindex_channel(root, logs, directory)),
            None => None,
        };
        out.push(step);
        i += 1;
    }
    out
}

} // verus!
