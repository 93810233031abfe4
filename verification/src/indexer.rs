use crate::clock::{utc_accepts, utc_date, utc_date_of, utc_millis_valid};
use crate::decimal::{decimal_i64, parse_i64};
use crate::frame::{archive_frame_of, read_archive_frame, tag_value, FrameView, IrcFrame};
use crate::frame::text_of;
use crate::lines::NEWLINE;
use crate::message::find_tag;
use crate::record::{record_bytes, IndexRecord};
use crate::schema::{archivable, is_archivable, ChannelLogDate, UserLogDate};
use crate::store::{
    append_error, evicted, keys_of, position, touched, AppendError, ChannelStore, IndexWrite, Placement,
    UserIndexStore,
};
use crate::store::has_newline;
use crate::text::str_eq;
use crate::text::{trim_end, trim_end_of};
use crate::users::{extract_user, filled_tag, find_filled_tag, frame_user, NameView, UserKey};
use vstd::prelude::*;
use vstd::string::{StringExecFns, StringSliceAdditionalSpecFns};
use vstd::utf8::encode_utf8;

verus! {

/// Why a line is not archived.
#[derive(Clone, Copy, Debug, PartialEq, Eq, Structural)]
pub enum SkipReason {
    /// The line holds a newline.
    LineBreak,
    /// The line is no well-formed protocol message.
    Malformed,
    /// The command is none of those that are kept.
    NotArchivable,
    /// The frame has no `room-id` tag that says which channel it is of.
    NoChannel,
    /// The frame has no `tmi-sent-ts` tag that gives a day.
    NoDate,
}

/// What is to be done with a line that is archived.
#[derive(Debug, Clone)]
pub struct Ingest {
    /// The id of the channel to whose file the line goes.
    pub channel_id: String,
    /// The day to whose file the line goes.
    pub date: ChannelLogDate,
    /// The line as it is written, without white space at its end.
    pub line: String,
    /// The user to whose index the record of the line goes, if it goes to one.
    pub user: Option<UserKey>,
}

/// What an `Ingest` holds.
pub ghost struct IngestView {
    pub channel_id: Seq<char>,
    pub date: ChannelLogDate,
    pub line: Seq<char>,
    pub user: Option<NameView>,
}

impl View for Ingest {
    type V = IngestView;

    open spec fn view(&self) -> IngestView {
        IngestView {
            channel_id: self.channel_id@,
            date: self.date,
            line: self.line@,
            user: match self.user {
                Some(u) => Some(u@),
                None => None,
            },
        }
    }
}

/// The day in UTC of the instant that lies `millis` milliseconds after the
/// start of 1970, where there is such a day in a year from 0 on.
pub open spec fn date_of_millis(millis: int) -> Option<ChannelLogDate> {
    if !utc_accepts(millis) || utc_date(millis).0 < 0 {
        None
    } else {
        Some(
            ChannelLogDate {
                year: utc_date(millis).0 as u32,
                month: utc_date(millis).1 as u32,
                day: utc_date(millis).2 as u32,
            },
        )
    }
}

/// The day on which a frame was sent, by its `tmi-sent-ts` tag.
pub open spec fn frame_date(f: FrameView) -> Option<ChannelLogDate> {
    match tag_value(f.tags, "tmi-sent-ts"@) {
        None => None,
        Some(v) => match decimal_i64(v) {
            None => None,
            Some(ms) => date_of_millis(ms as int),
        },
    }
}

/// What is to be done with a raw line: why it is passed over, or where it
/// goes.
pub open spec fn ingest_plan(raw: Seq<char>) -> Result<IngestView, SkipReason> {
    if encode_utf8(trim_end_of(raw)).contains(NEWLINE) {
        Err(SkipReason::LineBreak)
    } else {
        match archive_frame_of(raw) {
            None => Err(SkipReason::Malformed),
            Some(f) => if !is_archivable(f.command) {
                Err(SkipReason::NotArchivable)
            } else if filled_tag(f.tags, "room-id"@) is None {
                Err(SkipReason::NoChannel)
            } else if frame_date(f) is None {
                Err(SkipReason::NoDate)
            } else {
                Ok(
                    IngestView {
                        channel_id: filled_tag(f.tags, "room-id"@)->0,
                        date: frame_date(f)->0,
                        line: trim_end_of(raw),
                        user: frame_user(f),
                    },
                )
            },
        }
    }
}

/// What the result of planning holds.
pub open spec fn plan_of(r: Result<Ingest, SkipReason>) -> Result<IngestView, SkipReason> {
    match r {
        Ok(i) => Ok(i@),
        Err(e) => Err(e),
    }
}

/// Finds the day in UTC of an instant given in milliseconds.
pub fn message_date(millis: i64) -> (r: Option<ChannelLogDate>)
    ensures
        r == date_of_millis(millis as int),
{
    if !utc_millis_valid(millis) {
        return None;
    }
    let (year, month, day) = utc_date_of(millis);
    if year < 0 {
        return None;
    }
    Some(ChannelLogDate { year: year as u32, month, day })
}

/// Finds the day on which a frame was sent.
pub fn date_of_frame(frame: &IrcFrame) -> (r: Option<ChannelLogDate>)
    ensures
        r == frame_date(frame@),
{
    match find_tag(&frame.tags, "tmi-sent-ts") {
        None => None,
        Some(v) => match parse_i64(v.as_str()) {
            None => None,
            Some(ms) => message_date(ms),
        },
    }
}

/// Decides what is to be done with a raw line.
pub fn plan_ingest(raw_line: &str) -> (r: Result<Ingest, SkipReason>)
    ensures
        plan_of(r) == ingest_plan(raw_line@),
        r matches Ok(i) ==> !encode_utf8(i.line@).contains(NEWLINE),
{
    if has_newline(trim_end(raw_line).as_bytes()) {
        return Err(SkipReason::LineBreak);
    }
    let frame = match read_archive_frame(raw_line) {
        None => {
            return Err(SkipReason::Malformed);
        },
        Some(f) => f,
    };
    if !archivable(frame.command.as_str()) {
        return Err(SkipReason::NotArchivable);
    }
    let channel_id = match find_filled_tag(&frame.tags, "room-id") {
        None => {
            return Err(SkipReason::NoChannel);
        },
        Some(c) => String::from_str(c),
    };
    let date = match date_of_frame(&frame) {
        None => {
            return Err(SkipReason::NoDate);
        },
        Some(d) => d,
    };
    let user = match extract_user(&frame) {
        Some(u) => Some(u.to_key()),
        None => None,
    };
    Ok(Ingest { channel_id, date, line: frame.raw.clone(), user })
}

/// What has to be done before a line can be written to the file of its day.
#[derive(Clone, Copy, Debug, PartialEq, Eq, Structural)]
pub enum StoreStep {
    /// The writer of the file is open.
    Ready,
    /// The channel has no writer: its file has to be opened.
    Open,
    /// The writer of the channel is of another day: its file has to be
    /// flushed and closed, and the file of the day opened.
    Rollover,
}

/// Why the indexer does not take a line.
#[derive(Clone, Copy, Debug, PartialEq, Eq, Structural)]
pub enum IndexerError {
    /// The channel has no writer.
    NotOpen,
    /// The line cannot be placed in the file.
    Append(AppendError),
}

/// The writers of one channel: that of the file of the current day, and that
/// of the user indexes of the current month.
#[derive(Debug, Clone)]
pub struct ChannelState {
    pub store: ChannelStore,
    pub indexes: UserIndexStore,
}

/// The writers of all channels, and how many user indexes of a channel may be
/// open at once.
#[derive(Debug, Clone)]
pub struct Indexer {
    pub channels: Vec<ChannelState>,
    pub capacity: usize,
}

/// A line that was placed: where it lies, the bytes to write to the file, and
/// the record that points at it.
#[derive(Debug, Clone)]
pub struct LineWrite {
    pub placement: Placement,
    pub bytes: Vec<u8>,
    pub record: IndexRecord,
}

/// The place of the writers of a channel, or the number of channels where it
/// has none.
pub open spec fn channel_position(channels: Seq<ChannelState>, channel_id: Seq<char>) -> int
    decreases channels.len(),
{
    if channels.len() == 0 {
        0
    } else if channels[0].store.channel_id@ == channel_id {
        0
    } else {
        1 + channel_position(channels.drop_first(), channel_id)
    }
}

/// The month of a day.
pub open spec fn month_of(date: ChannelLogDate) -> UserLogDate {
    UserLogDate { year: date.year, month: date.month }
}

/// The place of a channel lies within the channels or just behind them; the
/// writers at the place are of the channel and none before it are.
pub proof fn lemma_channel_position(channels: Seq<ChannelState>, channel_id: Seq<char>)
    ensures
        0 <= channel_position(channels, channel_id) <= channels.len(),
        channel_position(channels, channel_id) < channels.len() ==> channels[channel_position(
            channels,
            channel_id,
        )].store.channel_id@ == channel_id,
        forall|j: int|
            0 <= j < channel_position(channels, channel_id) ==> (#[trigger] channels[j]).store.channel_id@
                != channel_id,
    decreases channels.len(),
{
    if channels.len() > 0 && channels[0].store.channel_id@ != channel_id {
        lemma_channel_position(channels.drop_first(), channel_id);
        assert forall|j: int| 0 <= j < channel_position(channels, channel_id) implies (
        #[trigger] channels[j]).store.channel_id@ != channel_id by {
            if j > 0 {
                assert(channels.drop_first()[j - 1] == channels[j]);
            }
        }
    }
}

impl Indexer {
    /// The user indexes of every channel are in order and of that channel,
    /// and no two channels have the same id.
    pub open spec fn wf(&self) -> bool {
        &&& forall|i: int| 0 <= i < self.channels@.len() ==> (#[trigger] self.channels@[i]).indexes.handles.wf()
        &&& forall|i: int|
            0 <= i < self.channels@.len() ==> (#[trigger] self.channels@[i]).indexes.channel_id@
                == self.channels@[i].store.channel_id@
        &&& forall|i: int, j: int|
            0 <= i < j < self.channels@.len() ==> (#[trigger] self.channels@[i]).store.channel_id@ != (
            #[trigger] self.channels@[j]).store.channel_id@
    }

    /// An indexer without open writers.
    pub fn new(capacity: usize) -> (r: Indexer)
        ensures
            r.wf(),
            r.channels@.len() == 0,
            r.capacity == capacity,
    {
        Indexer { channels: Vec::new(), capacity }
    }

    /// Finds the place of the writers of a channel.
    pub fn position(&self, channel_id: &str) -> (r: usize)
        ensures
            r == channel_position(self.channels@, channel_id@),
    {
        let n: usize = self.channels.len();
        let mut i: usize = 0;
        assert(self.channels@.skip(0) == self.channels@);
        while i < n
            invariant
                i <= n,
                n == self.channels@.len(),
                channel_position(self.channels@, channel_id@) == i + channel_position(
                    self.channels@.skip(i as int),
                    channel_id@,
                ),
            decreases n - i,
        {
            assert(self.channels@.skip(i as int).drop_first() == self.channels@.skip(i as int + 1));
            assert(self.channels@.skip(i as int)[0] == self.channels@[i as int]);
            if str_eq(self.channels[i].store.channel_id.as_str(), channel_id) {
                return i;
            }
            i += 1;
        }
        n
    }

    /// Says what has to be done before a line of the given day can be written
    /// to the file of the channel.
    pub fn step_for(&self, channel_id: &str, date: &ChannelLogDate) -> (r: StoreStep)
        ensures
            r == ({
                let p = channel_position(self.channels@, channel_id@);
                if p >= self.channels@.len() {
                    StoreStep::Open
                } else if self.channels@[p].store.date == *date {
                    StoreStep::Ready
                } else {
                    StoreStep::Rollover
                }
            }),
    {
        let p = self.position(channel_id);
        if p >= self.channels.len() {
            StoreStep::Open
        } else if self.channels[p].store.date.year == date.year && self.channels[p].store.date.month
            == date.month && self.channels[p].store.date.day == date.day {
            StoreStep::Ready
        } else {
            StoreStep::Rollover
        }
    }

    /// Takes in the writer of a file that was opened for a channel. It stands
    /// in for the writer that the channel had. Where the month is another
    /// than before, the user indexes of the channel are closed: their users
    /// are handed out for flushing.
    pub fn install(&mut self, store: ChannelStore) -> (r: Vec<String>)
        requires
            old(self).wf(),
        ensures
            final(self).wf(),
            final(self).capacity == old(self).capacity,
            ({
                let p = channel_position(old(self).channels@, store.channel_id@);
                let before = old(self).channels@;
                let after = final(self).channels@;
                &&& p == channel_position(after, store.channel_id@)
                &&& p < after.len()
                &&& after.len() == if p < before.len() {
                    before.len()
                } else {
                    before.len() + 1
                }
                &&& after[p].store == store
                &&& after[p].indexes.month == month_of(store.date)
                &&& after[p].indexes.handles.capacity == if p < before.len() {
                    before[p].indexes.handles.capacity
                } else if old(self).capacity == 0 {
                    1
                } else {
                    old(self).capacity
                }
                &&& forall|j: int| 0 <= j < before.len() && j != p ==> #[trigger] after[j] == before[j]
                &&& if p < before.len() && before[p].indexes.month == month_of(store.date) {
                    after[p].indexes == before[p].indexes && r@.len() == 0
                } else {
                    &&& after[p].indexes.handles.keys() == Seq::<Seq<char>>::empty()
                    &&& keys_of(r@) == if p < before.len() {
                        before[p].indexes.handles.keys()
                    } else {
                        Seq::<Seq<char>>::empty()
                    }
                }
            }),
    {
        proof {
            lemma_channel_position(self.channels@, store.channel_id@);
        }
        let ghost before = self.channels@;
        let p = self.position(store.channel_id.as_str());
        let month = UserLogDate { year: store.date.year, month: store.date.month };
        let ghost id = store.channel_id@;
        if p < self.channels.len() {
            let same = self.channels[p].indexes.month.year == month.year && self.channels[p].indexes.month.month
                == month.month;
            let closed = if same {
                Vec::new()
            } else {
                let gone = self.channels[p].indexes.handles.close_all();
                self.channels[p].indexes.month = month;
                gone
            };
            self.channels[p].store = store;
            proof {
                assert forall|j: int| 0 <= j < before.len() && j != p implies #[trigger] self.channels@[j]
                    == before[j] by {}
                lemma_channel_position(self.channels@, id);
                assert(self.channels@[p as int].store.channel_id@ == id);
                assert(channel_position(self.channels@, id) == p) by {
                    if channel_position(self.channels@, id) < p {
                        assert(self.channels@[channel_position(self.channels@, id)] == before[channel_position(
                            self.channels@,
                            id,
                        )]);
                    }
                }
                assert(keys_of(closed@) =~= if same {
                    Seq::<Seq<char>>::empty()
                } else {
                    before[p as int].indexes.handles.keys()
                });
            }
            closed
        } else {
            let indexes = UserIndexStore::new(store.channel_id.clone(), month, self.capacity);
            self.channels.push(ChannelState { store, indexes });
            proof {
                lemma_channel_position(self.channels@, id);
                assert(self.channels@[p as int].store.channel_id@ == id);
                assert(channel_position(self.channels@, id) == p) by {
                    if channel_position(self.channels@, id) < p {
                        assert(self.channels@[channel_position(self.channels@, id)] == before[channel_position(
                            self.channels@,
                            id,
                        )]);
                    }
                }
            }
            let closed: Vec<String> = Vec::new();
            assert(keys_of(closed@) =~= Seq::<Seq<char>>::empty());
            closed
        }
    }

    /// Places a line in the file of the current day of a channel and hands
    /// out what to write. A line that is not taken leaves the indexer as it
    /// was.
    pub fn append(&mut self, channel_id: &str, raw_line: &str) -> (r: Result<LineWrite, IndexerError>)
        ensures
            final(self).capacity == old(self).capacity,
            final(self).channels@.len() == old(self).channels@.len(),
            old(self).wf() ==> final(self).wf(),
            ({
                let p = channel_position(old(self).channels@, channel_id@);
                let before = old(self).channels@;
                let after = final(self).channels@;
                let line = raw_line.spec_bytes();
                &&& forall|j: int| 0 <= j < before.len() && j != p ==> #[trigger] after[j] == before[j]
                &&& p < before.len() ==> after[p].indexes == before[p].indexes && after[p].store.channel_id
                    == before[p].store.channel_id && after[p].store.date == before[p].store.date
                &&& match r {
                    Ok(w) => {
                        &&& p < before.len()
                        &&& append_error(before[p].store.size, line) is None
                        &&& w.placement == (Placement { offset: before[p].store.size, length: line.len() as u32 })
                        &&& w.bytes@ == line.push(NEWLINE)
                        &&& w.record == (IndexRecord {
                            day: before[p].store.date.day,
                            offset: before[p].store.size,
                            length: line.len() as u32,
                        })
                        &&& after[p].store.size == before[p].store.size + line.len() + 1
                    },
                    Err(IndexerError::NotOpen) => p >= before.len(),
                    Err(IndexerError::Append(e)) => {
                        &&& p < before.len()
                        &&& append_error(before[p].store.size, line) == Some(e)
                        &&& after[p].store.size == before[p].store.size
                    },
                }
            }),
    {
        let p = self.position(channel_id);
        if p >= self.channels.len() {
            return Err(IndexerError::NotOpen);
        }
        let ghost before = self.channels@;
        match self.channels[p].store.append(raw_line) {
            Ok((placement, bytes)) => {
                let record = self.channels[p].store.record_for(&placement);
                assert forall|j: int| 0 <= j < before.len() && j != p implies #[trigger] self.channels@[j]
                    == before[j] by {}
                Ok(LineWrite { placement, bytes, record })
            },
            Err(e) => {
                assert forall|j: int| 0 <= j < before.len() && j != p implies #[trigger] self.channels@[j]
                    == before[j] by {}
                Err(IndexerError::Append(e))
            },
        }
    }

    /// Appends a record to the index of a user of a channel and hands out
    /// what to write; nothing where the channel has no writer.
    pub fn index(&mut self, channel_id: &str, user_id: &str, record: &IndexRecord) -> (r: Option<IndexWrite>)
        requires
            old(self).wf(),
        ensures
            final(self).wf(),
            final(self).capacity == old(self).capacity,
            final(self).channels@.len() == old(self).channels@.len(),
            ({
                let p = channel_position(old(self).channels@, channel_id@);
                let before = old(self).channels@;
                let after = final(self).channels@;
                &&& forall|j: int| 0 <= j < before.len() && j != p ==> #[trigger] after[j] == before[j]
                &&& match r {
                    None => p >= before.len(),
                    Some(w) => {
                        &&& p < before.len()
                        &&& after[p].store == before[p].store
                        &&& after[p].indexes.month == before[p].indexes.month
                        &&& after[p].indexes.handles.keys() == touched(
                            before[p].indexes.handles.keys(),
                            before[p].indexes.handles.capacity as int,
                            user_id@,
                        )
                        &&& w.bytes@ == record_bytes(*record)
                        &&& w.open_first == (position(before[p].indexes.handles.keys(), user_id@)
                            >= before[p].indexes.handles.keys().len())
                        &&& text_of(w.evicted) == evicted(
                            before[p].indexes.handles.keys(),
                            before[p].indexes.handles.capacity as int,
                            user_id@,
                        )
                    },
                }
            }),
    {
        let p = self.position(channel_id);
        if p >= self.channels.len() {
            return None;
        }
        let ghost before = self.channels@;
        let w = self.channels[p].indexes.append(user_id, record);
        assert forall|j: int| 0 <= j < before.len() && j != p implies #[trigger] self.channels@[j] == before[j] by {}
        Some(w)
    }

    /// Gives up the writers of a channel, as after a failed write or at the
    /// end of the run. The users whose indexes were open are handed out for
    /// flushing; nothing is where the channel has no writer.
    pub fn close(&mut self, channel_id: &str) -> (r: Option<Vec<String>>)
        requires
            old(self).wf(),
        ensures
            final(self).wf(),
            final(self).capacity == old(self).capacity,
            ({
                let p = channel_position(old(self).channels@, channel_id@);
                let before = old(self).channels@;
                match r {
                    None => p >= before.len() && final(self).channels@ == before,
                    Some(users) => {
                        &&& p < before.len()
                        &&& final(self).channels@ == before.remove(p)
                        &&& keys_of(users@) == before[p].indexes.handles.keys()
                    },
                }
            }),
    {
        let p = self.position(channel_id);
        if p >= self.channels.len() {
            return None;
        }
        let ghost before = self.channels@;
        let gone = self.channels.remove(p);
        assert forall|i: int| 0 <= i < self.channels@.len() implies (#[trigger] self.channels@[i]).indexes.handles.wf()
            && self.channels@[i].indexes.channel_id@ == self.channels@[i].store.channel_id@ by {
            let k = if i < p {
                i
            } else {
                i + 1
            };
            assert(self.channels@[i] == before[k]);
        }
        assert forall|i: int, j: int| 0 <= i < j < self.channels@.len() implies (
        #[trigger] self.channels@[i]).store.channel_id@ != (#[trigger] self.channels@[j]).store.channel_id@ by {
            let ki = if i < p {
                i
            } else {
                i + 1
            };
            let kj = if j < p {
                j
            } else {
                j + 1
            };
            assert(self.channels@[i] == before[ki] && self.channels@[j] == before[kj]);
        }
        Some(gone.indexes.handles.open)
    }
}

} // verus!
