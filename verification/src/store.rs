use crate::lines::NEWLINE;
use crate::record::{record_bytes, IndexRecord};
use crate::schema::{ChannelLogDate, UserLogDate};
use crate::text::str_eq;
use vstd::prelude::*;
use vstd::string::{StringExecFns, StringSliceAdditionalSpecFns};

verus! {

/// Where an appended line lies in its file.
#[derive(Clone, Copy, Debug, PartialEq, Eq, Structural)]
pub struct Placement {
    pub offset: u64,
    pub length: u32,
}

/// Why a line is not appended.
#[derive(Clone, Copy, Debug, PartialEq, Eq, Structural)]
pub enum AppendError {
    /// The line holds a newline.
    LineBreak,
    /// The line is longer than a record can say.
    TooLong,
    /// The file would grow beyond what an offset can say.
    Full,
}

/// The writer of the file of one day of a channel. It keeps count of the
/// size of the file, which is where the next line will begin.
#[derive(Debug, Clone)]
pub struct ChannelStore {
    pub channel_id: String,
    pub date: ChannelLogDate,
    pub size: u64,
}

/// What stands in the way of appending a line of the given bytes to a file of
/// the given size, if anything does.
pub open spec fn append_error(size: u64, line: Seq<u8>) -> Option<AppendError> {
    if line.contains(NEWLINE) {
        Some(AppendError::LineBreak)
    } else if line.len() > u32::MAX {
        Some(AppendError::TooLong)
    } else if size + line.len() + 1 > u64::MAX {
        Some(AppendError::Full)
    } else {
        None
    }
}

/// Decides whether a newline is among the bytes.
pub fn has_newline(bytes: &[u8]) -> (r: bool)
    ensures
        r == bytes@.contains(NEWLINE),
{
    let n: usize = bytes.len();
    let mut i: usize = 0;
    while i < n
        invariant
            i <= n,
            n == bytes@.len(),
            forall|j: int| 0 <= j < i ==> bytes@[j] != NEWLINE,
        decreases n - i,
    {
        if bytes[i] == NEWLINE {
            return true;
        }
        i += 1;
    }
    false
}

impl ChannelStore {
    /// The writer of a file that has the given size.
    pub fn open(channel_id: String, date: ChannelLogDate, size: u64) -> (r: ChannelStore)
        ensures
            r.channel_id == channel_id,
            r.date == date,
            r.size == size,
    {
        ChannelStore { channel_id, date, size }
    }

    /// Appends a line: says where it will lie and hands out the bytes to
    /// write, the line and a newline behind it. A line that cannot be placed
    /// leaves the writer as it was.
    pub fn append(&mut self, raw_line: &str) -> (r: Result<(Placement, Vec<u8>), AppendError>)
        ensures
            final(self).channel_id == old(self).channel_id,
            final(self).date == old(self).date,
            match r {
                Ok((placement, written)) => {
                    &&& append_error(old(self).size, raw_line.spec_bytes()) is None
                    &&& placement.offset == old(self).size
                    &&& placement.length == raw_line.spec_bytes().len()
                    &&& written@ == raw_line.spec_bytes().push(NEWLINE)
                    &&& final(self).size == old(self).size + raw_line.spec_bytes().len() + 1
                },
                Err(e) => append_error(old(self).size, raw_line.spec_bytes()) == Some(e) && final(self).size
                    == old(self).size,
            },
    {
        match place_line(self.size, raw_line) {
            Ok((placement, written)) => {
                self.size = self.size + placement.length as u64 + 1;
                Ok((placement, written))
            },
            Err(e) => Err(e),
        }
    }

    /// The record that points at a line placed in the file of this writer.
    pub fn record_for(&self, placement: &Placement) -> (r: IndexRecord)
        ensures
            r == (IndexRecord { day: self.date.day, offset: placement.offset, length: placement.length }),
    {
        IndexRecord { day: self.date.day, offset: placement.offset, length: placement.length }
    }
}

/// Places a line at the end of a file of the given size: says where it will
/// lie and hands out the bytes to write, the line and a newline behind it.
pub fn place_line(size: u64, raw_line: &str) -> (r: Result<(Placement, Vec<u8>), AppendError>)
    ensures
        match r {
            Ok((placement, written)) => {
                &&& append_error(size, raw_line.spec_bytes()) is None
                &&& placement.offset == size
                &&& placement.length == raw_line.spec_bytes().len()
                &&& written@ == raw_line.spec_bytes().push(NEWLINE)
            },
            Err(e) => append_error(size, raw_line.spec_bytes()) == Some(e),
        },
{
    let bytes = raw_line.as_bytes();
    if has_newline(bytes) {
        return Err(AppendError::LineBreak);
    }
    let n: usize = bytes.len();
    if n > 0xFFFF_FFFF {
        return Err(AppendError::TooLong);
    }
    if size > u64::MAX - (n as u64) - 1 {
        return Err(AppendError::Full);
    }
    let placement = Placement { offset: size, length: n as u32 };
    let mut written = vstd::slice::slice_to_vec(bytes);
    written.push(NEWLINE);
    Ok((placement, written))
}

/// The place of the first of `keys` that is `key`, or the number of keys where
/// none is.
pub open spec fn position(keys: Seq<Seq<char>>, key: Seq<char>) -> int
    decreases keys.len(),
{
    if keys.len() == 0 {
        0
    } else if keys[0] == key {
        0
    } else {
        1 + position(keys.drop_first(), key)
    }
}

/// The open handles after `key` was used, least lately used first: `key` goes
/// to the end; where it was not open and no room is left, the first one goes.
pub open spec fn touched(keys: Seq<Seq<char>>, capacity: int, key: Seq<char>) -> Seq<Seq<char>> {
    let p = position(keys, key);
    if p < keys.len() {
        keys.remove(p).push(key)
    } else if keys.len() < capacity || keys.len() == 0 {
        keys.push(key)
    } else {
        keys.drop_first().push(key)
    }
}

/// The handle that has to be closed when `key` is used, if one has to.
pub open spec fn evicted(keys: Seq<Seq<char>>, capacity: int, key: Seq<char>) -> Option<Seq<char>> {
    if position(keys, key) >= keys.len() && keys.len() >= capacity && keys.len() > 0 {
        Some(keys[0])
    } else {
        None
    }
}

/// No key is there twice.
pub open spec fn distinct_keys(keys: Seq<Seq<char>>) -> bool {
    forall|i: int, j: int| 0 <= i < j < keys.len() ==> #[trigger] keys[i] != #[trigger] keys[j]
}

/// The place of a key lies within the keys or just behind them; the key is at
/// its place and nowhere before it.
pub proof fn lemma_position(keys: Seq<Seq<char>>, key: Seq<char>)
    ensures
        0 <= position(keys, key) <= keys.len(),
        position(keys, key) < keys.len() ==> keys[position(keys, key)] == key,
        forall|j: int| 0 <= j < position(keys, key) ==> #[trigger] keys[j] != key,
    decreases keys.len(),
{
    if keys.len() > 0 && keys[0] != key {
        lemma_position(keys.drop_first(), key);
        assert forall|j: int| 0 <= j < position(keys, key) implies #[trigger] keys[j] != key by {
            if j > 0 {
                assert(keys.drop_first()[j - 1] == keys[j]);
            }
        }
    }
}

/// Using a key keeps the open handles distinct and within the limit, and
/// leaves the key open.
pub proof fn lemma_touched(keys: Seq<Seq<char>>, capacity: int, key: Seq<char>)
    requires
        distinct_keys(keys),
        capacity >= 1,
        keys.len() <= capacity,
    ensures
        distinct_keys(touched(keys, capacity, key)),
        touched(keys, capacity, key).len() <= capacity,
        touched(keys, capacity, key).len() > 0,
        touched(keys, capacity, key).last() == key,
{
    lemma_position(keys, key);
    let p = position(keys, key);
    let after = touched(keys, capacity, key);
    if p < keys.len() {
        let cut = keys.remove(p);
        assert forall|i: int, j: int| 0 <= i < j < after.len() implies #[trigger] after[i] != #[trigger] after[j] by {
            let oi = if i < p {
                i
            } else {
                i + 1
            };
            assert(after[i] == keys[oi]);
            if j < cut.len() {
                let oj = if j < p {
                    j
                } else {
                    j + 1
                };
                assert(after[j] == keys[oj]);
            } else {
                assert(after[j] == keys[p]);
            }
        }
    } else if keys.len() < capacity || keys.len() == 0 {
        assert forall|i: int, j: int| 0 <= i < j < after.len() implies #[trigger] after[i] != #[trigger] after[j] by {
            assert(after[i] == keys[i]);
            if j < keys.len() {
                assert(after[j] == keys[j]);
            }
        }
    } else {
        assert forall|i: int, j: int| 0 <= i < j < after.len() implies #[trigger] after[i] != #[trigger] after[j] by {
            assert(after[i] == keys[i + 1]);
            if j < keys.len() - 1 {
                assert(after[j] == keys[j + 1]);
            }
        }
    }
}

/// The handles of user indexes that are open, least lately used first, and
/// how many may be open at once.
#[derive(Debug, Clone)]
pub struct HandleCache {
    pub capacity: usize,
    pub open: Vec<String>,
}

/// What using a handle asks for: whether the handle has to be opened first,
/// and which other handle has to be flushed and closed before.
#[derive(Debug, Clone)]
pub struct Touch {
    pub was_open: bool,
    pub evicted: Option<String>,
}

/// What a list of keys holds.
pub open spec fn keys_of(v: Seq<String>) -> Seq<Seq<char>> {
    Seq::new(v.len(), |i: int| v[i]@)
}

impl HandleCache {
    /// The keys of the open handles, least lately used first.
    pub open spec fn keys(&self) -> Seq<Seq<char>> {
        keys_of(self.open@)
    }

    /// At least one handle may be open, no handle is open twice, and no more
    /// are open than may be.
    pub open spec fn wf(&self) -> bool {
        &&& self.capacity >= 1
        &&& distinct_keys(self.keys())
        &&& self.open@.len() <= self.capacity
    }

    /// A cache without open handles. A limit of none counts as a limit of one.
    pub fn new(capacity: usize) -> (r: HandleCache)
        ensures
            r.wf(),
            r.keys() == Seq::<Seq<char>>::empty(),
            r.capacity == if capacity == 0 {
                1
            } else {
                capacity
            },
    {
        let r = HandleCache {
            capacity: if capacity == 0 {
                1
            } else {
                capacity
            },
            open: Vec::new(),
        };
        assert(r.keys() =~= Seq::<Seq<char>>::empty());
        r
    }

    /// Finds the place of a key among the open handles.
    pub fn find(&self, key: &str) -> (r: usize)
        ensures
            r == position(self.keys(), key@),
    {
        let n: usize = self.open.len();
        let mut i: usize = 0;
        let ghost keys = self.keys();
        assert(keys.skip(0) == keys);
        while i < n
            invariant
                i <= n,
                n == self.open@.len(),
                keys == self.keys(),
                position(keys, key@) == i + position(keys.skip(i as int), key@),
            decreases n - i,
        {
            assert(keys.skip(i as int).drop_first() == keys.skip(i as int + 1));
            assert(keys.skip(i as int)[0] == keys[i as int]);
            if str_eq(self.open[i].as_str(), key) {
                return i;
            }
            i += 1;
        }
        n
    }

    /// Uses the handle under `key`.
    pub fn touch(&mut self, key: &str) -> (r: Touch)
        requires
            old(self).wf(),
        ensures
            final(self).wf(),
            final(self).capacity == old(self).capacity,
            final(self).keys() == touched(old(self).keys(), old(self).capacity as int, key@),
            r.was_open == (position(old(self).keys(), key@) < old(self).keys().len()),
            crate::frame::text_of(r.evicted) == evicted(old(self).keys(), old(self).capacity as int, key@),
    {
        proof {
            lemma_touched(self.keys(), self.capacity as int, key@);
            lemma_position(self.keys(), key@);
        }
        let p = self.find(key);
        let ghost before = self.keys();
        if p < self.open.len() {
            let k = self.open.remove(p);
            self.open.push(k);
            assert(self.keys() =~= before.remove(p as int).push(key@));
            Touch { was_open: true, evicted: None }
        } else if self.open.len() < self.capacity {
            self.open.push(String::from_str(key));
            assert(self.keys() =~= before.push(key@));
            Touch { was_open: false, evicted: None }
        } else {
            let gone = self.open.remove(0);
            self.open.push(String::from_str(key));
            assert(self.keys() =~= before.drop_first().push(key@));
            Touch { was_open: false, evicted: Some(gone) }
        }
    }

    /// Closes every handle, as at the end of a month or of the run, and lists
    /// them for flushing.
    pub fn close_all(&mut self) -> (r: Vec<String>)
        requires
            old(self).wf(),
        ensures
            final(self).wf(),
            final(self).capacity == old(self).capacity,
            final(self).keys() == Seq::<Seq<char>>::empty(),
            keys_of(r@) == old(self).keys(),
    {
        let mut gone: Vec<String> = Vec::new();
        std::mem::swap(&mut gone, &mut self.open);
        assert(self.keys() =~= Seq::<Seq<char>>::empty());
        gone
    }
}

/// The writer of the user indexes of one month of a channel.
#[derive(Debug, Clone)]
pub struct UserIndexStore {
    pub channel_id: String,
    pub month: UserLogDate,
    pub handles: HandleCache,
}

/// What appending a record to a user's index asks for: the bytes to write to
/// the user's file, whether the file has to be opened first, and which other
/// user's file has to be flushed and closed before.
#[derive(Debug, Clone)]
pub struct IndexWrite {
    pub bytes: Vec<u8>,
    pub open_first: bool,
    pub evicted: Option<String>,
}

impl UserIndexStore {
    /// The writer for a month, with a limit on the files open at once.
    pub fn new(channel_id: String, month: UserLogDate, capacity: usize) -> (r: UserIndexStore)
        ensures
            r.handles.wf(),
            r.handles.keys() == Seq::<Seq<char>>::empty(),
            r.handles.capacity == if capacity == 0 {
                1
            } else {
                capacity
            },
            r.channel_id == channel_id,
            r.month == month,
    {
        UserIndexStore { channel_id, month, handles: HandleCache::new(capacity) }
    }

    /// Appends a record to the index of a user.
    pub fn append(&mut self, user_id: &str, record: &IndexRecord) -> (r: IndexWrite)
        requires
            old(self).handles.wf(),
        ensures
            final(self).handles.wf(),
            final(self).channel_id == old(self).channel_id,
            final(self).month == old(self).month,
            final(self).handles.capacity == old(self).handles.capacity,
            final(self).handles.keys() == touched(
                old(self).handles.keys(),
                old(self).handles.capacity as int,
                user_id@,
            ),
            r.bytes@ == record_bytes(*record),
            r.open_first == (position(old(self).handles.keys(), user_id@) >= old(self).handles.keys().len()),
            crate::frame::text_of(r.evicted) == evicted(
                old(self).handles.keys(),
                old(self).handles.capacity as int,
                user_id@,
            ),
    {
        let touch = self.handles.touch(user_id);
        IndexWrite { bytes: record.as_bytes(), open_first: !touch.was_open, evicted: touch.evicted }
    }
}

} // verus!
