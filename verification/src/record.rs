use vstd::prelude::*;

verus! {

/// The number of bytes of one record in an index file.
pub const RECORD_LEN: usize = 16;

/// Where one line of a user lies: the day of the month of the channel file,
/// the offset of the line in that file and its length without the newline.
#[derive(Clone, Copy, Debug, PartialEq, Eq, Structural)]
pub struct IndexRecord {
    pub day: u32,
    pub offset: u64,
    pub length: u32,
}

/// The four bytes of a number, lowest first.
pub open spec fn le32_bytes(n: u32) -> Seq<u8> {
    seq![
        (n % 0x100) as u8,
        (n / 0x100 % 0x100) as u8,
        (n / 0x1_0000 % 0x100) as u8,
        (n / 0x100_0000 % 0x100) as u8,
    ]
}

/// The eight bytes of a number, lowest first: those of its low half, then
/// those of its high half.
pub open spec fn le64_bytes(n: u64) -> Seq<u8> {
    le32_bytes((n % 0x1_0000_0000) as u32) + le32_bytes((n / 0x1_0000_0000) as u32)
}

/// The number that four bytes write, lowest first.
pub open spec fn le32_value(b: Seq<u8>) -> int {
    b[0] + b[1] * 0x100 + b[2] * 0x1_0000 + b[3] * 0x100_0000
}

/// The number that eight bytes write, lowest first.
pub open spec fn le64_value(b: Seq<u8>) -> int {
    le32_value(b.subrange(0, 4)) + le32_value(b.subrange(4, 8)) * 0x1_0000_0000
}

/// The sixteen bytes of a record: the day in four bytes, the offset in eight,
/// the length in four, each lowest byte first.
pub open spec fn record_bytes(r: IndexRecord) -> Seq<u8> {
    le32_bytes(r.day) + le64_bytes(r.offset) + le32_bytes(r.length)
}

/// The record that sixteen bytes write.
pub open spec fn record_of(b: Seq<u8>) -> IndexRecord {
    IndexRecord {
        day: le32_value(b.subrange(0, 4)) as u32,
        offset: le64_value(b.subrange(4, 12)) as u64,
        length: le32_value(b.subrange(12, 16)) as u32,
    }
}

/// The bytes of a list of records, one behind the other.
pub open spec fn index_bytes(rs: Seq<IndexRecord>) -> Seq<u8>
    decreases rs.len(),
{
    if rs.len() == 0 {
        Seq::empty()
    } else {
        index_bytes(rs.drop_last()) + record_bytes(rs.last())
    }
}

/// The records that an index file holds: one for each full sixteen bytes. A
/// shorter rest at the end is no record.
pub open spec fn records_of(b: Seq<u8>) -> Seq<IndexRecord> {
    Seq::new((b.len() / 16) as nat, |i: int| record_of(b.subrange(16 * i, 16 * i + 16)))
}

/// Four bytes written from a number write that number.
pub proof fn lemma_le32_round_trip(n: u32)
    ensures
        le32_bytes(n).len() == 4,
        le32_value(le32_bytes(n)) == n,
{
}

/// Four bytes are those written from the number that they write.
pub proof fn lemma_le32_bytes_of_value(b: Seq<u8>)
    requires
        b.len() == 4,
    ensures
        0 <= le32_value(b) <= u32::MAX,
        le32_bytes(le32_value(b) as u32) == b,
{
    let v = le32_value(b);
    assert(v % 0x100 == b[0]);
    assert(v / 0x100 == b[1] + b[2] * 0x100 + b[3] * 0x1_0000);
    assert(v / 0x1_0000 == b[2] + b[3] * 0x100);
    assert(v / 0x100_0000 == b[3]);
    assert(le32_bytes(v as u32) =~= b);
}

/// Eight bytes written from a number write that number.
pub proof fn lemma_le64_round_trip(n: u64)
    ensures
        le64_bytes(n).len() == 8,
        le64_value(le64_bytes(n)) == n,
{
    let lo = (n % 0x1_0000_0000) as u32;
    let hi = (n / 0x1_0000_0000) as u32;
    lemma_le32_round_trip(lo);
    lemma_le32_round_trip(hi);
    assert(le64_bytes(n).subrange(0, 4) =~= le32_bytes(lo));
    assert(le64_bytes(n).subrange(4, 8) =~= le32_bytes(hi));
}

/// Eight bytes are those written from the number that they write.
pub proof fn lemma_le64_bytes_of_value(b: Seq<u8>)
    requires
        b.len() == 8,
    ensures
        0 <= le64_value(b) <= u64::MAX,
        le64_bytes(le64_value(b) as u64) == b,
{
    lemma_le32_bytes_of_value(b.subrange(0, 4));
    lemma_le32_bytes_of_value(b.subrange(4, 8));
    let lo = le32_value(b.subrange(0, 4));
    let hi = le32_value(b.subrange(4, 8));
    let v = le64_value(b);
    assert(v % 0x1_0000_0000 == lo);
    assert(v / 0x1_0000_0000 == hi);
    assert(le64_bytes(v as u64) =~= b);
}

/// Reading the bytes of a record gives the record back.
pub proof fn lemma_record_round_trip(r: IndexRecord)
    ensures
        record_bytes(r).len() == 16,
        record_of(record_bytes(r)) == r,
{
    lemma_le32_round_trip(r.day);
    lemma_le64_round_trip(r.offset);
    lemma_le32_round_trip(r.length);
    let b = record_bytes(r);
    assert(b.subrange(0, 4) =~= le32_bytes(r.day));
    assert(b.subrange(4, 12) =~= le64_bytes(r.offset));
    assert(b.subrange(12, 16) =~= le32_bytes(r.length));
}

/// Writing the record that sixteen bytes hold gives the bytes back.
pub proof fn lemma_bytes_round_trip(b: Seq<u8>)
    requires
        b.len() == 16,
    ensures
        record_bytes(record_of(b)) == b,
{
    lemma_le32_bytes_of_value(b.subrange(0, 4));
    lemma_le64_bytes_of_value(b.subrange(4, 12));
    lemma_le32_bytes_of_value(b.subrange(12, 16));
    assert(record_bytes(record_of(b)) =~= b);
}

/// The bytes of a list of records are sixteen for each.
pub proof fn lemma_index_len(rs: Seq<IndexRecord>)
    ensures
        index_bytes(rs).len() == 16 * rs.len(),
    decreases rs.len(),
{
    if rs.len() > 0 {
        lemma_index_len(rs.drop_last());
        lemma_record_round_trip(rs.last());
    }
}

/// The record at place `i` of an index file lies in its bytes from `16 * i`.
pub proof fn lemma_index_slot(rs: Seq<IndexRecord>, i: int)
    requires
        0 <= i < rs.len(),
    ensures
        index_bytes(rs).len() == 16 * rs.len(),
        index_bytes(rs).subrange(16 * i, 16 * i + 16) == record_bytes(rs[i]),
    decreases rs.len(),
{
    lemma_index_len(rs);
    lemma_index_len(rs.drop_last());
    lemma_record_round_trip(rs.last());
    if i == rs.len() - 1 {
        assert(index_bytes(rs).subrange(16 * i, 16 * i + 16) =~= record_bytes(rs[i]));
    } else {
        lemma_index_slot(rs.drop_last(), i);
        assert(index_bytes(rs).subrange(16 * i, 16 * i + 16) =~= index_bytes(rs.drop_last()).subrange(
            16 * i,
            16 * i + 16,
        ));
    }
}

/// Reading an index file that was written from a list of records gives the
/// list back.
pub proof fn lemma_index_round_trip(rs: Seq<IndexRecord>)
    ensures
        records_of(index_bytes(rs)) == rs,
{
    lemma_index_len(rs);
    assert forall|i: int| 0 <= i < rs.len() implies records_of(index_bytes(rs))[i] == rs[i] by {
        lemma_index_slot(rs, i);
        lemma_record_round_trip(rs[i]);
    }
    assert(records_of(index_bytes(rs)) =~= rs);
}

/// Appends the four bytes of a number, lowest first.
pub fn push_le32(out: &mut Vec<u8>, n: u32)
    ensures
        final(out)@ == old(out)@ + le32_bytes(n),
{
    out.push((n % 0x100) as u8);
    out.push((n / 0x100 % 0x100) as u8);
    out.push((n / 0x1_0000 % 0x100) as u8);
    out.push((n / 0x100_0000 % 0x100) as u8);
    assert(out@ =~= old(out)@ + le32_bytes(n));
}

/// Reads the number that four bytes of `bytes` write, lowest first.
pub fn le32_at(bytes: &[u8], start: usize) -> (r: u32)
    requires
        start + 4 <= bytes@.len(),
    ensures
        r == le32_value(bytes@.subrange(start as int, start + 4)),
{
    let ghost b = bytes@.subrange(start as int, start + 4);
    assert(forall|k: int| 0 <= k < 4 ==> b[k] == bytes@[start + k]);
    bytes[start] as u32 + bytes[start + 1] as u32 * 0x100 + bytes[start + 2] as u32 * 0x1_0000
        + bytes[start + 3] as u32 * 0x100_0000
}

impl IndexRecord {
    /// Writes the record as its sixteen bytes.
    pub fn as_bytes(&self) -> (r: Vec<u8>)
        ensures
            r@ == record_bytes(*self),
    {
        let mut out: Vec<u8> = Vec::new();
        push_le32(&mut out, self.day);
        push_le32(&mut out, (self.offset % 0x1_0000_0000) as u32);
        push_le32(&mut out, (self.offset / 0x1_0000_0000) as u32);
        push_le32(&mut out, self.length);
        assert(out@ =~= record_bytes(*self));
        out
    }

    /// Reads the record that lies in `bytes` from `start` on.
    pub fn read_at(bytes: &[u8], start: usize) -> (r: IndexRecord)
        requires
            start + 16 <= bytes@.len(),
        ensures
            r == record_of(bytes@.subrange(start as int, start + 16)),
    {
        let ghost b = bytes@.subrange(start as int, start + 16);
        assert(b.subrange(0, 4) =~= bytes@.subrange(start as int, start + 4));
        assert(b.subrange(4, 12).subrange(0, 4) =~= bytes@.subrange(start + 4, start + 8));
        assert(b.subrange(4, 12).subrange(4, 8) =~= bytes@.subrange(start + 8, start + 12));
        assert(b.subrange(12, 16) =~= bytes@.subrange(start + 12, start + 16));
        let total: usize = bytes.len();
        assert(start + 16 <= total);
        let day: u32 = le32_at(bytes, start);
        let low: u32 = le32_at(bytes, start + 4);
        let high: u32 = le32_at(bytes, start + 8);
        let length: u32 = le32_at(bytes, start + 12);
        IndexRecord { day, offset: low as u64 + high as u64 * 0x1_0000_0000, length }
    }

    /// Reads one record from exactly sixteen bytes.
    pub fn from_bytes(bytes: &[u8]) -> (r: Option<IndexRecord>)
        ensures
            r == if bytes@.len() == 16 {
                Some(record_of(bytes@))
            } else {
                None
            },
    {
        if bytes.len() == RECORD_LEN {
            assert(bytes@.subrange(0, 16) == bytes@);
            Some(IndexRecord::read_at(bytes, 0))
        } else {
            None
        }
    }
}

/// Reads the records of an index file, leaving out a cut-off rest at its end.
pub fn decode_index(bytes: &[u8]) -> (r: Vec<IndexRecord>)
    ensures
        r@ == records_of(bytes@),
{
    let count: usize = bytes.len() / RECORD_LEN;
    let mut out: Vec<IndexRecord> = Vec::new();
    let mut i: usize = 0;
    while i < count
        invariant
            i <= count,
            count == bytes@.len() / 16,
            count * 16 <= bytes@.len() <= usize::MAX,
            out@.len() == i,
            forall|j: int| 0 <= j < i ==> out@[j] == #[trigger] records_of(bytes@)[j],
        decreases count - i,
    {
        out.push(IndexRecord::read_at(bytes, i * RECORD_LEN));
        i += 1;
    }
    assert(out@ =~= records_of(bytes@));
    out
}

/// Writes a list of records as the bytes of an index file.
pub fn encode_index(records: &Vec<IndexRecord>) -> (r: Vec<u8>)
    ensures
        r@ == index_bytes(records@),
{
    let n: usize = records.len();
    let mut out: Vec<u8> = Vec::new();
    let mut i: usize = 0;
    assert(records@.take(0) =~= Seq::<IndexRecord>::empty());
    while i < n
        invariant
            i <= n,
            n == records@.len(),
            out@ == index_bytes(records@.take(i as int)),
        decreases n - i,
    {
        let mut piece = records[i].as_bytes();
        assert(records@.take(i + 1).drop_last() == records@.take(i as int));
        out.append(&mut piece);
        i += 1;
    }
    assert(records@.take(n as int) == records@);
    out
}

} // verus!
