use crate::record::IndexRecord;
use crate::text::str_eq;
use vstd::prelude::*;
use vstd::string::StringExecFns;

verus! {

/// One record together with the id of the user whose index it goes to.
#[derive(Debug, Clone)]
pub struct IndexEntry {
    pub user_id: String,
    pub record: IndexRecord,
}

/// The index of one user for one month: the records of the user's lines, in
/// the order in which they were added.
#[derive(Debug, Clone)]
pub struct UserIndex {
    pub user_id: String,
    pub records: Vec<IndexRecord>,
}

/// The indexes of one channel for one month, one for each user that has a
/// line, in the order in which the users first had one.
#[derive(Debug, Clone)]
pub struct MonthIndex {
    pub users: Vec<UserIndex>,
}

impl View for IndexEntry {
    type V = (Seq<char>, IndexRecord);

    open spec fn view(&self) -> (Seq<char>, IndexRecord) {
        (self.user_id@, self.record)
    }
}

impl View for UserIndex {
    type V = (Seq<char>, Seq<IndexRecord>);

    open spec fn view(&self) -> (Seq<char>, Seq<IndexRecord>) {
        (self.user_id@, self.records@)
    }
}

/// What a list of user indexes holds.
pub open spec fn indexes_of(v: Seq<UserIndex>) -> Seq<(Seq<char>, Seq<IndexRecord>)> {
    Seq::new(v.len(), |i: int| v[i]@)
}

/// What a list of entries holds.
pub open spec fn entries_of(v: Seq<IndexEntry>) -> Seq<(Seq<char>, IndexRecord)> {
    Seq::new(v.len(), |i: int| v[i]@)
}

impl View for MonthIndex {
    type V = Seq<(Seq<char>, Seq<IndexRecord>)>;

    open spec fn view(&self) -> Seq<(Seq<char>, Seq<IndexRecord>)> {
        indexes_of(self.users@)
    }
}

/// The indexes after one more record of a user: it goes to the end of the
/// first index under the user's id, or into a new index at the end where the
/// user has none.
pub open spec fn with_record(
    users: Seq<(Seq<char>, Seq<IndexRecord>)>,
    id: Seq<char>,
    record: IndexRecord,
) -> Seq<(Seq<char>, Seq<IndexRecord>)>
    decreases users.len(),
{
    if users.len() == 0 {
        seq![(id, seq![record])]
    } else if users[0].0 == id {
        seq![(id, users[0].1.push(record))] + users.drop_first()
    } else {
        seq![users[0]] + with_record(users.drop_first(), id, record)
    }
}

/// The indexes after a list of entries, added one by one.
pub open spec fn with_entries(
    users: Seq<(Seq<char>, Seq<IndexRecord>)>,
    entries: Seq<(Seq<char>, IndexRecord)>,
) -> Seq<(Seq<char>, Seq<IndexRecord>)>
    decreases entries.len(),
{
    if entries.len() == 0 {
        users
    } else {
        with_record(with_entries(users, entries.drop_last()), entries.last().0, entries.last().1)
    }
}

/// The records of the first index under `id`; none where there is no such
/// index.
pub open spec fn records_for(users: Seq<(Seq<char>, Seq<IndexRecord>)>, id: Seq<char>) -> Seq<IndexRecord>
    decreases users.len(),
{
    if users.len() == 0 {
        Seq::empty()
    } else if users[0].0 == id {
        users[0].1
    } else {
        records_for(users.drop_first(), id)
    }
}

/// The records of the entries of one user, in the order of the entries.
pub open spec fn records_among(entries: Seq<(Seq<char>, IndexRecord)>, id: Seq<char>) -> Seq<IndexRecord>
    decreases entries.len(),
{
    if entries.len() == 0 {
        Seq::empty()
    } else if entries.last().0 == id {
        records_among(entries.drop_last(), id).push(entries.last().1)
    } else {
        records_among(entries.drop_last(), id)
    }
}

/// No two indexes are under the same id.
pub open spec fn distinct_users(users: Seq<(Seq<char>, Seq<IndexRecord>)>) -> bool {
    forall|i: int, j: int| 0 <= i < j < users.len() ==> (#[trigger] users[i]).0 != (#[trigger] users[j]).0
}

/// Where none of the first `i` indexes is under `id`, a record of `id` leaves
/// them as they are and goes into the rest.
pub proof fn lemma_with_record_skip(
    users: Seq<(Seq<char>, Seq<IndexRecord>)>,
    id: Seq<char>,
    record: IndexRecord,
    i: int,
)
    requires
        0 <= i <= users.len(),
        forall|j: int| 0 <= j < i ==> (#[trigger] users[j]).0 != id,
    ensures
        with_record(users, id, record) == users.take(i) + with_record(users.skip(i), id, record),
    decreases i,
{
    if i == 0 {
        assert(users.skip(0) == users);
        assert(users.take(0) + with_record(users, id, record) =~= with_record(users, id, record));
    } else {
        let rest = users.drop_first();
        assert forall|j: int| 0 <= j < i - 1 implies (#[trigger] rest[j]).0 != id by {
            assert(rest[j] == users[j + 1]);
        }
        lemma_with_record_skip(rest, id, record, i - 1);
        assert(rest.skip(i - 1) == users.skip(i));
        assert(seq![users[0]] + (rest.take(i - 1) + with_record(users.skip(i), id, record)) =~= users.take(i)
            + with_record(users.skip(i), id, record));
    }
}

/// After one more record of a user, that user's records are the old ones and
/// the new one behind them, and every other user's records are as before.
pub proof fn lemma_records_after_record(
    users: Seq<(Seq<char>, Seq<IndexRecord>)>,
    id: Seq<char>,
    record: IndexRecord,
    other: Seq<char>,
)
    ensures
        records_for(with_record(users, id, record), other) == if other == id {
            records_for(users, id).push(record)
        } else {
            records_for(users, other)
        },
    decreases users.len(),
{
    let after = with_record(users, id, record);
    if users.len() == 0 {
        assert(after[0] == (id, seq![record]));
        assert(after.drop_first() =~= Seq::empty());
        assert(records_for(after.drop_first(), other) =~= Seq::empty());
        assert(seq![record] =~= Seq::<IndexRecord>::empty().push(record));
    } else if users[0].0 == id {
        assert(after[0] == (id, users[0].1.push(record)));
        assert(after.drop_first() =~= users.drop_first());
    } else {
        lemma_records_after_record(users.drop_first(), id, record, other);
        assert(after[0] == users[0]);
        assert(after.drop_first() =~= with_record(users.drop_first(), id, record));
    }
}

/// In indexes built from entries, starting with none, each user's records are
/// the records of that user's entries, in the order of the entries.
pub proof fn lemma_records_of_entries(entries: Seq<(Seq<char>, IndexRecord)>, id: Seq<char>)
    ensures
        records_for(with_entries(Seq::empty(), entries), id) == records_among(entries, id),
    decreases entries.len(),
{
    if entries.len() > 0 {
        lemma_records_of_entries(entries.drop_last(), id);
        lemma_records_after_record(
            with_entries(Seq::empty(), entries.drop_last()),
            entries.last().0,
            entries.last().1,
            id,
        );
    }
}

/// One more record keeps the ids of the indexes distinct.
pub proof fn lemma_with_record_distinct(
    users: Seq<(Seq<char>, Seq<IndexRecord>)>,
    id: Seq<char>,
    record: IndexRecord,
)
    requires
        distinct_users(users),
    ensures
        distinct_users(with_record(users, id, record)),
        with_record(users, id, record).len() >= users.len(),
        forall|k: int|
            0 <= k < with_record(users, id, record).len() ==> (#[trigger] with_record(users, id, record)[k]).0
                == id || (k < users.len() && with_record(users, id, record)[k].0 == users[k].0),
    decreases users.len(),
{
    let after = with_record(users, id, record);
    if users.len() == 0 {
    } else if users[0].0 == id {
        assert forall|i: int, j: int| 0 <= i < j < after.len() implies (#[trigger] after[i]).0 != (
        #[trigger] after[j]).0 by {
            assert(after[j] == users[j]);
            if i > 0 {
                assert(after[i] == users[i]);
            } else {
                assert(users[0].0 != users[j].0);
            }
        }
    } else {
        let rest = users.drop_first();
        assert(distinct_users(rest)) by {
            assert forall|i: int, j: int| 0 <= i < j < rest.len() implies (#[trigger] rest[i]).0 != (
            #[trigger] rest[j]).0 by {
                assert(rest[i] == users[i + 1] && rest[j] == users[j + 1]);
            }
        }
        lemma_with_record_distinct(rest, id, record);
        let tail = with_record(rest, id, record);
        assert forall|i: int, j: int| 0 <= i < j < after.len() implies (#[trigger] after[i]).0 != (
        #[trigger] after[j]).0 by {
            assert(after[j] == tail[j - 1]);
            if i > 0 {
                assert(after[i] == tail[i - 1]);
            } else {
                assert(after[0] == users[0]);
                if tail[j - 1].0 != id {
                    assert(tail[j - 1].0 == rest[j - 1].0);
                    assert(rest[j - 1] == users[j]);
                }
            }
        }
        assert forall|k: int| 0 <= k < after.len() implies (#[trigger] after[k]).0 == id || (k
            < users.len() && after[k].0 == users[k].0) by {
            if k > 0 {
                assert(after[k] == tail[k - 1]);
                if tail[k - 1].0 != id {
                    assert(rest[k - 1] == users[k]);
                }
            }
        }
    }
}

/// Indexes built from entries, starting with none, are under distinct ids.
pub proof fn lemma_with_entries_distinct(entries: Seq<(Seq<char>, IndexRecord)>)
    ensures
        distinct_users(with_entries(Seq::empty(), entries)),
    decreases entries.len(),
{
    if entries.len() > 0 {
        lemma_with_entries_distinct(entries.drop_last());
        lemma_with_record_distinct(
            with_entries(Seq::empty(), entries.drop_last()),
            entries.last().0,
            entries.last().1,
        );
    }
}

impl MonthIndex {
    /// An index without users.
    pub fn new() -> (r: MonthIndex)
        ensures
            r@ == Seq::<(Seq<char>, Seq<IndexRecord>)>::empty(),
    {
        let r = MonthIndex { users: Vec::new() };
        assert(r@ =~= Seq::<(Seq<char>, Seq<IndexRecord>)>::empty());
        r
    }

    /// Adds one record to the index of a user.
    pub fn add(&mut self, user_id: &str, record: IndexRecord)
        ensures
            final(self)@ == with_record(old(self)@, user_id@, record),
    {
        let n: usize = self.users.len();
        let mut i: usize = 0;
        while i < n
            invariant
                i <= n,
                n == self.users@.len(),
                *self == *old(self),
                forall|j: int| 0 <= j < i ==> (#[trigger] self@[j]).0 != user_id@,
            decreases n - i,
        {
            if str_eq(self.users[i].user_id.as_str(), user_id) {
                proof {
                    lemma_with_record_skip(old(self)@, user_id@, record, i as int);
                }
                let ghost rest = old(self)@.skip(i as int);
                assert(rest[0] == old(self)@[i as int]);
                self.users[i].records.push(record);
                assert(self@ =~= old(self)@.take(i as int) + (seq![(user_id@, rest[0].1.push(record))]
                    + rest.drop_first()));
                return ;
            }
            i += 1;
        }
        proof {
            lemma_with_record_skip(old(self)@, user_id@, record, n as int);
            assert(old(self)@.skip(n as int) =~= Seq::empty());
            assert(old(self)@.take(n as int) == old(self)@);
        }
        let mut records: Vec<IndexRecord> = Vec::new();
        records.push(record);
        self.users.push(UserIndex { user_id: String::from_str(user_id), records });
        assert(self@ =~= old(self)@ + seq![(user_id@, seq![record])]);
    }

    /// Adds a list of entries, one by one.
    pub fn add_all(&mut self, entries: &Vec<IndexEntry>)
        ensures
            final(self)@ == with_entries(old(self)@, entries_of(entries@)),
    {
        let n: usize = entries.len();
        let mut i: usize = 0;
        assert(entries_of(entries@).take(0) =~= Seq::empty());
        while i < n
            invariant
                i <= n,
                n == entries@.len(),
                self@ == with_entries(old(self)@, entries_of(entries@).take(i as int)),
            decreases n - i,
        {
            assert(entries_of(entries@).take(i + 1).drop_last() == entries_of(entries@).take(i as int));
            assert(entries_of(entries@).take(i + 1).last() == entries@[i as int]@);
            self.add(entries[i].user_id.as_str(), entries[i].record);
            i += 1;
        }
        assert(entries_of(entries@).take(n as int) == entries_of(entries@));
    }

    /// The records of a user; none where the user has no index.
    pub fn records(&self, user_id: &str) -> (r: Vec<IndexRecord>)
        ensures
            r@ == records_for(self@, user_id@),
    {
        let n: usize = self.users.len();
        let mut i: usize = 0;
        assert(self@.skip(0) == self@);
        while i < n
            invariant
                i <= n,
                n == self.users@.len(),
                records_for(self@, user_id@) == records_for(self@.skip(i as int), user_id@),
            decreases n - i,
        {
            assert(self@.skip(i as int).drop_first() == self@.skip(i as int + 1));
            assert(self@.skip(i as int)[0] == self@[i as int]);
            if str_eq(self.users[i].user_id.as_str(), user_id) {
                return self.users[i].records.clone();
            }
            i += 1;
        }
        Vec::new()
    }
}

} // verus!
