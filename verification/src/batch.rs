//! Batches of records, and which of their records come next.
use vstd::prelude::*;

verus! {

/// A position in a stream.
#[derive(Debug, PartialEq, Eq)]
pub struct S2Cursor {
    pub seq_num: u64,
}

/// A record as the service sends it.
#[derive(Debug, PartialEq, Eq)]
pub struct S2Record {
    pub body: String,
    pub seq_num: Option<u64>,
}

/// A batch of records as the service sends it.
#[derive(Debug, PartialEq, Eq)]
pub struct S2ReadBatch {
    pub start: Option<S2Cursor>,
    pub records: Vec<S2Record>,
}

impl S2ReadBatch {
    /// The sequence number of the first record, unless that record has its own.
    pub open spec fn base_seq_num(self, default_seq_num: u64) -> u64 {
        match self.start {
            Some(cursor) => cursor.seq_num,
            None => default_seq_num,
        }
    }

    /// Whether every record can be counted from the base without leaving the sequence numbers.
    pub open spec fn countable(self, default_seq_num: u64) -> bool {
        self.base_seq_num(default_seq_num) + self.records@.len() <= u64::MAX + 1
    }

    /// The bodies in order, each with its sequence number: its own, or else counted from the base.
    pub open spec fn numbered(self, default_seq_num: u64) -> Seq<(u64, String)> {
        Seq::new(
            self.records@.len(),
            |i: int|
                (
                    match self.records@[i].seq_num {
                        Some(seq_num) => seq_num,
                        None => (self.base_seq_num(default_seq_num) + i) as u64,
                    },
                    self.records@[i].body,
                ),
        )
    }

    /// Whether `into_records` can count every record from the base.
    pub fn is_countable(&self, default_seq_num: u64) -> (res: bool)
        ensures
            res == self.countable(default_seq_num),
    {
        let base: u64 = match &self.start {
            Some(cursor) => cursor.seq_num,
            None => default_seq_num,
        };
        let len: usize = self.records.len();
        len == 0 || len as u64 - 1 <= u64::MAX - base
    }

    /// The bodies in order, each with its sequence number. A record without a number of its own is
    /// counted from the start of the batch, or from `default_seq_num` where the batch has none.
    pub fn into_records(self, default_seq_num: u64) -> (res: Vec<(u64, String)>)
        requires
            self.countable(default_seq_num),
        ensures
            res@ == self.numbered(default_seq_num),
            res@.len() == self.records@.len(),
            forall|i: int|
                #![trigger res@[i]]
                0 <= i < res@.len() ==> {
                    &&& res@[i].1 == self.records@[i].body
                    &&& self.records@[i].seq_num matches Some(seq_num) ==> res@[i].0 == seq_num
                },
    {
        let base_seq_num: u64 = match &self.start {
            Some(cursor) => cursor.seq_num,
            None => default_seq_num,
        };
        let ghost records = self.records@;
        let mut res: Vec<(u64, String)> = Vec::new();
        for record in it: self.records
            invariant
                it.seq() == records,
                records == self.records@,
                base_seq_num == self.base_seq_num(default_seq_num),
                self.countable(default_seq_num),
                res@ == self.numbered(default_seq_num).take(it.index()),
        {
            let idx: usize = res.len();
            let seq_num: u64 = match record.seq_num {
                Some(seq_num) => seq_num,
                None => base_seq_num + idx as u64,
            };
            res.push((seq_num, record.body));
            assert(self.numbered(default_seq_num).take(it.index() + 1) =~= self.numbered(
                default_seq_num,
            ).take(it.index()).push(self.numbered(default_seq_num)[it.index()]));
        }
        assert(self.numbered(default_seq_num).take(records.len() as int) =~= self.numbered(
            default_seq_num,
        ));
        res
    }
}

/// Records without numbers of their own are numbered from the base on, without a gap.
pub proof fn law_records_are_counted(batch: S2ReadBatch, default_seq_num: u64)
    requires
        batch.countable(default_seq_num),
        forall|i: int|
            0 <= i < batch.records@.len() ==> (#[trigger] batch.records@[i]).seq_num is None,
    ensures
        forall|i: int|
            0 <= i < batch.records@.len() ==> (#[trigger] batch.numbered(default_seq_num)[i]).0
                == batch.base_seq_num(default_seq_num) + i,
{
}

/// A batch keeps all of its records and their order. A record that carries a sequence number keeps
/// it, with or without a start in the batch.
pub proof fn law_records_keep_their_numbers(batch: S2ReadBatch, default_seq_num: u64)
    ensures
        batch.numbered(default_seq_num).len() == batch.records@.len(),
        forall|i: int|
            0 <= i < batch.records@.len() ==> (#[trigger] batch.numbered(default_seq_num)[i]).1
                == batch.records@[i].body,
        forall|i: int|
            #![trigger batch.numbered(default_seq_num)[i]]
            0 <= i < batch.records@.len() ==> (batch.records@[i].seq_num matches Some(seq_num)
                ==> batch.numbered(default_seq_num)[i] == (seq_num, batch.records@[i].body)),
{
}

/// A record without a sequence number has the number of its place in the batch, counted from the
/// start of the batch. Only where the batch names no start does it count from the number that the
/// reader expects.
pub proof fn law_place_gives_the_number(batch: S2ReadBatch, default_seq_num: u64, i: int)
    requires
        0 <= i < batch.records@.len(),
        batch.countable(default_seq_num),
        batch.records@[i].seq_num is None,
    ensures
        batch.start matches Some(cursor) ==> batch.numbered(default_seq_num)[i].0 == cursor.seq_num
            + i,
        batch.start is None ==> batch.numbered(default_seq_num)[i].0 == default_seq_num + i,
{
}

/// The records of a batch can be counted exactly where the number of the last place is one.
pub proof fn law_countable(batch: S2ReadBatch, default_seq_num: u64)
    ensures
        batch.records@.len() == 0 ==> batch.countable(default_seq_num),
        batch.records@.len() > 0 ==> (batch.start matches Some(cursor) ==> (batch.countable(
            default_seq_num,
        ) <==> cursor.seq_num + (batch.records@.len() - 1) <= u64::MAX)),
        batch.records@.len() > 0 && batch.start is None ==> (batch.countable(default_seq_num)
            <==> default_seq_num + (batch.records@.len() - 1) <= u64::MAX),
{
}

} // verus!
