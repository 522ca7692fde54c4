//! The reader at work: it takes in records while it is told to, and hands them on in batches.
use std::collections::VecDeque;
use std::ops::Range;
use std::sync::Arc;
use vstd::prelude::*;

use crate::admission::{scan, scan_records};
use crate::batch::S2ReadBatch;
use crate::clock::{utc_now, Timestamp};
use crate::config::S2InputConfig;
use crate::contents::{
    fits, hash_of, lemma_prefix_fits, total_bytes, total_records, view_of, BufferSize, Contents,
    ContentsView, Tally,
};
use crate::error::S2Error;
use crate::metadata::Metadata;

verus! {

/// The data that a record was parsed to.
#[derive(Debug, PartialEq, Eq)]
pub struct Parsed<B> {
    /// The data itself.
    pub buffer: B,
    /// What is known of it.
    pub contents: Contents,
}

/// What is known of the data that a record was parsed to.
pub open spec fn contents_of_parsed<B>(parsed: Option<Parsed<B>>) -> Option<ContentsView> {
    match parsed {
        Some(parsed) => Some(parsed.contents@),
        None => None,
    }
}

/// A record that waits to be handed on.
#[derive(Debug, PartialEq, Eq)]
pub struct QueuedRecord<B> {
    pub seq_num: u64,
    /// What it was parsed to: nothing, where the parser found no data in it.
    pub parsed: Option<Parsed<B>>,
    /// When the batch that held it came.
    pub timestamp: Timestamp,
}

impl<B> QueuedRecord<B> {
    /// What is known of the data of the record.
    pub open spec fn contents(self) -> Option<ContentsView> {
        contents_of_parsed(self.parsed)
    }
}

/// What is known of the data of `queue`, record by record.
pub open spec fn contents_of<B>(queue: Seq<QueuedRecord<B>>) -> Seq<Option<ContentsView>> {
    queue.map_values(|record: QueuedRecord<B>| record.contents())
}

/// The data of `queue`, in order, without the records that were parsed to nothing.
pub open spec fn buffers_of<B>(queue: Seq<QueuedRecord<B>>) -> Seq<B>
    decreases queue.len(),
{
    if queue.len() == 0 {
        Seq::empty()
    } else {
        let front = buffers_of(queue.drop_last());
        match queue.last().parsed {
            Some(parsed) => front.push(parsed.buffer),
            None => front,
        }
    }
}

/// What the pipeline asks of a reader at work. A replay is no such command: replays come first.
#[derive(Debug, Clone, Copy, PartialEq, Eq)]
pub enum Command {
    /// Read on.
    Extend,
    /// Stop reading.
    Pause,
    /// Hand on what has been read.
    Queue,
    /// End.
    Disconnect,
}

/// What is to be done about a command.
#[derive(Debug, Clone, Copy, PartialEq, Eq)]
pub enum CommandAction {
    /// Nothing.
    Continue,
    /// Give up the connection.
    CloseStream,
    /// Hand on what has been read.
    Flush,
    /// End.
    Stop,
}

/// The records of a batch that are taken in.
#[derive(Debug, PartialEq, Eq)]
pub struct Admission {
    /// The bodies of the records to parse, in order.
    pub bodies: Vec<String>,
    /// The error that ends the reader once they are parsed.
    pub failure: Option<S2Error>,
    /// When the batch came.
    pub timestamp: Timestamp,
}

/// What is to be done about the outcome of a read.
#[derive(Debug, PartialEq, Eq)]
pub enum ReadAction {
    /// Take in records.
    Ingest(Admission),
    /// Wait before the next read.
    Wait { secs: u64 },
    /// Report an error that is not fatal, and wait before the next read.
    Report { error: S2Error, secs: u64 },
}

/// A batch that is handed on.
#[derive(Debug, PartialEq, Eq)]
pub struct Extended<B> {
    pub total: BufferSize,
    pub hash: u64,
    /// The sequence numbers of the records in it.
    pub metadata: Metadata,
    /// The time up to which records have been handed on.
    pub watermark: Timestamp,
    /// The data, in order.
    pub buffers: Vec<B>,
}

/// A batch that has been taken from the queue.
struct Taken<B> {
    total: BufferSize,
    hash: u64,
    metadata: Metadata,
    /// When the last record in it came, if there is one.
    last_timestamp: Option<Timestamp>,
    buffers: Vec<B>,
}

impl<B> Taken<B> {
    spec fn with_watermark(self, watermark: Timestamp) -> Extended<B> {
        Extended {
            total: self.total,
            hash: self.hash,
            metadata: self.metadata,
            watermark,
            buffers: self.buffers,
        }
    }

    fn extended(self, watermark: Timestamp) -> (res: Extended<B>)
        ensures
            res == self.with_watermark(watermark),
    {
        Extended {
            total: self.total,
            hash: self.hash,
            metadata: self.metadata,
            watermark,
            buffers: self.buffers,
        }
    }
}

/// The state of a reader at work.
pub struct WorkerState<B> {
    pub config: S2InputConfig,
    /// The sequence number that comes next.
    pub next_seq_num: u64,
    /// The records taken in and not handed on yet.
    pub queue: Seq<QueuedRecord<B>>,
    /// Whether the reader is to read on.
    pub extending: bool,
}

impl<B> WorkerState<B> {
    /// The sequence number of the first record that has not been handed on.
    pub open spec fn frontier(self) -> int {
        self.next_seq_num - self.queue.len()
    }

    /// The sequence number at the front of the queue, or the next one where the queue is empty.
    pub open spec fn front(self) -> u64 {
        if self.queue.len() == 0 {
            self.next_seq_num
        } else {
            self.queue[0].seq_num
        }
    }

    /// The queue holds exactly the records from the frontier up to the next number, in order.
    pub open spec fn wf(self) -> bool {
        &&& 0 <= self.frontier()
        &&& forall|i: int|
            0 <= i < self.queue.len() ==> (#[trigger] self.queue[i]).seq_num == self.frontier() + i
    }

    /// How many records one batch takes from the queue: at least one, if there is one.
    pub open spec fn batch_len(self, max_batch_size: usize) -> int {
        let limit = if max_batch_size < 1 {
            1int
        } else {
            max_batch_size as int
        };
        if self.queue.len() < limit {
            self.queue.len() as int
        } else {
            limit
        }
    }

    /// The records that one batch takes from the queue.
    pub open spec fn batch(self, max_batch_size: usize) -> Seq<QueuedRecord<B>> {
        self.queue.take(self.batch_len(max_batch_size))
    }

    /// The state once a batch has been handed on.
    pub open spec fn flushed(self, max_batch_size: usize) -> WorkerState<B> {
        WorkerState { queue: self.queue.skip(self.batch_len(max_batch_size)), ..self }
    }

    /// The state once one more record has been taken in.
    pub open spec fn enqueued(
        self,
        parsed: Option<Parsed<B>>,
        timestamp: Timestamp,
    ) -> WorkerState<B> {
        WorkerState {
            next_seq_num: (self.next_seq_num + 1) as u64,
            queue: self.queue.push(
                QueuedRecord { seq_num: self.next_seq_num, parsed, timestamp },
            ),
            ..self
        }
    }

    /// The state once a command has been obeyed.
    pub open spec fn commanded(self, command: Command) -> WorkerState<B> {
        WorkerState {
            extending: match command {
                Command::Extend => true,
                Command::Pause => false,
                _ => self.extending,
            },
            ..self
        }
    }

    /// What is to be done about a command. The connection is given up by a pause only while
    /// reading.
    pub open spec fn action(self, command: Command) -> CommandAction {
        match command {
            Command::Queue => CommandAction::Flush,
            Command::Disconnect => CommandAction::Stop,
            Command::Pause => if self.extending {
                CommandAction::CloseStream
            } else {
                CommandAction::Continue
            },
            _ => CommandAction::Continue,
        }
    }

    /// Whether `extended` is the batch that is handed on at the time `now`.
    pub open spec fn is_extension(
        self,
        max_batch_size: usize,
        now: Timestamp,
        extended: Extended<B>,
    ) -> bool {
        let batch = self.batch(max_batch_size);
        let seq_numbers = extended.metadata.seq_numbers;
        &&& extended.total.is_total_of(contents_of(batch))
        &&& extended.hash == hash_of(contents_of(batch))
        &&& seq_numbers.start == self.frontier()
        &&& seq_numbers.end == self.flushed(max_batch_size).frontier()
        &&& extended.watermark == if batch.len() > 0 {
            batch.last().timestamp
        } else {
            now
        }
        &&& extended.buffers@ == buffers_of(batch)
    }
}

/// The error that ends a reader which expects `expected` and gets `records`.
pub open spec fn input_failure(records: Seq<(u64, String)>, expected: u64) -> Option<S2Error> {
    match scan(records, expected as int, None).1 {
        Some((expected, received)) => Some(
            S2Error::InputGap { expected: expected as u64, received },
        ),
        None => None,
    }
}

/// What is to be done about the outcome of a read at the time `timestamp`, by a reader that
/// expects `expected`.
pub open spec fn is_read_action(
    config: S2InputConfig,
    expected: u64,
    outcome: Result<Option<S2ReadBatch>, S2Error>,
    timestamp: Timestamp,
    action: ReadAction,
) -> bool {
    match outcome {
        Ok(Some(batch)) => {
            let records = batch.numbered(expected);
            &&& action matches ReadAction::Ingest(admission)
            &&& admission.bodies@ == scan(records, expected as int, None).0
            &&& admission.failure == input_failure(records, expected)
            &&& admission.timestamp == timestamp
        },
        Ok(None) => action == ReadAction::Wait { secs: config.reconnect_timeout_secs },
        Err(error) => action == ReadAction::Report { error, secs: config.reconnect_timeout_secs },
    }
}

/// A reader at work.
pub struct Worker<B> {
    config: Arc<S2InputConfig>,
    next_seq_num: u64,
    queue: VecDeque<QueuedRecord<B>>,
    extending: bool,
}

impl<B> View for Worker<B> {
    type V = WorkerState<B>;

    closed spec fn view(&self) -> WorkerState<B> {
        WorkerState {
            config: *self.config,
            next_seq_num: self.next_seq_num,
            queue: self.queue@,
            extending: self.extending,
        }
    }
}

impl<B> Worker<B> {
    /// A reader that starts at `next_seq_num` once it is told to read.
    pub fn new(config: Arc<S2InputConfig>, next_seq_num: u64) -> (res: Self)
        ensures
            res@ == (WorkerState::<B> {
                config: *config,
                next_seq_num,
                queue: Seq::empty(),
                extending: false,
            }),
            res@.wf(),
    {
        Self { config, next_seq_num, queue: VecDeque::new(), extending: false }
    }

    /// Whether the reader is to read on.
    pub fn is_extending(&self) -> (res: bool)
        ensures
            res == self@.extending,
    {
        self.extending
    }

    /// The sequence number that comes next.
    pub fn next_seq_num(&self) -> (res: u64)
        ensures
            res == self@.next_seq_num,
    {
        self.next_seq_num
    }

    /// Obeys a command.
    pub fn on_command(&mut self, command: Command) -> (res: CommandAction)
        ensures
            final(self)@ == old(self)@.commanded(command),
            res == old(self)@.action(command),
    {
        match command {
            Command::Extend => {
                self.extending = true;
                CommandAction::Continue
            },
            Command::Pause => {
                if self.extending {
                    self.extending = false;
                    CommandAction::CloseStream
                } else {
                    CommandAction::Continue
                }
            },
            Command::Queue => CommandAction::Flush,
            Command::Disconnect => CommandAction::Stop,
        }
    }

    /// Decides which records of a batch that came at the time `timestamp` are taken in.
    fn admission(&self, batch: S2ReadBatch, timestamp: Timestamp) -> (res: Admission)
        requires
            batch.countable(self@.next_seq_num),
        ensures
            is_read_action(
                self@.config,
                self@.next_seq_num,
                Ok(Some(batch)),
                timestamp,
                ReadAction::Ingest(res),
            ),
    {
        let records = batch.into_records(self.next_seq_num);
        let scanned = scan_records(records, self.next_seq_num, None);
        let failure = match scanned.gap {
            Some((expected, received)) => Some(S2Error::InputGap { expected, received }),
            None => None,
        };
        Admission { bodies: scanned.bodies, failure, timestamp }
    }

    /// Decides about the outcome of a read that ended at the time `timestamp`: a batch, the end of
    /// the stream (`None`), or an error.
    pub fn on_read_at(
        &self,
        outcome: Result<Option<S2ReadBatch>, S2Error>,
        timestamp: Timestamp,
    ) -> (res: ReadAction)
        requires
            outcome matches Ok(Some(batch)) ==> batch.countable(self@.next_seq_num),
        ensures
            is_read_action(self@.config, self@.next_seq_num, outcome, timestamp, res),
    {
        let secs: u64 = self.config.reconnect_timeout_secs;
        match outcome {
            Ok(Some(batch)) => ReadAction::Ingest(self.admission(batch, timestamp)),
            Ok(None) => ReadAction::Wait { secs },
            Err(error) => ReadAction::Report { error, secs },
        }
    }

    /// Decides about the outcome of a read that ended just now. The clock is read only for a batch.
    pub fn on_read(&self, outcome: Result<Option<S2ReadBatch>, S2Error>) -> (res: ReadAction)
        requires
            outcome matches Ok(Some(batch)) ==> batch.countable(self@.next_seq_num),
        ensures
            exists|now: Timestamp|
                now.nanos < 1_000_000_000 && #[trigger] is_read_action(
                    self@.config,
                    self@.next_seq_num,
                    outcome,
                    now,
                    res,
                ),
    {
        let secs: u64 = self.config.reconnect_timeout_secs;
        let ghost mut now = Timestamp { secs: 0, nanos: 0 };
        let action = match outcome {
            Ok(Some(batch)) => {
                let timestamp = utc_now();
                proof {
                    now = timestamp;
                }
                ReadAction::Ingest(self.admission(batch, timestamp))
            },
            Ok(None) => ReadAction::Wait { secs },
            Err(error) => ReadAction::Report { error, secs },
        };
        assert(is_read_action(self@.config, self@.next_seq_num, outcome, now, action));
        action
    }

    /// Takes in what the next record was parsed to.
    pub fn enqueue(&mut self, parsed: Option<Parsed<B>>, timestamp: Timestamp)
        requires
            old(self)@.wf(),
            old(self)@.next_seq_num < u64::MAX,
        ensures
            final(self)@.wf(),
            final(self)@ == old(self)@.enqueued(parsed, timestamp),
    {
        self.queue.push_back(QueuedRecord { seq_num: self.next_seq_num, parsed, timestamp });
        self.next_seq_num = self.next_seq_num + 1;
    }

    /// Whether the totals of the next batch can be counted.
    pub fn can_flush(&self, max_batch_size: usize) -> (res: bool)
        ensures
            res == fits(contents_of(self@.batch(max_batch_size))),
    {
        let limit: usize = if max_batch_size < 1 {
            1
        } else {
            max_batch_size
        };
        let len: usize = if self.queue.len() < limit {
            self.queue.len()
        } else {
            limit
        };
        let ghost all = contents_of(self@.batch(max_batch_size));
        let mut records: usize = 0;
        let mut bytes: usize = 0;
        let mut i: usize = 0;
        while i < len
            invariant
                i <= len <= self.queue@.len(),
                all == contents_of(self.queue@.take(len as int)),
                all == contents_of(self@.batch(max_batch_size)),
                records == total_records(all.take(i as int)),
                bytes == total_bytes(all.take(i as int)),
            decreases len - i,
        {
            assert(all.take(i + 1).drop_last() =~= all.take(i as int));
            if let Some(parsed) = &self.queue[i].parsed {
                let size = parsed.contents.size;
                if size.records > usize::MAX - records || size.bytes > usize::MAX - bytes {
                    proof {
                        if fits(all) {
                            lemma_prefix_fits(all, i + 1);
                        }
                    }
                    return false;
                }
                records = records + size.records;
                bytes = bytes + size.bytes;
            }
            i = i + 1;
        }
        assert(all.take(len as int) =~= all);
        true
    }

    /// Takes the next batch from the queue: the records at its front, at most `max_batch_size` of
    /// them but at least one, if there is one.
    fn take_batch(&mut self, max_batch_size: usize) -> (res: Taken<B>)
        requires
            old(self)@.wf(),
            fits(contents_of(old(self)@.batch(max_batch_size))),
        ensures
            final(self)@.wf(),
            final(self)@ == old(self)@.flushed(max_batch_size),
            res.last_timestamp is None <==> old(self)@.queue.len() == 0,
            forall|watermark: Timestamp|
                (res.last_timestamp matches Some(timestamp) ==> watermark == timestamp)
                    ==> old(self)@.is_extension(
                    max_batch_size,
                    watermark,
                    #[trigger] res.with_watermark(watermark),
                ),
    {
        let limit: usize = if max_batch_size < 1 {
            1
        } else {
            max_batch_size
        };
        let mut tally = Tally::new();
        let mut count: usize = 0;
        let mut range: Option<Range<u64>> = None;
        let mut last_timestamp: Option<Timestamp> = None;
        let mut buffers: Vec<B> = Vec::new();
        let ghost before = self@;
        let ghost n = before.batch_len(max_batch_size);
        let ghost all = contents_of(before.batch(max_batch_size));
        assert(before.queue.skip(0) =~= before.queue);
        while count < limit && self.queue.len() > 0
            invariant
                before.wf(),
                n == before.batch_len(max_batch_size),
                all == contents_of(before.batch(max_batch_size)),
                fits(all),
                limit >= 1,
                limit == if max_batch_size < 1 {
                    1
                } else {
                    max_batch_size
                },
                count <= n,
                self@ == (WorkerState { queue: before.queue.skip(count as int), ..before }),
                tally.wf(),
                tally@ == all.take(count as int),
                buffers@ == buffers_of(before.queue.take(count as int)),
                count == 0 ==> range is None && last_timestamp is None,
                count > 0 ==> range is Some && range->0.start == before.frontier() && range->0.end
                    == before.frontier() + count,
                count > 0 ==> last_timestamp == Some(before.queue[count - 1].timestamp),
            decreases self.queue@.len(),
        {
            if let Some(record) = self.queue.pop_front() {
                range = Some(
                    match range {
                        Some(range) => Range { start: range.start, end: record.seq_num + 1 },
                        None => Range { start: record.seq_num, end: record.seq_num + 1 },
                    },
                );
                let (contents, buffer) = match record.parsed {
                    Some(parsed) => (Some(parsed.contents), Some(parsed.buffer)),
                    None => (None, None),
                };
                proof {
                    lemma_prefix_fits(all, count + 1);
                    assert(all.take(count + 1) =~= all.take(count as int).push(all[count as int]));
                    assert(before.queue.take(count + 1).drop_last() =~= before.queue.take(
                        count as int,
                    ));
                }
                tally.add(&contents);
                if let Some(buffer) = buffer {
                    buffers.push(buffer);
                }
                last_timestamp = Some(record.timestamp);
                count = count + 1;
                assert(self.queue@ =~= before.queue.skip(count as int));
            }
        }
        assert(all.take(n) =~= all);
        let seq_numbers = match range {
            Some(range) => range,
            None => Range { start: self.next_seq_num, end: self.next_seq_num },
        };
        Taken {
            total: tally.total(),
            hash: tally.hash(),
            metadata: Metadata { seq_numbers },
            last_timestamp,
            buffers,
        }
    }

    /// Hands on the next batch: the records at the front of the queue, at most `max_batch_size`
    /// of them but at least one, if there is one. Where there is none, the batch is empty and its
    /// watermark is `now`.
    pub fn flush_queue_at(&mut self, max_batch_size: usize, now: Timestamp) -> (res: Extended<B>)
        requires
            old(self)@.wf(),
            fits(contents_of(old(self)@.batch(max_batch_size))),
        ensures
            final(self)@.wf(),
            final(self)@ == old(self)@.flushed(max_batch_size),
            old(self)@.is_extension(max_batch_size, now, res),
            res.metadata.seq_numbers.start == old(self)@.front(),
            res.metadata.seq_numbers.end == final(self)@.front(),
            final(self)@.front() - old(self)@.front() == old(self)@.queue.len()
                - final(self)@.queue.len(),
    {
        let taken = self.take_batch(max_batch_size);
        let watermark = match taken.last_timestamp {
            Some(timestamp) => timestamp,
            None => now,
        };
        taken.extended(watermark)
    }

    /// Hands on the next batch, with the current time as the watermark of an empty one. The clock
    /// is read only for that.
    pub fn flush_queue(&mut self, max_batch_size: usize) -> (res: Extended<B>)
        requires
            old(self)@.wf(),
            fits(contents_of(old(self)@.batch(max_batch_size))),
        ensures
            final(self)@.wf(),
            final(self)@ == old(self)@.flushed(max_batch_size),
            res.metadata.seq_numbers.start == old(self)@.front(),
            res.metadata.seq_numbers.end == final(self)@.front(),
            final(self)@.front() - old(self)@.front() == old(self)@.queue.len()
                - final(self)@.queue.len(),
            old(self)@.queue.len() > 0 ==> forall|now: Timestamp| #[trigger]
                old(self)@.is_extension(max_batch_size, now, res),
            exists|now: Timestamp|
                now.nanos < 1_000_000_000 && #[trigger] old(self)@.is_extension(
                    max_batch_size,
                    now,
                    res,
                ),
    {
        let taken = self.take_batch(max_batch_size);
        let ghost mut now = Timestamp { secs: 0, nanos: 0 };
        let watermark = match taken.last_timestamp {
            Some(timestamp) => timestamp,
            None => {
                let timestamp = utc_now();
                proof {
                    now = timestamp;
                }
                timestamp
            },
        };
        let extended = taken.extended(watermark);
        assert(old(self)@.is_extension(max_batch_size, watermark, extended));
        assert(old(self)@.is_extension(max_batch_size, now, extended));
        extended
    }
}

} // verus!
