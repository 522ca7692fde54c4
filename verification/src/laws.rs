//! What holds of the reader as a whole: every record is handed on exactly once, in order, also
//! across a restart.
use vstd::prelude::*;

use crate::admission::{consecutive, law_taken_in_order, scan};
use crate::batch::S2ReadBatch;
use crate::clock::Timestamp;
use crate::config::S2InputConfig;
use crate::contents::{
    law_hash_is_the_digest_of_all, law_size_is_the_sum, view_of, Contents, ContentsView,
};
use crate::digest::xxh3_digest;
use crate::endpoint::start_position;
use crate::error::S2Error;
use crate::metadata::Metadata;
use crate::replay::{ReplayState, Replayed};
use crate::worker::{
    buffers_of, contents_of, is_read_action, Command, Extended, Parsed, QueuedRecord, ReadAction,
    WorkerState,
};

verus! {

/// What a record with a given sequence number is parsed to.
pub type Log = spec_fn(int) -> Option<ContentsView>;

/// The state of a reader that has taken in `parsed`, record by record.
pub open spec fn ingested<B>(
    state: WorkerState<B>,
    parsed: Seq<Option<Parsed<B>>>,
    timestamp: Timestamp,
) -> WorkerState<B>
    decreases parsed.len(),
{
    if parsed.len() == 0 {
        state
    } else {
        ingested(state, parsed.drop_last(), timestamp).enqueued(parsed.last(), timestamp)
    }
}

/// Taking in records appends them to the queue, numbered from the next number on.
pub proof fn law_ingested<B>(
    state: WorkerState<B>,
    parsed: Seq<Option<Parsed<B>>>,
    timestamp: Timestamp,
)
    requires
        state.wf(),
        state.next_seq_num + parsed.len() <= u64::MAX,
    ensures
        ({
            let after = ingested(state, parsed, timestamp);
            &&& after.wf()
            &&& after.next_seq_num == state.next_seq_num + parsed.len()
            &&& after.frontier() == state.frontier()
            &&& after.config == state.config
            &&& after.extending == state.extending
            &&& after.queue == state.queue + Seq::new(
                parsed.len(),
                |i: int|
                    QueuedRecord {
                        seq_num: (state.next_seq_num + i) as u64,
                        parsed: parsed[i],
                        timestamp,
                    },
            )
        }),
    decreases parsed.len(),
{
    if parsed.len() > 0 {
        law_ingested(state, parsed.drop_last(), timestamp);
    }
}

/// A record is queued under the sequence number that it carried: where the bodies taken from a
/// batch are parsed in order and taken in, the record behind the `k`-th body is the one that
/// carries the number of the `k`-th new record in the queue.
pub proof fn law_numbers_are_kept<B>(
    state: WorkerState<B>,
    records: Seq<(u64, String)>,
    parsed: Seq<Option<Parsed<B>>>,
    timestamp: Timestamp,
) -> (at: Seq<int>)
    requires
        state.wf(),
        parsed.len() == scan(records, state.next_seq_num as int, None).0.len(),
        state.next_seq_num + parsed.len() <= u64::MAX,
    ensures
        consecutive(
            records,
            at,
            state.next_seq_num as int,
            scan(records, state.next_seq_num as int, None).0,
        ),
        forall|k: int|
            0 <= k < parsed.len() ==> ingested(state, parsed, timestamp).queue[state.queue.len()
                + k].seq_num == records[#[trigger] at[k]].0,
{
    let at = law_taken_in_order(records, state.next_seq_num as int, None);
    law_ingested(state, parsed, timestamp);
    at
}

/// Obeying a command changes no record, and no position.
pub proof fn law_commands_keep_records<B>(state: WorkerState<B>, command: Command)
    requires
        state.wf(),
    ensures
        state.commanded(command).wf(),
        state.commanded(command).queue == state.queue,
        state.commanded(command).next_seq_num == state.next_seq_num,
        state.commanded(command).frontier() == state.frontier(),
{
}

/// A batch holds exactly the records of its range, in order, and leaves the rest in the queue.
pub proof fn law_batch_holds_its_range<B>(
    state: WorkerState<B>,
    max_batch_size: usize,
    now: Timestamp,
    extended: Extended<B>,
)
    requires
        state.wf(),
        state.is_extension(max_batch_size, now, extended),
    ensures
        ({
            let batch = state.batch(max_batch_size);
            let range = extended.metadata.seq_numbers;
            &&& batch.len() == range.end - range.start
            &&& forall|i: int|
                0 <= i < batch.len() ==> (#[trigger] batch[i]).seq_num == range.start + i
            &&& batch + state.flushed(max_batch_size).queue == state.queue
            &&& state.flushed(max_batch_size).wf()
            &&& state.flushed(max_batch_size).next_seq_num == state.next_seq_num
        }),
{
}

/// Handing on a batch moves the front of the queue by as many numbers as the queue becomes shorter,
/// whatever the records hold.
pub proof fn law_front_moves<B>(state: WorkerState<B>, max_batch_size: usize)
    requires
        state.wf(),
    ensures
        ({
            let rest = state.flushed(max_batch_size);
            &&& rest.wf()
            &&& state.front() == state.frontier()
            &&& rest.front() == rest.frontier()
            &&& rest.front() - state.front() == state.queue.len() - rest.queue.len()
        }),
{
}

/// The range of a batch starts at the front of the queue and ends at the front of what is left. It
/// is as long as the queue has become shorter, and the next batch starts where it ends.
pub proof fn law_range_of_batch<B>(
    state: WorkerState<B>,
    max_batch_size: usize,
    now: Timestamp,
    extended: Extended<B>,
    next_size: usize,
    next_now: Timestamp,
    next: Extended<B>,
)
    requires
        state.wf(),
        state.is_extension(max_batch_size, now, extended),
        state.flushed(max_batch_size).is_extension(next_size, next_now, next),
    ensures
        ({
            let range = extended.metadata.seq_numbers;
            let rest = state.flushed(max_batch_size);
            &&& range.start == state.front()
            &&& range.end == rest.front()
            &&& range.end - range.start == state.queue.len() - rest.queue.len()
            &&& next.metadata.seq_numbers.start == range.end
        }),
{
}

/// Every batch starts where the one before it ended, whatever is read in between: no record is
/// left out, and none is handed on twice.
pub proof fn law_batches_are_adjacent<B>(
    state: WorkerState<B>,
    first_size: usize,
    first_now: Timestamp,
    first: Extended<B>,
    parsed: Seq<Option<Parsed<B>>>,
    timestamp: Timestamp,
    second_size: usize,
    second_now: Timestamp,
    second: Extended<B>,
)
    requires
        state.wf(),
        state.is_extension(first_size, first_now, first),
        state.next_seq_num + parsed.len() <= u64::MAX,
        ingested(state.flushed(first_size), parsed, timestamp).is_extension(
            second_size,
            second_now,
            second,
        ),
    ensures
        second.metadata.seq_numbers.start == first.metadata.seq_numbers.end,
{
    law_batch_holds_its_range(state, first_size, first_now, first);
    law_ingested(state.flushed(first_size), parsed, timestamp);
}

/// The queue becomes shorter with every batch, until it is empty. No batch is larger than asked
/// for, except that a size of nothing counts as one.
pub proof fn law_batches_make_progress<B>(state: WorkerState<B>, max_batch_size: usize)
    ensures
        state.queue.len() > 0 ==> state.flushed(max_batch_size).queue.len() < state.queue.len(),
        max_batch_size > 0 ==> state.batch(max_batch_size).len() <= max_batch_size,
        max_batch_size == 0 ==> state.batch(max_batch_size).len() <= 1,
        state.queue.len() <= max_batch_size ==> state.flushed(max_batch_size).queue.len() == 0,
{
}

/// Something that happens to a reader at work.
pub enum Event<B> {
    /// It obeys a command.
    Commanded(Command),
    /// It takes in a record.
    Enqueued(Option<Parsed<B>>, Timestamp),
    /// It hands on a batch of at most so many records.
    Flushed(usize),
}

/// The state of a reader after `event`.
pub open spec fn after<B>(state: WorkerState<B>, event: Event<B>) -> WorkerState<B> {
    match event {
        Event::Commanded(command) => state.commanded(command),
        Event::Enqueued(parsed, timestamp) => state.enqueued(parsed, timestamp),
        Event::Flushed(max_batch_size) => state.flushed(max_batch_size),
    }
}

/// The state of a reader after `events`.
pub open spec fn after_all<B>(state: WorkerState<B>, events: Seq<Event<B>>) -> WorkerState<B>
    decreases events.len(),
{
    if events.len() == 0 {
        state
    } else {
        after(after_all(state, events.drop_last()), events.last())
    }
}

/// The records that a reader hands on in `events`, in order.
pub open spec fn handed_on<B>(state: WorkerState<B>, events: Seq<Event<B>>) -> Seq<QueuedRecord<B>>
    decreases events.len(),
{
    if events.len() == 0 {
        Seq::empty()
    } else {
        let front = events.drop_last();
        handed_on(state, front) + match events.last() {
            Event::Flushed(max_batch_size) => after_all(state, front).batch(max_batch_size),
            _ => Seq::empty(),
        }
    }
}

/// The records that a reader takes in in `events`, in order, each with the number that was next.
pub open spec fn taken_in<B>(state: WorkerState<B>, events: Seq<Event<B>>) -> Seq<QueuedRecord<B>>
    decreases events.len(),
{
    if events.len() == 0 {
        Seq::empty()
    } else {
        let front = events.drop_last();
        match events.last() {
            Event::Enqueued(parsed, timestamp) => taken_in(state, front).push(
                QueuedRecord {
                    seq_num: after_all(state, front).next_seq_num,
                    parsed,
                    timestamp,
                },
            ),
            _ => taken_in(state, front),
        }
    }
}

/// Whatever happens to a reader, in whatever order: the records that it has handed on and those
/// that it still holds are the ones that it held and those that it took in, in order. They carry
/// the sequence numbers from its first frontier on, each once, and its frontier has moved by as
/// many records as it has handed on.
pub proof fn law_every_record_once<B>(state: WorkerState<B>, events: Seq<Event<B>>)
    requires
        state.wf(),
        state.next_seq_num + taken_in(state, events).len() <= u64::MAX,
    ensures
        ({
            let end = after_all(state, events);
            let handed = handed_on(state, events);
            let all = handed + end.queue;
            &&& end.wf()
            &&& end.next_seq_num == state.next_seq_num + taken_in(state, events).len()
            &&& end.frontier() == state.frontier() + handed.len()
            &&& forall|i: int|
                0 <= i < all.len() ==> (#[trigger] all[i]).seq_num == state.frontier() + i
            &&& all == state.queue + taken_in(state, events)
        }),
    decreases events.len(),
{
    if events.len() > 0 {
        let front = events.drop_last();
        law_every_record_once(state, front);
        let mid = after_all(state, front);
        let end = after_all(state, events);
        let before = handed_on(state, front);
        let handed = handed_on(state, events);
        let seen = before + mid.queue;
        let all = handed + end.queue;
        match events.last() {
            Event::Commanded(_) => {
                assert(all =~= seen);
            },
            Event::Enqueued(parsed, timestamp) => {
                assert(all =~= seen.push(
                    QueuedRecord { seq_num: mid.next_seq_num, parsed, timestamp },
                ));
            },
            Event::Flushed(max_batch_size) => {
                assert(all =~= seen);
            },
        }
        assert forall|i: int| 0 <= i < all.len() implies (#[trigger] all[i]).seq_num
            == state.frontier() + i by {
            if i < seen.len() {
                assert(all[i] == seen[i]);
            }
        }
    }
}

/// Whether `reports` are the batches that a reader hands on in `events`, in order, each at some
/// time.
pub open spec fn are_reported<B>(
    state: WorkerState<B>,
    events: Seq<Event<B>>,
    reports: Seq<Extended<B>>,
) -> bool
    decreases events.len(),
{
    if events.len() == 0 {
        reports.len() == 0
    } else {
        let front = events.drop_last();
        match events.last() {
            Event::Flushed(max_batch_size) => {
                &&& reports.len() > 0
                &&& exists|now: Timestamp| #[trigger]
                    after_all(state, front).is_extension(max_batch_size, now, reports.last())
                &&& are_reported(state, front, reports.drop_last())
            },
            _ => are_reported(state, front, reports),
        }
    }
}

/// Whether the range of `second` starts where that of `first` ends.
pub open spec fn adjacent<B>(first: Extended<B>, second: Extended<B>) -> bool {
    second.metadata.seq_numbers.start == first.metadata.seq_numbers.end
}

/// The ranges of all batches that a reader hands on tile the stream, also where some are empty:
/// the first starts with the first record that had not been handed on, which for a reader that
/// just went to work is the position that it reads from, and each of the others starts where the
/// one before it ends. The last ends where the reader stands.
pub proof fn law_ranges_tile<B>(
    state: WorkerState<B>,
    events: Seq<Event<B>>,
    reports: Seq<Extended<B>>,
)
    requires
        state.wf(),
        state.next_seq_num + taken_in(state, events).len() <= u64::MAX,
        are_reported(state, events, reports),
    ensures
        reports.len() > 0 ==> reports[0].metadata.seq_numbers.start == state.frontier(),
        reports.len() > 0 && state.queue.len() == 0 ==> reports[0].metadata.seq_numbers.start
            == state.next_seq_num,
        forall|i: int, j: int|
            0 <= i && i + 1 == j && j < reports.len() ==> adjacent(
                #[trigger] reports[i],
                #[trigger] reports[j],
            ),
        after_all(state, events).frontier() == if reports.len() == 0 {
            state.frontier()
        } else {
            reports.last().metadata.seq_numbers.end as int
        },
    decreases events.len(),
{
    if events.len() > 0 {
        let front = events.drop_last();
        law_every_record_once(state, front);
        if let Event::Flushed(max_batch_size) = events.last() {
            let before = reports.drop_last();
            law_ranges_tile(state, front, before);
            assert forall|i: int, j: int|
                0 <= i && i + 1 == j && j < reports.len() implies adjacent(
                #[trigger] reports[i],
                #[trigger] reports[j],
            ) by {
                if j < before.len() {
                    assert(reports[i] == before[i] && reports[j] == before[j]);
                }
            }
        } else {
            law_ranges_tile(state, front, reports);
        }
    }
}

/// Replaying the range of a batch gives the size and the hash of the batch, and leads to where
/// the reader stood, if the records of the range are parsed to what they were parsed to before.
pub proof fn law_replay_reproduces_batch<B>(
    log: Log,
    state: WorkerState<B>,
    max_batch_size: usize,
    now: Timestamp,
    extended: Extended<B>,
    replay: ReplayState,
    replayed: Replayed,
)
    requires
        state.wf(),
        forall|i: int|
            0 <= i < state.queue.len() ==> (#[trigger] state.queue[i]).contents() == log(
                state.queue[i].seq_num as int,
            ),
        state.is_extension(max_batch_size, now, extended),
        replay.wf(),
        replay.done(),
        replay.start == extended.metadata.seq_numbers.start,
        replay.end == extended.metadata.seq_numbers.end,
        forall|k: int|
            0 <= k < replay.seen.len() ==> #[trigger] replay.seen[k] == log(replay.start + k),
        replay.is_outcome(replayed),
    ensures
        replayed.total == extended.total,
        replayed.hash == extended.hash,
        replayed.next_seq_num == state.flushed(max_batch_size).frontier(),
{
    let batch = state.batch(max_batch_size);
    law_batch_holds_its_range(state, max_batch_size, now, extended);
    assert(contents_of(batch) =~= replay.seen);
}

/// A reader that resumes from the position saved with a batch goes on with the first record that
/// was not handed on.
pub proof fn law_resume_after_batch<B>(
    config: S2InputConfig,
    state: WorkerState<B>,
    max_batch_size: usize,
    now: Timestamp,
    extended: Extended<B>,
)
    requires
        state.wf(),
        state.is_extension(max_batch_size, now, extended),
    ensures
        start_position(config, Some(Ok::<Metadata, String>(extended.metadata))) == state.flushed(
            max_batch_size,
        ).frontier(),
{
}

/// The first batch after a restart starts where the last saved one ended: a restart leaves no
/// record out, and hands none on twice.
pub proof fn law_restart_is_adjacent<B>(
    config: S2InputConfig,
    state: WorkerState<B>,
    last_size: usize,
    last_now: Timestamp,
    last: Extended<B>,
    resumed: WorkerState<B>,
    parsed: Seq<Option<Parsed<B>>>,
    timestamp: Timestamp,
    first_size: usize,
    first_now: Timestamp,
    first: Extended<B>,
)
    requires
        state.wf(),
        state.is_extension(last_size, last_now, last),
        resumed.queue.len() == 0,
        resumed.next_seq_num == start_position(
            config,
            Some(Ok::<Metadata, String>(last.metadata)),
        ),
        resumed.next_seq_num + parsed.len() <= u64::MAX,
        ingested(resumed, parsed, timestamp).is_extension(first_size, first_now, first),
    ensures
        first.metadata.seq_numbers.start == last.metadata.seq_numbers.end,
{
    law_ingested(resumed, parsed, timestamp);
}

/// The data of two batches, one after the other, is the data of one batch of both.
pub proof fn law_buffers_keep_order<B>(first: Seq<QueuedRecord<B>>, second: Seq<QueuedRecord<B>>)
    ensures
        buffers_of(first + second) == buffers_of(first) + buffers_of(second),
    decreases second.len(),
{
    if second.len() > 0 {
        law_buffers_keep_order(first, second.drop_last());
        assert((first + second).drop_last() =~= first + second.drop_last());
        if let Some(parsed) = second.last().parsed {
            assert((buffers_of(first) + buffers_of(second.drop_last())).push(parsed.buffer)
                =~= buffers_of(first) + buffers_of(second));
        }
    }
}

/// A state is valid exactly where the queue ends right before the next number and its numbers
/// follow each other.
pub proof fn law_valid_states<B>(state: WorkerState<B>)
    ensures
        state.wf() <==> state.queue.len() <= state.next_seq_num && forall|i: int|
            0 <= i < state.queue.len() ==> (#[trigger] state.queue[i]).seq_num
                == state.next_seq_num - state.queue.len() + i,
        state.frontier() == state.next_seq_num - state.queue.len(),
        state.wf() && state.queue.len() > 0 ==> state.front() == state.queue[0].seq_num,
        state.queue.len() == 0 ==> state.front() == state.next_seq_num,
{
}

/// A command to read on or to stop reading is obeyed; the other commands leave that as it is. A
/// command changes nothing else.
pub proof fn law_commands_are_obeyed<B>(state: WorkerState<B>)
    ensures
        state.commanded(Command::Extend).extending,
        !state.commanded(Command::Pause).extending,
        state.commanded(Command::Queue).extending == state.extending,
        state.commanded(Command::Disconnect).extending == state.extending,
        forall|command: Command| #[trigger]
            state.commanded(command).queue == state.queue && state.commanded(command).next_seq_num
                == state.next_seq_num && state.commanded(command).config == state.config,
{
}

/// Only a flush hands on, only a disconnect ends, and only a pause while reading gives up the
/// connection. Nothing else is done about a command.
pub proof fn law_actions<B>(state: WorkerState<B>, command: Command)
    ensures
        state.action(command) is Flush <==> command is Queue,
        state.action(command) is Stop <==> command is Disconnect,
        state.action(command) is CloseStream <==> command is Pause && state.extending,
        state.action(command) is Continue <==> command is Extend || (command is Pause
            && !state.extending),
{
}

/// A record that is taken in goes behind the queue with the number that was next, what it was
/// parsed to and its time. Nothing else changes but the next number.
pub proof fn law_record_is_queued<B>(
    state: WorkerState<B>,
    parsed: Option<Parsed<B>>,
    timestamp: Timestamp,
)
    requires
        state.next_seq_num < u64::MAX,
    ensures
        ({
            let after = state.enqueued(parsed, timestamp);
            &&& after.next_seq_num == state.next_seq_num + 1
            &&& after.config == state.config
            &&& after.extending == state.extending
            &&& after.queue.len() == state.queue.len() + 1
            &&& after.queue.drop_last() == state.queue
            &&& after.queue.last().seq_num == state.next_seq_num
            &&& after.queue.last().parsed == parsed
            &&& after.queue.last().timestamp == timestamp
        }),
{
    assert(state.enqueued(parsed, timestamp).queue.drop_last() =~= state.queue);
}

/// A flush takes as many records from the front of the queue as asked for, or all where there are
/// fewer, and one where none is asked for. It leaves the others as they are, and changes nothing
/// else.
pub proof fn law_flush_takes_the_front<B>(state: WorkerState<B>, max_batch_size: usize)
    ensures
        ({
            let batch = state.batch(max_batch_size);
            let rest = state.flushed(max_batch_size);
            &&& batch + rest.queue == state.queue
            &&& max_batch_size > 0 && state.queue.len() >= max_batch_size ==> batch.len()
                == max_batch_size
            &&& max_batch_size > 0 && state.queue.len() < max_batch_size ==> rest.queue.len() == 0
            &&& max_batch_size == 0 && state.queue.len() > 0 ==> batch.len() == 1
            &&& rest.config == state.config
            &&& rest.next_seq_num == state.next_seq_num
            &&& rest.extending == state.extending
        }),
{
    assert(state.batch(max_batch_size) + state.flushed(max_batch_size).queue =~= state.queue);
}

/// The data of every record that was parsed to data is handed on, once, in order and whatever its
/// size. A record that was parsed to nothing adds nothing.
pub proof fn law_every_buffer_is_handed_on<B>(
    queue: Seq<QueuedRecord<B>>,
    record: QueuedRecord<B>,
)
    ensures
        record.parsed matches Some(parsed) ==> {
            &&& buffers_of(queue.push(record)) == buffers_of(queue).push(parsed.buffer)
            &&& buffers_of(seq![record]) == seq![parsed.buffer]
        },
        record.parsed is None ==> {
            &&& buffers_of(queue.push(record)) == buffers_of(queue)
            &&& buffers_of(seq![record]) == Seq::<B>::empty()
        },
        buffers_of(queue) == queue.filter_map(
            |record: QueuedRecord<B>|
                match record.parsed {
                    Some(parsed) => Some(parsed.buffer),
                    None => None,
                },
        ),
    decreases queue.len(),
{
    assert(queue.push(record).drop_last() =~= queue);
    assert(seq![record].drop_last() =~= Seq::empty());
    assert(buffers_of(Seq::<QueuedRecord<B>>::empty()) =~= Seq::empty());
    assert(buffers_of(seq![record]) =~= match record.parsed {
        Some(parsed) => seq![parsed.buffer],
        None => Seq::empty(),
    });
    if queue.len() > 0 {
        law_every_buffer_is_handed_on(queue.drop_last(), queue.last());
    }
}

/// What is handed on is what the records at the front of the queue hold: their data in order, the
/// sums of their sizes, the digest of all their bytes, their numbers, and the time of the last of
/// them, or the time of the flush where there is none.
pub proof fn law_batch_is_what_its_records_hold<B>(
    state: WorkerState<B>,
    max_batch_size: usize,
    now: Timestamp,
    extended: Extended<B>,
    batch: Seq<QueuedRecord<B>>,
)
    requires
        state.wf(),
        state.is_extension(max_batch_size, now, extended),
        batch == state.batch(max_batch_size),
    ensures
        extended.buffers@ == batch.filter_map(
            |record: QueuedRecord<B>|
                match record.parsed {
                    Some(parsed) => Some(parsed.buffer),
                    None => None,
                },
        ),
        extended.hash == xxh3_digest(
            batch.map_values(
                |record: QueuedRecord<B>|
                    match record.parsed {
                        Some(parsed) => parsed.contents.hash_input@,
                        None => Seq::empty(),
                    },
            ).flatten(),
        ),
        extended.total.records == batch.fold_left(
            0int,
            |sum: int, record: QueuedRecord<B>|
                sum + match record.parsed {
                    Some(parsed) => parsed.contents.size.records as int,
                    None => 0,
                },
        ),
        extended.total.bytes == batch.fold_left(
            0int,
            |sum: int, record: QueuedRecord<B>|
                sum + match record.parsed {
                    Some(parsed) => parsed.contents.size.bytes as int,
                    None => 0,
                },
        ),
        extended.metadata.seq_numbers.start == state.next_seq_num - state.queue.len(),
        extended.metadata.seq_numbers.end == extended.metadata.seq_numbers.start + batch.len(),
        batch.len() > 0 ==> {
            &&& extended.metadata.seq_numbers.start == batch[0].seq_num
            &&& extended.metadata.seq_numbers.end == batch.last().seq_num + 1
            &&& extended.watermark == batch.last().timestamp
        },
        batch.len() == 0 ==> extended.watermark == now,
{
    let contents = |record: QueuedRecord<B>|
        match record.parsed {
            Some(parsed) => Some(parsed.contents),
            None => None,
        };
    let parsed = batch.map_values(contents);
    let views = parsed.map_values(|contents: Option<Contents>| view_of(contents));
    assert(contents_of(batch) =~= views);
    if batch.len() > 0 {
        law_every_buffer_is_handed_on(batch, batch[0]);
    }
    law_hash_is_the_digest_of_all(parsed);
    assert(parsed.map_values(
        |contents: Option<Contents>|
            match contents {
                Some(contents) => contents.hash_input@,
                None => Seq::<u8>::empty(),
            },
    ) =~= batch.map_values(
        |record: QueuedRecord<B>|
            match record.parsed {
                Some(parsed) => parsed.contents.hash_input@,
                None => Seq::<u8>::empty(),
            },
    ));
    law_size_is_the_sum(parsed, extended.total);
    lemma_sums(batch);
}

/// Summing over records is summing over what they were parsed to.
proof fn lemma_sums<B>(batch: Seq<QueuedRecord<B>>)
    ensures
        ({
            let parsed = batch.map_values(
                |record: QueuedRecord<B>|
                    match record.parsed {
                        Some(parsed) => Some(parsed.contents),
                        None => None,
                    },
            );
            &&& parsed.fold_left(
                0int,
                |sum: int, contents: Option<Contents>|
                    sum + match contents {
                        Some(contents) => contents.size.records as int,
                        None => 0,
                    },
            ) == batch.fold_left(
                0int,
                |sum: int, record: QueuedRecord<B>|
                    sum + match record.parsed {
                        Some(parsed) => parsed.contents.size.records as int,
                        None => 0,
                    },
            )
            &&& parsed.fold_left(
                0int,
                |sum: int, contents: Option<Contents>|
                    sum + match contents {
                        Some(contents) => contents.size.bytes as int,
                        None => 0,
                    },
            ) == batch.fold_left(
                0int,
                |sum: int, record: QueuedRecord<B>|
                    sum + match record.parsed {
                        Some(parsed) => parsed.contents.size.bytes as int,
                        None => 0,
                    },
            )
        }),
    decreases batch.len(),
{
    let contents = |record: QueuedRecord<B>|
        match record.parsed {
            Some(parsed) => Some(parsed.contents),
            None => None,
        };
    if batch.len() > 0 {
        lemma_sums(batch.drop_last());
        assert(batch.map_values(contents).drop_last() =~= batch.drop_last().map_values(contents));
    }
}

/// A batch that comes is taken in at once: the bodies of its records that are due, in order, and
/// the time at which it came. It is fatal exactly where a number is left out, and the error names
/// the number that is missing and the one that came.
pub proof fn law_batch_is_taken_in(
    config: S2InputConfig,
    expected: u64,
    batch: S2ReadBatch,
    timestamp: Timestamp,
    action: ReadAction,
)
    requires
        is_read_action(config, expected, Ok(Some(batch)), timestamp, action),
    ensures
        ({
            let (bodies, gap) = scan(batch.numbered(expected), expected as int, None);
            &&& action matches ReadAction::Ingest(admission)
            &&& admission.bodies@ == bodies
            &&& admission.timestamp == timestamp
            &&& match admission.failure {
                None => gap is None,
                Some(S2Error::InputGap { expected: missing, received }) => {
                    &&& gap == Some((missing as int, received))
                    &&& missing == expected + bodies.len()
                },
                Some(_) => false,
            }
        }),
{
    let _ = law_taken_in_order(batch.numbered(expected), expected as int, None);
}

/// The end of the stream and an error are not fatal: the reader waits as long as the configuration
/// says, and reports the error.
pub proof fn law_reader_waits_before_it_reads_on(
    config: S2InputConfig,
    expected: u64,
    outcome: Result<Option<S2ReadBatch>, S2Error>,
    timestamp: Timestamp,
    action: ReadAction,
)
    requires
        is_read_action(config, expected, outcome, timestamp, action),
    ensures
        outcome matches Ok(None) ==> (action matches ReadAction::Wait { secs } && secs
            == config.reconnect_timeout_secs),
        outcome matches Err(failure) ==> (action matches ReadAction::Report { error, secs }
            && error == failure && secs == config.reconnect_timeout_secs),
        outcome matches Ok(Some(_)) ==> action is Ingest,
{
}

} // verus!
