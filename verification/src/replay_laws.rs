//! What holds of replays: they come first, in order, and give what was handed on before.
use vstd::prelude::*;

use crate::admission::{law_taken_in_order, scan};
use crate::batch::S2ReadBatch;
use crate::clock::Timestamp;
use crate::contents::ContentsView;
use crate::error::S2Error;
use crate::laws::{
    after_all, are_reported, handed_on, ingested, law_every_record_once, law_ingested,
    law_ranges_tile, law_replay_reproduces_batch, taken_in, Event,
};
use crate::metadata::Metadata;
use crate::reader::{replay_start, ReaderState};
use crate::replay::{ReplayState, Replayed};
use crate::stream::{is_next_step, request_for, StreamState, StreamStep};
use crate::worker::{
    contents_of_parsed, Command, Extended, Parsed, QueuedRecord, WorkerState,
};

verus! {

/// A checkpoint that a reader was told to read again, and what came of it.
pub struct ReplayRun {
    pub metadata: Metadata,
    /// The state that the replay ended in.
    pub replay: ReplayState,
    pub outcome: Result<Replayed, S2Error>,
}

impl ReplayRun {
    /// The replay was one of the checkpoint, and what it gave, if it succeeded, is its outcome.
    pub open spec fn wf(self) -> bool {
        &&& self.replay.start == self.metadata.seq_numbers.start
        &&& self.replay.end == self.metadata.seq_numbers.end
        &&& self.outcome matches Ok(replayed) ==> {
            &&& self.replay.wf()
            &&& self.replay.done()
            &&& self.replay.is_outcome(replayed)
        }
    }
}

/// The state of a reader after `runs`, or the error that it ended with.
pub open spec fn after_replays(state: ReaderState, runs: Seq<ReplayRun>) -> Result<
    ReaderState,
    S2Error,
>
    decreases runs.len(),
{
    if runs.len() == 0 {
        Ok(state)
    } else {
        match after_replays(state, runs.drop_last()) {
            Ok(before) => before.after_replay(runs.last().metadata, runs.last().outcome),
            Err(error) => Err(error),
        }
    }
}

/// Checkpoints are read again in the order of the commands, each once. Then the reader stands at
/// the end of the last one, whatever position it was opened with.
pub proof fn law_replays_in_order(state: ReaderState, runs: Seq<ReplayRun>)
    requires
        forall|i: int| 0 <= i < runs.len() ==> (#[trigger] runs[i]).wf() && runs[i].outcome is Ok,
    ensures
        after_replays(state, runs) == Ok::<ReaderState, S2Error>(
            ReaderState {
                config: state.config,
                next_seq_num: if runs.len() == 0 {
                    state.next_seq_num
                } else {
                    runs.last().metadata.seq_numbers.end
                },
                replayed: state.replayed + runs.map_values(|run: ReplayRun| run.metadata),
            },
        ),
    decreases runs.len(),
{
    let metadata = |run: ReplayRun| run.metadata;
    if runs.len() == 0 {
        assert(state.replayed + runs.map_values(metadata) =~= state.replayed);
    } else {
        let front = runs.drop_last();
        law_replays_in_order(state, front);
        assert(runs.last() == runs[runs.len() - 1]);
        assert((state.replayed + front.map_values(metadata)).push(runs.last().metadata)
            =~= state.replayed + runs.map_values(metadata));
    }
}

/// After the replays, the first live request asks for the end of the last checkpoint. Without a
/// replay it asks for the position that the reader was opened with.
pub proof fn law_first_live_request<B>(
    state: ReaderState,
    runs: Seq<ReplayRun>,
    reader: ReaderState,
    step: StreamStep,
    after: StreamState,
)
    requires
        forall|i: int| 0 <= i < runs.len() ==> (#[trigger] runs[i]).wf(),
        after_replays(state, runs) == Ok::<ReaderState, S2Error>(reader),
        is_next_step(
            reader.stream(),
            reader.at_work::<B>().commanded(Command::Extend).next_seq_num,
            step,
            after,
        ),
    ensures
        reader.at_work::<B>().wf(),
        !reader.at_work::<B>().extending,
        step matches StreamStep::Open(request) && request@ == request_for(
            state.config,
            if runs.len() == 0 {
                state.next_seq_num
            } else {
                runs.last().metadata.seq_numbers.end
            },
        ),
{
    lemma_reader_is_left(state, runs);
    law_replays_in_order(state, runs);
}

/// The first live batch starts where the last checkpoint ends, or, without a replay, at the
/// position that the reader was opened with.
pub proof fn law_first_live_batch<B>(
    state: ReaderState,
    runs: Seq<ReplayRun>,
    reader: ReaderState,
    events: Seq<Event<B>>,
    reports: Seq<Extended<B>>,
)
    requires
        forall|i: int| 0 <= i < runs.len() ==> (#[trigger] runs[i]).wf(),
        after_replays(state, runs) == Ok::<ReaderState, S2Error>(reader),
        reader.next_seq_num + taken_in(reader.at_work::<B>(), events).len() <= u64::MAX,
        are_reported(reader.at_work::<B>(), events, reports),
        reports.len() > 0,
    ensures
        reports[0].metadata.seq_numbers.start == if runs.len() == 0 {
            state.next_seq_num
        } else {
            runs.last().metadata.seq_numbers.end
        },
{
    lemma_reader_is_left(state, runs);
    law_replays_in_order(state, runs);
    law_ranges_tile(reader.at_work::<B>(), events, reports);
}

/// A reader is left only where every replay has succeeded.
proof fn lemma_reader_is_left(state: ReaderState, runs: Seq<ReplayRun>)
    ensures
        after_replays(state, runs) is Ok <==> forall|i: int|
            0 <= i < runs.len() ==> (#[trigger] runs[i]).outcome is Ok,
    decreases runs.len(),
{
    if runs.len() > 0 {
        let front = runs.drop_last();
        lemma_reader_is_left(state, front);
        assert(forall|i: int| 0 <= i < front.len() ==> front[i] == #[trigger] runs[i]);
        if after_replays(state, runs) is Ok {
            assert forall|i: int|
                0 <= i < runs.len() implies (#[trigger] runs[i]).outcome is Ok by {
                if i < front.len() {
                    assert(front[i].outcome is Ok);
                }
            }
        } else if after_replays(state, front) is Ok {
            assert(runs[runs.len() - 1].outcome is Err);
        }
    }
}

/// The first replay that fails ends the reader with its error: there is no reader left that could
/// replay another checkpoint or go to work.
pub proof fn law_failed_replay_ends_the_reader(state: ReaderState, runs: Seq<ReplayRun>, k: int)
    requires
        0 <= k < runs.len(),
        forall|i: int| 0 <= i < k ==> (#[trigger] runs[i]).outcome is Ok,
        runs[k].outcome is Err,
    ensures
        after_replays(state, runs) == Err::<ReaderState, S2Error>(runs[k].outcome->Err_0),
    decreases runs.len(),
{
    let front = runs.drop_last();
    assert(forall|i: int| 0 <= i < front.len() ==> front[i] == #[trigger] runs[i]);
    if k < front.len() {
        law_failed_replay_ends_the_reader(state, front, k);
    } else {
        lemma_reader_is_left(state, front);
    }
}

/// The body of the record with a given sequence number.
pub type Stream = spec_fn(int) -> Seq<char>;

/// What a body is parsed to.
pub type Parse = spec_fn(Seq<char>) -> Option<ContentsView>;

/// Whether those of `records` that carry numbers from `start` up to `end` are records of `stream`.
pub open spec fn delivered(
    stream: Stream,
    records: Seq<(u64, String)>,
    start: int,
    end: int,
) -> bool {
    forall|i: int|
        0 <= i < records.len() && start <= (#[trigger] records[i]).0 < end ==> records[i].1@
            == stream(records[i].0 as int)
}

/// What `bodies` are parsed to.
pub open spec fn parsed_bodies(parse: Parse, bodies: Seq<String>) -> Seq<Option<ContentsView>> {
    bodies.map_values(|body: String| parse(body@))
}

/// Whether `records` are records of `stream`, parsed.
pub open spec fn all_parsed<B>(
    stream: Stream,
    parse: Parse,
    records: Seq<QueuedRecord<B>>,
) -> bool {
    forall|i: int|
        0 <= i < records.len() ==> (#[trigger] records[i]).contents() == parse(
            stream(records[i].seq_num as int),
        )
}

/// Whether the records in the queue are records of `stream`, parsed.
pub open spec fn holds<B>(stream: Stream, parse: Parse, state: WorkerState<B>) -> bool {
    all_parsed(stream, parse, state.queue)
}

/// What is taken from records of a stream are the records of the stream from `expected` on.
proof fn lemma_taken_from_stream(
    stream: Stream,
    records: Seq<(u64, String)>,
    expected: int,
    end: Option<u64>,
    start: int,
    stop: int,
)
    requires
        0 <= expected,
        start <= expected,
        end matches Some(end) ==> expected <= end && end <= stop,
        end is None ==> u64::MAX < stop,
        delivered(stream, records, start, stop),
    ensures
        ({
            let taken = scan(records, expected, end).0;
            forall|k: int|
                0 <= k < taken.len() ==> (#[trigger] taken[k])@ == stream(expected + k)
        }),
{
    let at = law_taken_in_order(records, expected, end);
    let taken = scan(records, expected, end).0;
    assert forall|k: int| 0 <= k < taken.len() implies (#[trigger] taken[k])@ == stream(
        expected + k,
    ) by {
        assert(records[at[k]] == ((expected + k) as u64, taken[k]));
    }
}

/// A reader that holds records of a stream still does when it has taken in a batch of the stream.
pub proof fn law_queue_holds_the_stream<B>(
    stream: Stream,
    parse: Parse,
    state: WorkerState<B>,
    records: Seq<(u64, String)>,
    parsed: Seq<Option<Parsed<B>>>,
    timestamp: Timestamp,
)
    requires
        state.wf(),
        holds(stream, parse, state),
        delivered(stream, records, state.next_seq_num as int, u64::MAX + 1),
        state.next_seq_num + parsed.len() <= u64::MAX,
        ({
            let bodies = scan(records, state.next_seq_num as int, None).0;
            &&& parsed.len() == bodies.len()
            &&& forall|k: int|
                0 <= k < parsed.len() ==> contents_of_parsed(#[trigger] parsed[k]) == parse(
                    bodies[k]@,
                )
        }),
    ensures
        holds(stream, parse, ingested(state, parsed, timestamp)),
{
    let next = state.next_seq_num as int;
    law_ingested(state, parsed, timestamp);
    lemma_taken_from_stream(stream, records, next, None, next, u64::MAX + 1);
    let bodies = scan(records, next, None).0;
    let after = ingested(state, parsed, timestamp);
    assert forall|i: int| 0 <= i < after.queue.len() implies (#[trigger] after.queue[i]).contents()
        == parse(stream(after.queue[i].seq_num as int)) by {
        if i < state.queue.len() {
            assert(after.queue[i] == state.queue[i]);
        } else {
            let k = i - state.queue.len();
            assert(contents_of_parsed(parsed[k]) == parse(bodies[k]@));
        }
    }
}

/// Whatever happens to a reader that holds records of a stream and takes in only such records: it
/// still holds only such records, and hands on only such records.
pub proof fn law_run_holds_the_stream<B>(
    stream: Stream,
    parse: Parse,
    state: WorkerState<B>,
    events: Seq<Event<B>>,
)
    requires
        state.wf(),
        state.next_seq_num + taken_in(state, events).len() <= u64::MAX,
        holds(stream, parse, state),
        all_parsed(stream, parse, taken_in(state, events)),
    ensures
        holds(stream, parse, after_all(state, events)),
        all_parsed(stream, parse, handed_on(state, events)),
{
    law_every_record_once(state, events);
    let taken = taken_in(state, events);
    let handed = handed_on(state, events);
    let end = after_all(state, events);
    let all = handed + end.queue;
    assert(all == state.queue + taken);
    assert forall|i: int| 0 <= i < all.len() implies (#[trigger] all[i]).contents() == parse(
        stream(all[i].seq_num as int),
    ) by {
        if i < state.queue.len() {
            assert(all[i] == state.queue[i]);
        } else {
            assert(all[i] == taken[i - state.queue.len()]);
        }
    }
    assert forall|i: int| 0 <= i < handed.len() implies (#[trigger] handed[i]).contents() == parse(
        stream(handed[i].seq_num as int),
    ) by {
        assert(all[i] == handed[i]);
    }
    assert forall|i: int| 0 <= i < end.queue.len() implies (#[trigger] end.queue[i]).contents()
        == parse(stream(end.queue[i].seq_num as int)) by {
        assert(all[handed.len() + i] == end.queue[i]);
    }
}

/// The state of a replay that has taken in what `batch` holds for it.
pub open spec fn after_batch(parse: Parse, replay: ReplayState, batch: S2ReadBatch) -> ReplayState {
    let bodies = scan(
        batch.numbered(replay.expected),
        replay.expected as int,
        Some(replay.end),
    ).0;
    ReplayState {
        expected: (replay.expected + bodies.len()) as u64,
        seen: replay.seen + parsed_bodies(parse, bodies),
        ..replay
    }
}

/// The state of a replay that has taken in `parsed`, record by record.
pub open spec fn after_records(
    replay: ReplayState,
    parsed: Seq<Option<ContentsView>>,
) -> ReplayState
    decreases parsed.len(),
{
    if parsed.len() == 0 {
        replay
    } else {
        after_records(replay, parsed.drop_last()).absorbed(parsed.last())
    }
}

/// Taking in the records of a batch one by one is taking in the batch.
pub proof fn law_batch_is_its_records(parse: Parse, replay: ReplayState, batch: S2ReadBatch)
    requires
        replay.wf(),
        !replay.done(),
    ensures
        ({
            let bodies = scan(
                batch.numbered(replay.expected),
                replay.expected as int,
                Some(replay.end),
            ).0;
            after_records(replay, parsed_bodies(parse, bodies)) == after_batch(parse, replay, batch)
        }),
{
    let records = batch.numbered(replay.expected);
    let _ = law_taken_in_order(records, replay.expected as int, Some(replay.end));
    let bodies = scan(records, replay.expected as int, Some(replay.end)).0;
    lemma_after_records(replay, parsed_bodies(parse, bodies));
}

/// Records that are taken in one by one are seen in order.
proof fn lemma_after_records(replay: ReplayState, parsed: Seq<Option<ContentsView>>)
    requires
        replay.expected + parsed.len() <= u64::MAX,
    ensures
        after_records(replay, parsed) == (ReplayState {
            expected: (replay.expected + parsed.len()) as u64,
            seen: replay.seen + parsed,
            ..replay
        }),
    decreases parsed.len(),
{
    if parsed.len() == 0 {
        assert(replay.seen + parsed =~= replay.seen);
    } else {
        lemma_after_records(replay, parsed.drop_last());
        assert((replay.seen + parsed.drop_last()).push(parsed.last()) =~= replay.seen + parsed);
    }
}

/// The state of a replay that has taken in `batches`, one after the other, until it is done.
pub open spec fn after_batches(
    parse: Parse,
    replay: ReplayState,
    batches: Seq<S2ReadBatch>,
) -> ReplayState
    decreases batches.len(),
{
    if batches.len() == 0 {
        replay
    } else {
        let before = after_batches(parse, replay, batches.drop_last());
        if before.done() {
            before
        } else {
            after_batch(parse, before, batches.last())
        }
    }
}

/// Whether `batches`, in which a replay numbers records as it goes on, hold for its range only
/// records of `stream`.
pub open spec fn all_delivered(
    stream: Stream,
    parse: Parse,
    replay: ReplayState,
    batches: Seq<S2ReadBatch>,
) -> bool
    decreases batches.len(),
{
    batches.len() == 0 || {
        let before = after_batches(parse, replay, batches.drop_last());
        &&& all_delivered(stream, parse, replay, batches.drop_last())
        &&& delivered(
            stream,
            batches.last().numbered(before.expected),
            replay.start as int,
            replay.end as int,
        )
    }
}

/// A replay that gets records of a stream sees those of its range, in order, however they are cut
/// into batches.
pub proof fn law_replay_sees_the_stream(
    stream: Stream,
    parse: Parse,
    metadata: Metadata,
    batches: Seq<S2ReadBatch>,
)
    requires
        all_delivered(stream, parse, replay_start(metadata), batches),
    ensures
        ({
            let replay = after_batches(parse, replay_start(metadata), batches);
            &&& replay.wf()
            &&& replay.start == metadata.seq_numbers.start
            &&& replay.end == metadata.seq_numbers.end
            &&& forall|k: int|
                0 <= k < replay.seen.len() ==> #[trigger] replay.seen[k] == parse(
                    stream(replay.start + k),
                )
        }),
    decreases batches.len(),
{
    let first = replay_start(metadata);
    if batches.len() > 0 {
        law_replay_sees_the_stream(stream, parse, metadata, batches.drop_last());
        let before = after_batches(parse, first, batches.drop_last());
        if !before.done() {
            let records = batches.last().numbered(before.expected);
            let expected = before.expected as int;
            let _ = law_taken_in_order(records, expected, Some(before.end));
            lemma_taken_from_stream(
                stream,
                records,
                expected,
                Some(before.end),
                before.start as int,
                before.end as int,
            );
            let bodies = scan(records, expected, Some(before.end)).0;
            let replay = after_batches(parse, first, batches);
            assert forall|k: int| 0 <= k < replay.seen.len() implies #[trigger] replay.seen[k]
                == parse(stream(replay.start + k)) by {
                if k >= before.seen.len() {
                    let l = k - before.seen.len();
                    assert(bodies[l]@ == stream(expected + l));
                }
            }
        }
    }
}

/// What was handed on is reproduced by a replay: where the stream gives the same bodies for the
/// range of a batch again, however it cuts them into batches, and equal bodies are parsed to equal
/// data, a replay that gets to its end gives the size and the hash of the batch, and leads to
/// where the reader stood.
pub proof fn law_replay_reproduces_what_was_handed_on<B>(
    stream: Stream,
    parse: Parse,
    state: WorkerState<B>,
    max_batch_size: usize,
    now: Timestamp,
    extended: Extended<B>,
    batches: Seq<S2ReadBatch>,
    replayed: Replayed,
)
    requires
        state.wf(),
        holds(stream, parse, state),
        state.is_extension(max_batch_size, now, extended),
        all_delivered(stream, parse, replay_start(extended.metadata), batches),
        after_batches(parse, replay_start(extended.metadata), batches).done(),
        after_batches(parse, replay_start(extended.metadata), batches).is_outcome(replayed),
    ensures
        replayed.total == extended.total,
        replayed.hash == extended.hash,
        replayed.next_seq_num == state.flushed(max_batch_size).frontier(),
{
    law_replay_sees_the_stream(stream, parse, extended.metadata, batches);
    law_replay_reproduces_batch(
        |seq_num: int| parse(stream(seq_num)),
        state,
        max_batch_size,
        now,
        extended,
        after_batches(parse, replay_start(extended.metadata), batches),
        replayed,
    );
}

/// Every batch of a run is reproduced by a replay: whatever has happened to a reader that took in
/// only records of a stream, the batch that it hands on next has the size and the hash that a
/// replay of its range gives, if the stream gives the same bodies again.
pub proof fn law_replay_reproduces_a_run<B>(
    stream: Stream,
    parse: Parse,
    state: WorkerState<B>,
    events: Seq<Event<B>>,
    max_batch_size: usize,
    now: Timestamp,
    extended: Extended<B>,
    batches: Seq<S2ReadBatch>,
    replayed: Replayed,
)
    requires
        state.wf(),
        state.next_seq_num + taken_in(state, events).len() <= u64::MAX,
        holds(stream, parse, state),
        all_parsed(stream, parse, taken_in(state, events)),
        after_all(state, events).is_extension(max_batch_size, now, extended),
        all_delivered(stream, parse, replay_start(extended.metadata), batches),
        after_batches(parse, replay_start(extended.metadata), batches).done(),
        after_batches(parse, replay_start(extended.metadata), batches).is_outcome(replayed),
    ensures
        replayed.total == extended.total,
        replayed.hash == extended.hash,
        replayed.next_seq_num == after_all(state, events).flushed(max_batch_size).frontier(),
{
    law_every_record_once(state, events);
    law_run_holds_the_stream(stream, parse, state, events);
    law_replay_reproduces_what_was_handed_on(
        stream,
        parse,
        after_all(state, events),
        max_batch_size,
        now,
        extended,
        batches,
        replayed,
    );
}

} // verus!
